//! The lines of a text.
//!
//! A line ends at a line feed, or at a carriage return directly followed by
//! one; neither belongs to the line. The last line needs no ending, and a
//! text that ends with a line ending has no empty line after it.

use crate::text::{
    chars_of, first_occurrence, lemma_first_occurrence, lemma_leftmost_is_first, occurs_at,
};
use vstd::prelude::*;

verus! {

/// The line feed, as a pattern to search for.
pub open spec fn line_feed() -> Seq<char> {
    seq!['\n']
}

/// `line` without the carriage return at its end, if it has one.
pub open spec fn strip_carriage_return(line: Seq<char>) -> Seq<char> {
    if line.len() > 0 && line.last() == '\r' {
        line.drop_last()
    } else {
        line
    }
}

/// The lines of `text`, in order.
pub open spec fn split_lines(text: Seq<char>) -> Seq<Seq<char>>
    decreases text.len(),
    via split_lines_decreases
{
    if text.len() == 0 {
        Seq::empty()
    } else {
        match first_occurrence(text, line_feed()) {
            Some(at) => seq![strip_carriage_return(text.subrange(0, at))] + split_lines(
                text.subrange(at + 1, text.len() as int),
            ),
            None => seq![text],
        }
    }
}

#[via_fn]
proof fn split_lines_decreases(text: Seq<char>) {
    lemma_first_occurrence(text, line_feed());
}

/// A line feed stands at a position exactly where the character there is one.
pub proof fn lemma_line_feed_at(text: Seq<char>, at: int)
    ensures
        occurs_at(text, line_feed(), at) <==> 0 <= at < text.len() && text[at] == '\n',
{
    if 0 <= at < text.len() {
        let window = text.subrange(at, at + 1);
        assert(window[0] == text[at]);
        if text[at] == '\n' {
            assert(window =~= line_feed());
        }
    }
}

/// No line holds a line feed.
pub proof fn lemma_lines_hold_no_line_feed(text: Seq<char>)
    ensures
        forall|i: int, k: int|
            0 <= i < split_lines(text).len() && 0 <= k < split_lines(text)[i].len()
                ==> #[trigger] split_lines(text)[i][k] != '\n',
    decreases text.len(),
{
    if text.len() > 0 {
        lemma_first_occurrence(text, line_feed());
        assert forall|k: int| 0 <= k < text.len() && text[k] == '\n' implies occurs_at(
            text,
            line_feed(),
            k,
        ) by {
            lemma_line_feed_at(text, k);
        }
        match first_occurrence(text, line_feed()) {
            Some(at) => {
                let head = strip_carriage_return(text.subrange(0, at));
                let rest = text.subrange(at + 1, text.len() as int);
                lemma_lines_hold_no_line_feed(rest);
                assert forall|i: int, k: int|
                    0 <= i < split_lines(text).len() && 0 <= k < split_lines(
                        text,
                    )[i].len() implies #[trigger] split_lines(text)[i][k] != '\n' by {
                    if i == 0 {
                        assert(head[k] == text[k]);
                    } else {
                        assert(split_lines(text)[i] == split_lines(rest)[i - 1]);
                    }
                }
            },
            None => {},
        }
    }
}

/// Splits `content` into its lines.
///
/// Each line is cut out of `content` by its position, which takes time in
/// proportion to that position.
pub fn lines(content: &str) -> (r: Vec<String>)
    ensures
        r.deep_view() == split_lines(content@),
{
    let text = chars_of(content);
    let mut r: Vec<String> = Vec::new();
    let mut start: usize = 0;
    assert(text@.subrange(0, text@.len() as int) =~= text@);
    while start < text.len()
        invariant
            start <= text@.len(),
            text@ == content@,
            split_lines(content@) == r.deep_view() + split_lines(
                text@.subrange(start as int, text@.len() as int),
            ),
        decreases text@.len() - start,
    {
        let ghost rest = text@.subrange(start as int, text@.len() as int);
        let mut stop: usize = start;
        while stop < text.len() && text[stop] != '\n'
            invariant
                start <= stop <= text@.len(),
                forall|k: int| start <= k < stop ==> text@[k] != '\n',
            decreases text@.len() - stop,
        {
            stop += 1;
        }
        assert forall|k: int| 0 <= k < stop - start implies !occurs_at(rest, line_feed(), k) by {
            lemma_line_feed_at(rest, k);
        }
        if stop == text.len() {
            proof {
                lemma_first_occurrence(rest, line_feed());
            }
            let line = content.substring_char(start, stop).to_owned();
            r.push(line);
            start = stop;
        } else {
            proof {
                lemma_line_feed_at(rest, stop - start);
                lemma_leftmost_is_first(rest, line_feed(), stop - start);
            }
            let end: usize = if stop > start && text[stop - 1] == '\r' {
                stop - 1
            } else {
                stop
            };
            let line = content.substring_char(start, end).to_owned();
            assert(line@ =~= strip_carriage_return(rest.subrange(0, stop - start)));
            r.push(line);
            assert(rest.subrange(stop - start + 1, rest.len() as int) =~= text@.subrange(
                stop + 1,
                text@.len() as int,
            ));
            start = stop + 1;
        }
    }
    r
}

} // verus!
