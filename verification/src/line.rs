//! The meaning of one line of a file.
//!
//! A line is skipped, gives a key and a value, or is malformed. Nothing is
//! trimmed from a key or a value, and no quote or escape is read in them.

use crate::text::{chars_of, find, first_occurrence, matches_at, trim, trim_bounds};
use vstd::prelude::*;

verus! {

/// What a line says. `S` is `String` in executable code; in contracts it is
/// `Seq<char>`, the view of a string.
#[derive(Debug, PartialEq, Eq)]
pub enum Line<S> {
    /// A blank line, or one that is a comment as a whole.
    Skipped,
    /// A key and the value given to it.
    Entry { key: S, value: S },
    /// A line that should hold an entry and lacks the delimiter.
    Malformed,
}

impl View for Line<String> {
    type V = Line<Seq<char>>;

    open spec fn view(&self) -> Line<Seq<char>> {
        match self {
            Line::Skipped => Line::Skipped,
            Line::Entry { key, value } => Line::Entry { key: key@, value: value@ },
            Line::Malformed => Line::Malformed,
        }
    }
}

/// Whether `line` holds nothing to load: it is empty once trimmed, or its
/// trimmed text starts with the comment marker. Every text starts with the
/// empty marker: under it each line is skipped.
pub open spec fn is_skipped(line: Seq<char>, comment: Seq<char>) -> bool {
    trim(line).len() == 0 || comment.is_prefix_of(trim(line))
}

/// The part of `line` before the first comment marker in it; all of it where
/// there is none.
pub open spec fn before_comment(line: Seq<char>, comment: Seq<char>) -> Seq<char> {
    match first_occurrence(line, comment) {
        Some(at) => line.subrange(0, at),
        None => line,
    }
}

/// What `line` says under the given comment marker and delimiter.
///
/// A line that is not skipped loses its trailing comment, and what is left is
/// cut at the first delimiter: the key is what stands before it, the value
/// all that follows it. Either may be empty. The empty delimiter stands at the
/// start of what is left: the key is then empty and the value is all of it.
pub open spec fn parse(line: Seq<char>, comment: Seq<char>, delimiter: Seq<char>) -> Line<
    Seq<char>,
> {
    if is_skipped(line, comment) {
        Line::Skipped
    } else {
        let body = before_comment(line, comment);
        match first_occurrence(body, delimiter) {
            Some(at) => Line::Entry {
                key: body.subrange(0, at),
                value: body.subrange(at + delimiter.len(), body.len() as int),
            },
            None => Line::Malformed,
        }
    }
}

/// Reads one line.
pub fn parse_line(line: &str, comment: &str, delimiter: &str) -> (r: Line<String>)
    ensures
        r@ == parse(line@, comment@, delimiter@),
{
    let text = chars_of(line);
    let marker = chars_of(comment);
    let delim = chars_of(delimiter);
    let (from, to) = trim_bounds(text.as_slice());
    if from == to {
        return Line::Skipped;
    }
    if matches_at(text.as_slice(), to, marker.as_slice(), from) {
        return Line::Skipped;
    }
    assert(!is_skipped(line@, comment@)) by {
        if from + marker@.len() <= to {
            assert(text@.subrange(0, to as int).subrange(from as int, from + marker@.len())
                =~= text@.subrange(from as int, to as int).subrange(0, marker@.len() as int));
        }
    }
    assert(text@.subrange(0, text@.len() as int) =~= text@);
    let end: usize = match find(text.as_slice(), text.len(), marker.as_slice()) {
        Some(at) => at,
        None => text.len(),
    };
    let ghost body = before_comment(line@, comment@);
    match find(text.as_slice(), end, delim.as_slice()) {
        Some(at) => {
            let key = line.substring_char(0, at).to_owned();
            let value = line.substring_char(at + delim.len(), end).to_owned();
            assert(key@ =~= body.subrange(0, at as int));
            assert(value@ =~= body.subrange(at + delim@.len(), body.len() as int));
            Line::Entry { key, value }
        },
        None => Line::Malformed,
    }
}

} // verus!
