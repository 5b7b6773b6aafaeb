//! Text as sequences of characters: white space, trimming and literal
//! substring search.
//!
//! Every contract in this crate speaks of a string through its view, a
//! `Seq<char>`. The executable functions here work on slices of `char`, so that
//! a position is the same number in the code and in the contracts.

use vstd::prelude::*;

verus! {

/// The characters with the Unicode property `White_Space`.
pub open spec fn is_whitespace_spec(c: char) -> bool {
    let n = c as u32;
    ||| 0x09 <= n <= 0x0D
    ||| n == 0x20
    ||| n == 0x85
    ||| n == 0xA0
    ||| n == 0x1680
    ||| 0x2000 <= n <= 0x200A
    ||| n == 0x2028
    ||| n == 0x2029
    ||| n == 0x202F
    ||| n == 0x205F
    ||| n == 0x3000
}

/// Whether `c` is white space.
#[verifier::when_used_as_spec(is_whitespace_spec)]
pub fn is_whitespace(c: char) -> (r: bool)
    ensures
        r == is_whitespace_spec(c),
{
    let n: u32 = c as u32;
    (0x09 <= n && n <= 0x0D) || n == 0x20 || n == 0x85 || n == 0xA0 || n == 0x1680 || (0x2000 <= n
        && n <= 0x200A) || n == 0x2028 || n == 0x2029 || n == 0x202F || n == 0x205F || n == 0x3000
}

/// `s` without its leading white space.
pub open spec fn trim_start(s: Seq<char>) -> Seq<char>
    decreases s.len(),
{
    if s.len() > 0 && is_whitespace_spec(s.first()) {
        trim_start(s.drop_first())
    } else {
        s
    }
}

/// `s` without its trailing white space.
pub open spec fn trim_end(s: Seq<char>) -> Seq<char>
    decreases s.len(),
{
    if s.len() > 0 && is_whitespace_spec(s.last()) {
        trim_end(s.drop_last())
    } else {
        s
    }
}

/// `s` without its leading and trailing white space.
pub open spec fn trim(s: Seq<char>) -> Seq<char> {
    trim_end(trim_start(s))
}

/// Trimming at the start removes exactly the white space before the first
/// character that is none.
pub proof fn lemma_trim_start_is_suffix(s: Seq<char>, from: int)
    requires
        0 <= from <= s.len(),
        forall|k: int| 0 <= k < from ==> is_whitespace_spec(#[trigger] s[k]),
        from < s.len() ==> !is_whitespace_spec(s[from]),
    ensures
        trim_start(s) == s.subrange(from, s.len() as int),
    decreases from,
{
    if from > 0 {
        lemma_trim_start_is_suffix(s.drop_first(), from - 1);
    }
}

/// Trimming at the end removes exactly the white space after the last
/// character that is none.
pub proof fn lemma_trim_end_is_prefix(s: Seq<char>, to: int)
    requires
        0 <= to <= s.len(),
        forall|k: int| to <= k < s.len() ==> is_whitespace_spec(#[trigger] s[k]),
        0 < to ==> !is_whitespace_spec(s[to - 1]),
    ensures
        trim_end(s) == s.subrange(0, to),
    decreases s.len() - to,
{
    if to < s.len() {
        lemma_trim_end_is_prefix(s.drop_last(), to);
    }
}

/// Where `text` without its leading and trailing white space starts and
/// ends in `text`. For a text of white space alone both are its length.
pub fn trim_bounds(text: &[char]) -> (r: (usize, usize))
    ensures
        r.0 <= r.1 <= text@.len(),
        r.0 == text@.len() - trim_start(text@).len(),
        text@.subrange(r.0 as int, r.1 as int) == trim(text@),
{
    let mut from: usize = 0;
    while from < text.len() && is_whitespace(text[from])
        invariant
            from <= text@.len(),
            forall|k: int| 0 <= k < from ==> is_whitespace_spec(#[trigger] text@[k]),
        decreases text@.len() - from,
    {
        from += 1;
    }
    let mut to: usize = text.len();
    while from < to && is_whitespace(text[to - 1])
        invariant
            from <= to <= text@.len(),
            forall|k: int| to <= k < text@.len() ==> is_whitespace_spec(#[trigger] text@[k]),
        decreases to,
    {
        to -= 1;
    }
    proof {
        let tail = text@.subrange(from as int, text@.len() as int);
        lemma_trim_start_is_suffix(text@, from as int);
        lemma_trim_end_is_prefix(tail, to - from);
    }
    (from, to)
}

/// Whether `pattern` stands in `text` at position `at`.
pub open spec fn occurs_at(text: Seq<char>, pattern: Seq<char>, at: int) -> bool {
    &&& 0 <= at
    &&& at + pattern.len() <= text.len()
    &&& text.subrange(at, at + pattern.len()) == pattern
}

/// Whether `at` is the leftmost position at which `pattern` stands in `text`.
pub open spec fn is_first_occurrence(text: Seq<char>, pattern: Seq<char>, at: int) -> bool {
    &&& occurs_at(text, pattern, at)
    &&& forall|k: int| 0 <= k < at ==> !occurs_at(text, pattern, k)
}

/// The leftmost position at which `pattern` stands in `text`, if it stands
/// anywhere. The empty pattern stands at position 0 of every text.
pub open spec fn first_occurrence(text: Seq<char>, pattern: Seq<char>) -> Option<int> {
    if exists|at: int| occurs_at(text, pattern, at) {
        Some(choose|at: int| is_first_occurrence(text, pattern, at))
    } else {
        None
    }
}

/// Where a pattern occurs, it has a leftmost occurrence.
pub proof fn lemma_leftmost_exists(text: Seq<char>, pattern: Seq<char>, at: int)
    requires
        occurs_at(text, pattern, at),
    ensures
        exists|m: int| is_first_occurrence(text, pattern, m),
    decreases at,
{
    if exists|k: int| 0 <= k < at && occurs_at(text, pattern, k) {
        let k = choose|k: int| 0 <= k < at && occurs_at(text, pattern, k);
        lemma_leftmost_exists(text, pattern, k);
    } else {
        assert(is_first_occurrence(text, pattern, at));
    }
}

/// What `first_occurrence` returns: the leftmost occurrence, or `None` where
/// the pattern stands nowhere in the text.
pub proof fn lemma_first_occurrence(text: Seq<char>, pattern: Seq<char>)
    ensures
        match first_occurrence(text, pattern) {
            Some(at) => is_first_occurrence(text, pattern, at),
            None => forall|at: int| !occurs_at(text, pattern, at),
        },
{
    if exists|at: int| occurs_at(text, pattern, at) {
        let some = choose|at: int| occurs_at(text, pattern, at);
        lemma_leftmost_exists(text, pattern, some);
    }
}

/// The leftmost occurrence is what `first_occurrence` returns.
pub proof fn lemma_leftmost_is_first(text: Seq<char>, pattern: Seq<char>, at: int)
    requires
        is_first_occurrence(text, pattern, at),
    ensures
        first_occurrence(text, pattern) == Some(at),
{
    lemma_first_occurrence(text, pattern);
}

/// Whether `pattern` stands at position `at` in the first `end` characters of
/// `text`.
pub fn matches_at(text: &[char], end: usize, pattern: &[char], at: usize) -> (r: bool)
    requires
        end <= text@.len(),
    ensures
        r == occurs_at(text@.subrange(0, end as int), pattern@, at as int),
{
    if pattern.len() > end || at > end - pattern.len() {
        return false;
    }
    let mut k: usize = 0;
    while k < pattern.len()
        invariant
            k <= pattern@.len(),
            at + pattern@.len() <= end <= text@.len(),
            forall|j: int| 0 <= j < k ==> text@[at + j] == pattern@[j],
        decreases pattern@.len() - k,
    {
        if text[at + k] != pattern[k] {
            assert(text@.subrange(0, end as int).subrange(at as int, at + pattern@.len())[k as int]
                != pattern@[k as int]);
            return false;
        }
        k += 1;
    }
    assert(text@.subrange(0, end as int).subrange(at as int, at + pattern@.len()) =~= pattern@);
    true
}

/// The leftmost position at which `pattern` stands in the first `end`
/// characters of `text`.
pub fn find(text: &[char], end: usize, pattern: &[char]) -> (r: Option<usize>)
    requires
        end <= text@.len(),
    ensures
        match r {
            Some(at) => {
                &&& first_occurrence(text@.subrange(0, end as int), pattern@) == Some(at as int)
                &&& at + pattern@.len() <= end
            },
            None => first_occurrence(text@.subrange(0, end as int), pattern@) is None,
        },
{
    let ghost hay = text@.subrange(0, end as int);
    if pattern.len() > end {
        proof {
            lemma_first_occurrence(hay, pattern@);
        }
        return None;
    }
    let last: usize = end - pattern.len();
    let mut at: usize = 0;
    loop
        invariant
            at <= last,
            last == end - pattern@.len(),
            end <= text@.len(),
            hay == text@.subrange(0, end as int),
            forall|k: int| 0 <= k < at ==> !occurs_at(hay, pattern@, k),
        decreases last - at,
    {
        if matches_at(text, end, pattern, at) {
            proof {
                lemma_leftmost_is_first(hay, pattern@, at as int);
            }
            return Some(at);
        }
        if at == last {
            proof {
                lemma_first_occurrence(hay, pattern@);
            }
            return None;
        }
        at += 1;
    }
}

/// The characters of `s`.
pub fn chars_of(s: &str) -> (r: Vec<char>)
    ensures
        r@ == s@,
{
    let mut r: Vec<char> = Vec::new();
    for c in it: s.chars()
        invariant
            it.seq() == s@,
            r@ == it.seq().take(it.index()),
    {
        r.push(c);
    }
    r
}

} // verus!
