//! The one error of a load: a line that cannot be read as an entry.

use vstd::prelude::*;

verus! {

/// A line that should hold an entry and lacks the delimiter.
#[derive(Debug, PartialEq, Eq)]
pub struct MalformedLine {
    /// The number of the line in its file; the first line has number 1.
    pub line_number: usize,
    /// The line as it stands in the file.
    pub content: String,
}

/// A [`MalformedLine`], as contracts see it.
pub ghost struct MalformedLineView {
    pub line_number: nat,
    pub content: Seq<char>,
}

impl View for MalformedLine {
    type V = MalformedLineView;

    open spec fn view(&self) -> MalformedLineView {
        MalformedLineView { line_number: self.line_number as nat, content: self.content@ }
    }
}

impl DeepView for MalformedLine {
    type V = MalformedLineView;

    open spec fn deep_view(&self) -> MalformedLineView {
        self@
    }
}

/// The decimal digit for `d`, a number below ten.
pub open spec fn digit(d: nat) -> char {
    if d == 0 {
        '0'
    } else if d == 1 {
        '1'
    } else if d == 2 {
        '2'
    } else if d == 3 {
        '3'
    } else if d == 4 {
        '4'
    } else if d == 5 {
        '5'
    } else if d == 6 {
        '6'
    } else if d == 7 {
        '7'
    } else if d == 8 {
        '8'
    } else {
        '9'
    }
}

/// `n` written in decimal digits, without leading zeros.
pub open spec fn decimal(n: nat) -> Seq<char>
    decreases n,
{
    if n < 10 {
        seq![digit(n)]
    } else {
        decimal(n / 10).push(digit(n % 10))
    }
}

/// What is said of a malformed line.
pub open spec fn message_text(failure: MalformedLineView) -> Seq<char> {
    "Line "@ + decimal(failure.line_number) + " with content '"@ + failure.content
        + "' does not appear to be formatted properly."@
}

/// The digit for `d` as a string.
fn digit_str(d: usize) -> (r: &'static str)
    requires
        d < 10,
    ensures
        r@ == seq![digit(d as nat)],
{
    proof {
        reveal_strlit("0");
        reveal_strlit("1");
        reveal_strlit("2");
        reveal_strlit("3");
        reveal_strlit("4");
        reveal_strlit("5");
        reveal_strlit("6");
        reveal_strlit("7");
        reveal_strlit("8");
        reveal_strlit("9");
    }
    if d == 0 {
        "0"
    } else if d == 1 {
        "1"
    } else if d == 2 {
        "2"
    } else if d == 3 {
        "3"
    } else if d == 4 {
        "4"
    } else if d == 5 {
        "5"
    } else if d == 6 {
        "6"
    } else if d == 7 {
        "7"
    } else if d == 8 {
        "8"
    } else {
        "9"
    }
}

/// `n` in decimal digits.
pub fn decimal_string(n: usize) -> (r: String)
    ensures
        r@ == decimal(n as nat),
    decreases n,
{
    if n < 10 {
        digit_str(n).to_owned()
    } else {
        let mut r = decimal_string(n / 10);
        r.append(digit_str(n % 10));
        r
    }
}

impl MalformedLine {
    /// The message for this line: its number, then its text between single
    /// quotes.
    pub fn message(&self) -> (r: String)
        ensures
            r@ == message_text(self@),
    {
        let mut r = "Line ".to_owned();
        r.append(decimal_string(self.line_number).as_str());
        r.append(" with content '");
        r.append(self.content.as_str());
        r.append("' does not appear to be formatted properly.");
        r
    }
}

} // verus!
