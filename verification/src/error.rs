//! The errors that compiling a template can raise, and their rendering as
//! human-readable text.
use vstd::prelude::*;

verus! {

/// A defect found in a template while compiling it.  `run` itself never
/// fails: every error is caught at compile time.
#[derive(Debug)]
pub enum Error {
    /// A `%{key}` marker with no `%{val}` marker anywhere after it; carries
    /// the character position right after that `%{key}`.
    InvalidPattern(usize),
    /// A separator that is a substring of a sibling separator, or that is
    /// used both between fields and between key and value.
    DoubleSeperator(String),
    /// A `\X` escape where `X` is not one of `\`, `n`, `t`, `r`.
    InvalidEscape(char),
    /// A trailing `\` with nothing after it.
    UnterminatedEscape,
}

/// The mathematical value of an [`Error`].
pub enum ErrorView {
    InvalidPattern(nat),
    DoubleSeperator(Seq<char>),
    InvalidEscape(char),
    UnterminatedEscape,
}

impl View for Error {
    type V = ErrorView;

    open spec fn view(&self) -> ErrorView {
        match self {
            Error::InvalidPattern(p) => ErrorView::InvalidPattern(*p as nat),
            Error::DoubleSeperator(s) => ErrorView::DoubleSeperator(s@),
            Error::InvalidEscape(c) => ErrorView::InvalidEscape(*c),
            Error::UnterminatedEscape => ErrorView::UnterminatedEscape,
        }
    }
}

impl PartialEq for Error {
    fn eq(&self, other: &Error) -> (r: bool) {
        match (self, other) {
            (Error::InvalidPattern(a), Error::InvalidPattern(b)) => *a == *b,
            (Error::DoubleSeperator(a), Error::DoubleSeperator(b)) => *a == *b,
            (Error::InvalidEscape(a), Error::InvalidEscape(b)) => *a == *b,
            (Error::UnterminatedEscape, Error::UnterminatedEscape) => true,
            _ => false,
        }
    }
}

impl vstd::std_specs::cmp::PartialEqSpecImpl for Error {
    open spec fn obeys_eq_spec() -> bool {
        true
    }

    open spec fn eq_spec(&self, other: &Error) -> bool {
        self@ == other@
    }
}

/// The character for a single decimal digit.
pub open spec fn digit_char(d: nat) -> char {
    if d == 0 {
        '0'
    } else if d == 1 {
        '1'
    } else if d == 2 {
        '2'
    } else if d == 3 {
        '3'
    } else if d == 4 {
        '4'
    } else if d == 5 {
        '5'
    } else if d == 6 {
        '6'
    } else if d == 7 {
        '7'
    } else if d == 8 {
        '8'
    } else {
        '9'
    }
}

/// The decimal digits of `n`, most significant first.
pub open spec fn dec_digits(n: nat) -> Seq<char>
    decreases n,
{
    if n < 10 {
        seq![digit_char(n)]
    } else {
        dec_digits(n / 10).push(digit_char(n % 10))
    }
}

fn digit_str(d: usize) -> (r: &'static str)
    requires
        d < 10,
    ensures
        r@ == seq![digit_char(d as nat)],
{
    if d == 0 {
        proof {
            reveal_strlit("0");
            assert("0"@ =~= seq![digit_char(0)]);
        }
        "0"
    } else if d == 1 {
        proof {
            reveal_strlit("1");
            assert("1"@ =~= seq![digit_char(1)]);
        }
        "1"
    } else if d == 2 {
        proof {
            reveal_strlit("2");
            assert("2"@ =~= seq![digit_char(2)]);
        }
        "2"
    } else if d == 3 {
        proof {
            reveal_strlit("3");
            assert("3"@ =~= seq![digit_char(3)]);
        }
        "3"
    } else if d == 4 {
        proof {
            reveal_strlit("4");
            assert("4"@ =~= seq![digit_char(4)]);
        }
        "4"
    } else if d == 5 {
        proof {
            reveal_strlit("5");
            assert("5"@ =~= seq![digit_char(5)]);
        }
        "5"
    } else if d == 6 {
        proof {
            reveal_strlit("6");
            assert("6"@ =~= seq![digit_char(6)]);
        }
        "6"
    } else if d == 7 {
        proof {
            reveal_strlit("7");
            assert("7"@ =~= seq![digit_char(7)]);
        }
        "7"
    } else if d == 8 {
        proof {
            reveal_strlit("8");
            assert("8"@ =~= seq![digit_char(8)]);
        }
        "8"
    } else {
        proof {
            reveal_strlit("9");
            assert("9"@ =~= seq![digit_char(9)]);
        }
        "9"
    }
}

/// `n` written in decimal.
fn dec_string(n: usize) -> (r: String)
    ensures
        r@ == dec_digits(n as nat),
    decreases n,
{
    if n < 10 {
        String::from_str(digit_str(n))
    } else {
        let mut s = dec_string(n / 10);
        s.append(digit_str(n % 10));
        proof {
            assert(s@ =~= dec_digits(n as nat));
        }
        s
    }
}

/// Relies on `String::push`: appends exactly the given character at the end.
#[verifier::external_body]
fn push_char(s: &mut String, c: char)
    ensures
        final(s)@ == old(s)@.push(c),
{
    s.push(c);
}

/// Builds the string holding exactly the given characters.
pub fn chars_to_string(v: &Vec<char>) -> (r: String)
    ensures
        r@ == v@,
{
    let mut s = String::new();
    let mut i: usize = 0;
    while i < v.len()
        invariant
            i <= v@.len(),
            s@ == v@.take(i as int),
        decreases v@.len() - i,
    {
        push_char(&mut s, v[i]);
        proof {
            assert(v@.take(i as int).push(v@[i as int]) =~= v@.take(i + 1));
        }
        i += 1;
    }
    proof {
        assert(v@.take(v@.len() as int) =~= v@);
    }
    s
}

/// The message that [`Error::message`] renders for each error value.
pub open spec fn spec_message(e: ErrorView) -> Seq<char> {
    match e {
        ErrorView::InvalidPattern(p) => "invalid pattern at character "@ + dec_digits(p),
        ErrorView::DoubleSeperator(s) => "The seperator '"@ + s
            + "' is used for both key value seperation as well as pair seperation."@,
        ErrorView::InvalidEscape(c) => "Invalid escape sequence \\'"@ + seq![c]
            + "' is not valid."@,
        ErrorView::UnterminatedEscape => "Unterminated escape at the end of line or of a delimiter %{ can't be escaped"@,
    }
}

impl Error {
    /// Renders the error as human-readable text.
    pub fn message(&self) -> (r: String)
        ensures
            r@ == spec_message(self@),
    {
        match self {
            Error::InvalidPattern(p) => {
                let mut s = String::from_str("invalid pattern at character ");
                let d = dec_string(*p);
                s.append(d.as_str());
                s
            },
            Error::DoubleSeperator(sep) => {
                let mut s = String::from_str("The seperator '");
                s.append(sep.as_str());
                s.append("' is used for both key value seperation as well as pair seperation.");
                proof {
                    assert(s@ =~= spec_message(self@));
                }
                s
            },
            Error::InvalidEscape(c) => {
                let mut s = String::from_str("Invalid escape sequence \\'");
                push_char(&mut s, *c);
                s.append("' is not valid.");
                proof {
                    assert(s@ =~= spec_message(self@));
                }
                s
            },
            Error::UnterminatedEscape => String::from_str(
                "Unterminated escape at the end of line or of a delimiter %{ can't be escaped",
            ),
        }
    }
}

} // verus!
