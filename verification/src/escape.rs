//! Decoding of backslash escape sequences inside literal separators.  This
//! runs once per literal segment found while compiling a template, never
//! while splitting input.
use crate::error::{Error, ErrorView};
use vstd::prelude::*;

verus! {

/// The character that the escape sequence `\c` stands for.
pub open spec fn esc_char(c: char) -> char {
    if c == 'n' {
        '\n'
    } else if c == 't' {
        '\t'
    } else if c == 'r' {
        '\r'
    } else {
        c
    }
}

/// Decodes the escape sequences `\\`, `\n`, `\t` and `\r` in `s`, copying
/// every other character verbatim.  Any other `\X` is an invalid escape; a
/// trailing `\` is an unterminated escape.
pub open spec fn spec_unescape(s: Seq<char>) -> Result<Seq<char>, ErrorView>
    decreases s.len(),
{
    if s.len() == 0 {
        Ok(Seq::empty())
    } else if s[0] == '\\' {
        if s.len() == 1 {
            Err(ErrorView::UnterminatedEscape)
        } else if s[1] == '\\' || s[1] == 'n' || s[1] == 't' || s[1] == 'r' {
            match spec_unescape(s.skip(2)) {
                Ok(r) => Ok(seq![esc_char(s[1])] + r),
                Err(e) => Err(e),
            }
        } else {
            Err(ErrorView::InvalidEscape(s[1]))
        }
    } else {
        match spec_unescape(s.skip(1)) {
            Ok(r) => Ok(seq![s[0]] + r),
            Err(e) => Err(e),
        }
    }
}

/// Decoding never turns a non-empty literal into an empty one.
pub proof fn lemma_unescape_nonempty(s: Seq<char>)
    requires
        s.len() > 0,
    ensures
        spec_unescape(s) matches Ok(r) ==> r.len() > 0,
{
}

/// Decodes the escape sequences in a literal separator.
pub fn handle_escapes(s: &str) -> (r: Result<Vec<char>, Error>)
    ensures
        match r {
            Ok(v) => spec_unescape(s@) == Ok::<Seq<char>, ErrorView>(v@),
            Err(e) => spec_unescape(s@) == Err::<Seq<char>, ErrorView>(e@),
        },
{
    let n = s.unicode_len();
    let mut out: Vec<char> = Vec::new();
    let mut i: usize = 0;
    proof {
        assert(s@.skip(0) =~= s@);
        match spec_unescape(s@) {
            Ok(r) => {
                assert(Seq::<char>::empty() + r =~= r);
            },
            Err(_) => {},
        }
    }
    while i < n
        invariant
            i <= n,
            n == s@.len(),
            spec_unescape(s@) == (match spec_unescape(s@.skip(i as int)) {
                Ok(r) => Ok::<Seq<char>, ErrorView>(out@ + r),
                Err(e) => Err::<Seq<char>, ErrorView>(e),
            }),
        decreases n - i,
    {
        let ghost rem = s@.skip(i as int);
        let ghost out0 = out@;
        proof {
            assert(rem[0] == s@[i as int]);
        }
        let c = s.get_char(i);
        if c == '\\' {
            if i + 1 == n {
                return Err(Error::UnterminatedEscape);
            }
            proof {
                assert(rem[1] == s@[i + 1]);
            }
            let c1 = s.get_char(i + 1);
            if c1 == '\\' {
                out.push('\\');
            } else if c1 == 'n' {
                out.push('\n');
            } else if c1 == 't' {
                out.push('\t');
            } else if c1 == 'r' {
                out.push('\r');
            } else {
                return Err(Error::InvalidEscape(c1));
            }
            i += 2;
            proof {
                assert(rem.skip(2) =~= s@.skip(i as int));
                match spec_unescape(s@.skip(i as int)) {
                    Ok(r) => {
                        assert(out0 + (seq![esc_char(c1)] + r) =~= out@ + r);
                    },
                    Err(_) => {},
                }
            }
        } else {
            out.push(c);
            i += 1;
            proof {
                assert(rem.skip(1) =~= s@.skip(i as int));
                match spec_unescape(s@.skip(i as int)) {
                    Ok(r) => {
                        assert(out0 + (seq![c] + r) =~= out@ + r);
                    },
                    Err(_) => {},
                }
            }
        }
    }
    proof {
        assert(s@.skip(i as int) =~= Seq::<char>::empty());
        assert(out@ + Seq::<char>::empty() =~= out@);
    }
    Ok(out)
}

} // verus!
