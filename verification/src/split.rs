//! Multi-separator splitting: the tokenizer that the engine applies first
//! with the field separators and then with the key separators.  Splitting by
//! a list of separators splits by the first separator, then splits every
//! resulting token by the second, and so on, flattening as it goes.
use crate::search::{find_from, find_in_str, lemma_find_from};
use vstd::prelude::*;

verus! {

/// The tokens of `s` split by every occurrence of `sep`.  Splitting by a
/// separator that does not occur (or is empty) leaves `s` whole; occurrences
/// at the ends contribute empty tokens, as splitting conventionally does.
pub open spec fn split_seq(s: Seq<char>, sep: Seq<char>) -> Seq<Seq<char>>
    decreases s.len(),
    via split_seq_dec
{
    if sep.len() == 0 {
        seq![s]
    } else {
        match find_from(s, sep, 0) {
            None => seq![s],
            Some(j) => seq![s.subrange(0, j)] + split_seq(
                s.subrange(j + sep.len(), s.len() as int),
                sep,
            ),
        }
    }
}

#[via_fn]
proof fn split_seq_dec(s: Seq<char>, sep: Seq<char>) {
    if sep.len() > 0 {
        lemma_find_from(s, sep, 0);
    }
}

/// Every token of `tokens` split by `sep`, flattened in order.
pub open spec fn split_all(tokens: Seq<Seq<char>>, sep: Seq<char>) -> Seq<Seq<char>>
    decreases tokens.len(),
{
    if tokens.len() == 0 {
        Seq::empty()
    } else {
        split_seq(tokens[0], sep) + split_all(tokens.skip(1), sep)
    }
}

/// `tokens` split by each separator of `seps` in turn, flattening after
/// every pass.
pub open spec fn multi_split_seq(tokens: Seq<Seq<char>>, seps: Seq<Seq<char>>) -> Seq<Seq<char>>
    decreases seps.len(),
{
    if seps.len() == 0 {
        tokens
    } else {
        multi_split_seq(split_all(tokens, seps[0]), seps.skip(1))
    }
}

/// Splits one token by every occurrence of one separator.
#[verifier::loop_isolation(true)]
pub fn split_one<'a>(tok: &'a str, sep: &Vec<char>) -> (r: Vec<&'a str>)
    requires
        sep@.len() > 0,
    ensures
        r.deep_view() == split_seq(tok@, sep@),
{
    let mut out: Vec<&'a str> = Vec::new();
    let mut rest: &'a str = tok;
    proof {
        assert(Seq::<Seq<char>>::empty() + split_seq(rest@, sep@) =~= split_seq(rest@, sep@));
    }
    loop
        invariant_except_break
            sep@.len() > 0,
            split_seq(tok@, sep@) == out.deep_view() + split_seq(rest@, sep@),
        ensures
            out.deep_view() == split_seq(tok@, sep@),
        decreases rest@.len(),
    {
        let ghost o0 = out.deep_view();
        let n = rest.unicode_len();
        match find_in_str(rest, sep, 0) {
            None => {
                out.push(rest);
                proof {
                    assert(out.deep_view() =~= o0.push(rest@));
                    assert(o0 + seq![rest@] =~= out.deep_view());
                }
                break;
            },
            Some(j) => {
                proof {
                    lemma_find_from(rest@, sep@, 0);
                }
                let piece = rest.substring_char(0, j);
                let ghost r0 = rest@;
                out.push(piece);
                rest = rest.substring_char(j + sep.len(), n);
                proof {
                    assert(out.deep_view() =~= o0.push(piece@));
                    assert(o0 + (seq![r0.subrange(0, j as int)] + split_seq(rest@, sep@))
                        =~= out.deep_view() + split_seq(rest@, sep@));
                }
            },
        }
    }
    out
}

/// Splits `input` by every separator of `seps` in turn.
pub fn multi_split<'a>(input: &'a str, seps: &Vec<Vec<char>>) -> (r: Vec<&'a str>)
    requires
        crate::order::all_nonempty(seps.deep_view()),
    ensures
        r.deep_view() == multi_split_seq(seq![input@], seps.deep_view()),
{
    let ghost sv = seps.deep_view();
    let mut toks: Vec<&'a str> = Vec::new();
    toks.push(input);
    proof {
        assert(toks.deep_view() =~= seq![input@]);
        assert(sv.skip(0) =~= sv);
    }
    let mut k: usize = 0;
    while k < seps.len()
        invariant
            k <= sv.len(),
            multi_split_seq(toks.deep_view(), sv.skip(k as int)) == multi_split_seq(
                seq![input@],
                sv,
            ),
        decreases sv.len() - k,
    {
        let sep = &seps[k];
        proof {
            assert(seps@[k as int]@ == sv[k as int]);
        }
        let ghost tv = toks.deep_view();
        let mut next: Vec<&'a str> = Vec::new();
        let mut t: usize = 0;
        proof {
            assert(tv.skip(0) =~= tv);
            assert(Seq::<Seq<char>>::empty() + split_all(tv, sv[k as int]) =~= split_all(
                tv,
                sv[k as int],
            ));
        }
        while t < toks.len()
            invariant
                t <= tv.len(),
                tv == toks.deep_view(),
                sep@ == sv[k as int],
                0 <= k < sv.len(),
                next.deep_view() + split_all(tv.skip(t as int), sv[k as int]) == split_all(
                    tv,
                    sv[k as int],
                ),
            decreases tv.len() - t,
        {
            let tok: &'a str = toks[t];
            proof {
                assert(toks@[t as int]@ == tv[t as int]);
                assert(tv.skip(t as int)[0] == tv[t as int]);
                assert(tv.skip(t as int).skip(1) =~= tv.skip(t + 1));
            }
            let ghost n0 = next.deep_view();
            let mut parts = split_one(tok, sep);
            next.append(&mut parts);
            proof {
                assert forall|i: int| 0 <= i < next.deep_view().len() implies next.deep_view()[i]
                    == (n0 + split_seq(tv[t as int], sv[k as int]))[i] by {}
                assert(next.deep_view() =~= n0 + split_seq(tv[t as int], sv[k as int]));
                assert((n0 + split_seq(tv[t as int], sv[k as int])) + split_all(
                    tv.skip(t + 1),
                    sv[k as int],
                ) =~= n0 + (split_seq(tv[t as int], sv[k as int]) + split_all(
                    tv.skip(t + 1),
                    sv[k as int],
                )));
            }
            t += 1;
        }
        proof {
            assert(tv.skip(tv.len() as int) =~= Seq::<Seq<char>>::empty());
            assert(next.deep_view() + Seq::<Seq<char>>::empty() =~= next.deep_view());
            assert(sv.skip(k as int)[0] == sv[k as int]);
            assert(sv.skip(k as int).skip(1) =~= sv.skip(k + 1));
        }
        toks = next;
        k += 1;
    }
    proof {
        assert(sv.skip(sv.len() as int) =~= Seq::<Seq<char>>::empty());
    }
    toks
}

} // verus!
