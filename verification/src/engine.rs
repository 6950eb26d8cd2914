//! What running a pattern over an input line means: the input is split into
//! field tokens by the field separators, each field token is split by the
//! key separators, and exactly the field tokens that fall apart into two
//! sub-tokens contribute a key/value pair.
use crate::pattern::PatternView;
use crate::results::{lemma_last_write_wins, map_of};
use crate::search::contains_seq;
use crate::split::{multi_split_seq, split_all, split_seq};
use vstd::prelude::*;

verus! {

/// The key/value pairs that the field tokens contribute, in scan order: a
/// field token counts exactly when splitting it by the key separators yields
/// two sub-tokens; any other field token is dropped.
pub open spec fn spec_pairs(fields: Seq<Seq<char>>, kseps: Seq<Seq<char>>) -> Seq<
    (Seq<char>, Seq<char>),
>
    decreases fields.len(),
{
    if fields.len() == 0 {
        Seq::empty()
    } else {
        let kv = multi_split_seq(seq![fields[0]], kseps);
        let rest = spec_pairs(fields.skip(1), kseps);
        if kv.len() == 2 {
            seq![(kv[0], kv[1])] + rest
        } else {
            rest
        }
    }
}

/// The pairs that running pattern `p` over `input` collects, in scan order.
pub open spec fn run_pairs(p: PatternView, input: Seq<char>) -> Seq<(Seq<char>, Seq<char>)> {
    spec_pairs(multi_split_seq(seq![input], p.field_seperators), p.key_seperators)
}

/// What a run returns: absent when no field token contributed a pair, else
/// the mapping built from the pairs in scan order, a later duplicate key
/// overwriting an earlier one.
pub open spec fn spec_run(p: PatternView, input: Seq<char>) -> Option<Map<Seq<char>, Seq<char>>> {
    if run_pairs(p, input).len() == 0 {
        None
    } else {
        Some(map_of(run_pairs(p, input)))
    }
}

/// Splitting by a separator that does not occur leaves the string whole.
pub proof fn lemma_split_whole(s: Seq<char>, sep: Seq<char>)
    requires
        !contains_seq(s, sep),
    ensures
        split_seq(s, sep) == seq![s],
{
}

/// Splitting a string by separators none of which occurs in it leaves the
/// string whole.
pub proof fn lemma_multi_singleton(s: Seq<char>, seps: Seq<Seq<char>>)
    requires
        forall|i: int| 0 <= i < seps.len() ==> !contains_seq(s, #[trigger] seps[i]),
    ensures
        multi_split_seq(seq![s], seps) == seq![s],
    decreases seps.len(),
{
    if seps.len() > 0 {
        lemma_split_whole(s, seps[0]);
        assert(seq![s][0] == s);
        assert(seq![s].skip(1) =~= Seq::<Seq<char>>::empty());
        assert(split_all(Seq::<Seq<char>>::empty(), seps[0]) == Seq::<Seq<char>>::empty());
        assert(seq![s] + Seq::<Seq<char>>::empty() =~= seq![s]);
        assert(split_all(seq![s], seps[0]) == seq![s]);
        assert forall|i: int| 0 <= i < seps.skip(1).len() implies !contains_seq(
            s,
            #[trigger] seps.skip(1)[i],
        ) by {
            assert(seps.skip(1)[i] == seps[i + 1]);
        }
        lemma_multi_singleton(s, seps.skip(1));
    }
}

/// No-match absence: a run over an input in which none of the configured
/// separators occurs returns nothing at all.
pub proof fn lemma_no_separator_absent(p: PatternView, input: Seq<char>)
    requires
        forall|i: int|
            0 <= i < p.field_seperators.len() ==> !contains_seq(
                input,
                #[trigger] p.field_seperators[i],
            ),
        forall|i: int|
            0 <= i < p.key_seperators.len() ==> !contains_seq(
                input,
                #[trigger] p.key_seperators[i],
            ),
    ensures
        spec_run(p, input) is None,
{
    lemma_multi_singleton(input, p.field_seperators);
    lemma_multi_singleton(input, p.key_seperators);
    let kv = multi_split_seq(seq![input], p.key_seperators);
    assert(kv.len() == 1);
    assert(seq![input][0] == input);
    assert(seq![input].skip(1) =~= Seq::<Seq<char>>::empty());
    assert(spec_pairs(Seq::<Seq<char>>::empty(), p.key_seperators) == Seq::<(
        Seq<char>,
        Seq<char>,
    )>::empty());
    assert(run_pairs(p, input).len() == 0);
}

/// Duplicate-key overwrite: when position `j` holds the last pair of a run
/// that carries its key, the mapping the run returns maps that key to that
/// pair's value — the pair found later in scan order wins.
pub proof fn lemma_run_duplicate_key(p: PatternView, input: Seq<char>, j: int)
    requires
        0 <= j < run_pairs(p, input).len(),
        forall|l: int|
            j < l < run_pairs(p, input).len() ==> (#[trigger] run_pairs(p, input)[l]).0
                != run_pairs(p, input)[j].0,
    ensures
        spec_run(p, input) is Some,
        spec_run(p, input)->Some_0.contains_key(run_pairs(p, input)[j].0),
        spec_run(p, input)->Some_0[run_pairs(p, input)[j].0] == run_pairs(p, input)[j].1,
{
    lemma_last_write_wins(run_pairs(p, input), j, run_pairs(p, input)[j].0);
}

} // verus!

