//! The mapping that a run produces: string keys to string values, built by
//! inserting the key/value pairs in scan order, where a repeated key keeps
//! the value inserted last.
use crate::search::str_eq;
use vstd::prelude::*;

verus! {

/// The mapping that inserting `pairs` in order builds: a later pair with the
/// same key overwrites an earlier one.
pub open spec fn map_of(pairs: Seq<(Seq<char>, Seq<char>)>) -> Map<Seq<char>, Seq<char>>
    decreases pairs.len(),
{
    if pairs.len() == 0 {
        Map::empty()
    } else {
        map_of(pairs.drop_last()).insert(pairs.last().0, pairs.last().1)
    }
}

/// The keys of the built mapping are exactly the keys of the pairs.
pub proof fn lemma_map_of_keys(pairs: Seq<(Seq<char>, Seq<char>)>)
    ensures
        forall|k: Seq<char>|
            map_of(pairs).contains_key(k) <==> exists|i: int|
                0 <= i < pairs.len() && (#[trigger] pairs[i]).0 == k,
    decreases pairs.len(),
{
    broadcast use vstd::map::group_map_axioms;

    if pairs.len() > 0 {
        lemma_map_of_keys(pairs.drop_last());
        assert forall|k: Seq<char>| map_of(pairs).contains_key(k) implies exists|i: int|
            0 <= i < pairs.len() && (#[trigger] pairs[i]).0 == k by {
            if k == pairs.last().0 {
                assert(pairs[pairs.len() - 1].0 == k);
            } else {
                assert(map_of(pairs.drop_last()).contains_key(k));
                let i = choose|i: int|
                    0 <= i < pairs.drop_last().len() && (#[trigger] pairs.drop_last()[i]).0 == k;
                assert(pairs.drop_last()[i] == pairs[i]);
                assert(pairs[i].0 == k);
            }
        }
        assert forall|k: Seq<char>|
            (exists|i: int| 0 <= i < pairs.len() && (#[trigger] pairs[i]).0 == k) implies map_of(
            pairs,
        ).contains_key(k) by {
            let i = choose|i: int| 0 <= i < pairs.len() && (#[trigger] pairs[i]).0 == k;
            if i < pairs.len() - 1 {
                assert(pairs.drop_last()[i].0 == k);
                assert(map_of(pairs.drop_last()).contains_key(k));
                assert(map_of(pairs) == map_of(pairs.drop_last()).insert(
                    pairs.last().0,
                    pairs.last().1,
                ));
            } else {
                assert(k == pairs.last().0);
            }
        }
    }
}

/// Last write wins: when position `j` holds the last pair whose key is `k`,
/// the built mapping maps `k` to that pair's value.  This is the guarantee
/// behind duplicate keys in an input line: the key/value pair found later in
/// scan order is the one that remains.
pub proof fn lemma_last_write_wins(pairs: Seq<(Seq<char>, Seq<char>)>, j: int, k: Seq<char>)
    requires
        0 <= j < pairs.len(),
        pairs[j].0 == k,
        forall|l: int| j < l < pairs.len() ==> (#[trigger] pairs[l]).0 != k,
    ensures
        map_of(pairs).contains_key(k),
        map_of(pairs)[k] == pairs[j].1,
    decreases pairs.len(),
{
    if j == pairs.len() - 1 {
    } else {
        assert(pairs.drop_last()[j].0 == k);
        assert forall|l: int| j < l < pairs.drop_last().len() implies (#[trigger] pairs.drop_last()[l]).0
            != k by {
            assert(pairs[l].0 != k);
        }
        lemma_last_write_wins(pairs.drop_last(), j, k);
        assert(pairs.last().0 != k);
    }
}

/// Overwriting the pair at position `j` of a duplicate-free pair list builds
/// the same mapping as inserting the new value on top.
pub proof fn lemma_map_of_update(pairs: Seq<(Seq<char>, Seq<char>)>, j: int, v: Seq<char>)
    requires
        0 <= j < pairs.len(),
        forall|a: int, b: int|
            0 <= a < b < pairs.len() ==> (#[trigger] pairs[a]).0 != (#[trigger] pairs[b]).0,
    ensures
        map_of(pairs.update(j, (pairs[j].0, v))) == map_of(pairs).insert(pairs[j].0, v),
    decreases pairs.len(),
{
    let up = pairs.update(j, (pairs[j].0, v));
    if j == pairs.len() - 1 {
        assert(up.drop_last() =~= pairs.drop_last());
        assert(map_of(up) =~= map_of(pairs).insert(pairs[j].0, v));
    } else {
        assert(pairs.drop_last()[j] == pairs[j]);
        lemma_map_of_update(pairs.drop_last(), j, v);
        assert(up.drop_last() =~= pairs.drop_last().update(j, (pairs[j].0, v)));
        assert(up.last() == pairs.last());
        assert(pairs[j].0 != pairs.last().0);
        assert(map_of(up) =~= map_of(pairs).insert(pairs[j].0, v));
    }
}

/// A duplicate-free pair list builds a mapping with one entry per pair.
pub proof fn lemma_map_of_len(pairs: Seq<(Seq<char>, Seq<char>)>)
    requires
        forall|a: int, b: int|
            0 <= a < b < pairs.len() ==> (#[trigger] pairs[a]).0 != (#[trigger] pairs[b]).0,
    ensures
        map_of(pairs).dom().finite(),
        map_of(pairs).len() == pairs.len(),
    decreases pairs.len(),
{
    broadcast use vstd::set::group_set_axioms;

    if pairs.len() == 0 {
        assert(map_of(pairs).dom() =~= Set::<Seq<char>>::empty());
    } else {
        lemma_map_of_len(pairs.drop_last());
        lemma_map_of_keys(pairs.drop_last());
        assert forall|i: int| 0 <= i < pairs.drop_last().len() implies (
        #[trigger] pairs.drop_last()[i]).0 != pairs.last().0 by {
            assert(pairs[i].0 != pairs[pairs.len() - 1].0);
        }
        assert(!map_of(pairs.drop_last()).contains_key(pairs.last().0));
        assert(map_of(pairs).dom() =~= map_of(pairs.drop_last()).dom().insert(pairs.last().0));
    }
}

/// The mapping of string keys to string values that one run produces.
pub struct ResultMap<'a> {
    entries: Vec<(&'a str, &'a str)>,
}

impl<'a> View for ResultMap<'a> {
    type V = Map<Seq<char>, Seq<char>>;

    closed spec fn view(&self) -> Map<Seq<char>, Seq<char>> {
        map_of(self.entries.deep_view())
    }
}

impl<'a> ResultMap<'a> {
    /// The entries carry pairwise distinct keys.
    pub closed spec fn wf(&self) -> bool {
        forall|a: int, b: int|
            0 <= a < b < self.entries.deep_view().len() ==> (#[trigger] self.entries.deep_view()[a]).0
                != (#[trigger] self.entries.deep_view()[b]).0
    }

    /// An empty mapping.
    pub fn new() -> (r: ResultMap<'a>)
        ensures
            r@ == Map::<Seq<char>, Seq<char>>::empty(),
            r.wf(),
            r@.len() == 0,
    {
        ResultMap { entries: Vec::new() }
    }

    /// The number of keys.
    pub fn len(&self) -> (r: usize)
        requires
            self.wf(),
        ensures
            r == self@.len(),
    {
        proof {
            lemma_map_of_len(self.entries.deep_view());
        }
        self.entries.len()
    }

    /// Inserts a pair; an existing entry with an equal key is overwritten.
    pub fn insert(&mut self, k: &'a str, v: &'a str)
        requires
            old(self).wf(),
        ensures
            final(self)@ == old(self)@.insert(k@, v@),
            final(self).wf(),
    {
        let ghost ev = self.entries.deep_view();
        let mut i: usize = 0;
        while i < self.entries.len()
            invariant
                i <= ev.len(),
                ev == self.entries.deep_view(),
                forall|a: int| 0 <= a < i ==> (#[trigger] ev[a]).0 != k@,
            decreases ev.len() - i,
        {
            let e: (&'a str, &'a str) = self.entries[i];
            proof {
                assert(self.entries@[i as int].deep_view() == ev[i as int]);
            }
            if str_eq(e.0, k) {
                let ghost epre = self.entries@;
                self.entries[i] = (e.0, v);
                proof {
                    assert forall|a: int| 0 <= a < self.entries.deep_view().len() implies
                        self.entries.deep_view()[a] == ev.update(i as int, (k@, v@))[a] by {
                        if a != i {
                            assert(self.entries@[a] == epre[a]);
                        }
                    }
                    assert(self.entries.deep_view() =~= ev.update(i as int, (k@, v@)));
                    assert(ev.update(i as int, (k@, v@)) =~= ev.update(i as int, (ev[i as int].0, v@)));
                    lemma_map_of_update(ev, i as int, v@);
                }
                return ;
            }
            i += 1;
        }
        let ghost epre = self.entries@;
        self.entries.push((k, v));
        proof {
            assert forall|a: int| 0 <= a < self.entries.deep_view().len() implies
                self.entries.deep_view()[a] == ev.push((k@, v@))[a] by {
                if a < ev.len() {
                    assert(self.entries@[a] == epre[a]);
                }
            }
            assert(self.entries.deep_view() =~= ev.push((k@, v@)));
            assert(ev.push((k@, v@)).drop_last() =~= ev);
        }
    }

    /// The entries, in insertion order: the pairs whose keys are pairwise
    /// distinct and which, inserted in order, build exactly this mapping.
    pub fn entries(&self) -> (r: Vec<(&'a str, &'a str)>)
        requires
            self.wf(),
        ensures
            map_of(r.deep_view()) == self@,
            r.deep_view().len() == self@.len(),
    {
        let ghost ev = self.entries.deep_view();
        let mut r: Vec<(&'a str, &'a str)> = Vec::new();
        let mut i: usize = 0;
        while i < self.entries.len()
            invariant
                i <= ev.len(),
                ev == self.entries.deep_view(),
                r@ == self.entries@.take(i as int),
            decreases ev.len() - i,
        {
            r.push(self.entries[i]);
            proof {
                assert(self.entries@.take(i as int).push(self.entries@[i as int])
                    =~= self.entries@.take(i + 1));
            }
            i += 1;
        }
        proof {
            assert(self.entries@.take(self.entries@.len() as int) =~= self.entries@);
            assert(r@ == self.entries@);
            assert forall|a: int| 0 <= a < r.deep_view().len() implies r.deep_view()[a]
                == ev[a] by {}
            assert(r.deep_view() =~= ev);
            lemma_map_of_len(ev);
        }
        r
    }

    /// Looks a key up.
    pub fn get(&self, k: &str) -> (r: Option<&'a str>)
        requires
            self.wf(),
        ensures
            match r {
                Some(v) => self@.contains_key(k@) && self@[k@] == v@,
                None => !self@.contains_key(k@),
            },
    {
        let ghost ev = self.entries.deep_view();
        let mut i: usize = 0;
        while i < self.entries.len()
            invariant
                i <= ev.len(),
                ev == self.entries.deep_view(),
                forall|a: int| 0 <= a < i ==> (#[trigger] ev[a]).0 != k@,
            decreases ev.len() - i,
        {
            let e: (&'a str, &'a str) = self.entries[i];
            proof {
                assert(self.entries@[i as int].deep_view() == ev[i as int]);
            }
            if str_eq(e.0, k) {
                proof {
                    assert forall|l: int| i < l < ev.len() implies (#[trigger] ev[l]).0 != k@ by {}
                    lemma_last_write_wins(ev, i as int, k@);
                }
                return Some(e.1);
            }
            i += 1;
        }
        proof {
            lemma_map_of_keys(ev);
        }
        None
    }
}

} // verus!
