//! Lexicographic ordering of separators, insertion sort and removal of
//! duplicates.  A compiled pattern stores each separator list sorted and
//! deduplicated; the order never changes what a split produces, it only
//! makes the compiled form canonical.
use vstd::prelude::*;

verus! {

/// Lexicographic order on character sequences, by scalar value.
pub open spec fn lex_lt(a: Seq<char>, b: Seq<char>) -> bool
    decreases a.len(),
{
    if b.len() == 0 {
        false
    } else if a.len() == 0 {
        true
    } else if a[0] != b[0] {
        (a[0] as u32) < (b[0] as u32)
    } else {
        lex_lt(a.skip(1), b.skip(1))
    }
}

/// `x` inserted in front of the first element it does not come after.
pub open spec fn insert_sorted(x: Seq<char>, l: Seq<Seq<char>>) -> Seq<Seq<char>>
    decreases l.len(),
{
    if l.len() == 0 {
        seq![x]
    } else if lex_lt(l[0], x) {
        seq![l[0]] + insert_sorted(x, l.skip(1))
    } else {
        seq![x] + l
    }
}

/// Insertion sort under [`lex_lt`].
pub open spec fn sort_seps(l: Seq<Seq<char>>) -> Seq<Seq<char>>
    decreases l.len(),
{
    if l.len() == 0 {
        Seq::empty()
    } else {
        insert_sorted(l[0], sort_seps(l.skip(1)))
    }
}

/// A sorted list with every run of equal entries reduced to one.
pub open spec fn dedup_sorted(l: Seq<Seq<char>>) -> Seq<Seq<char>>
    decreases l.len(),
{
    if l.len() <= 1 {
        l
    } else if l[0] == l[1] {
        dedup_sorted(l.skip(1))
    } else {
        seq![l[0]] + dedup_sorted(l.skip(1))
    }
}

/// Every entry of the list is a non-empty sequence.
pub open spec fn all_nonempty(l: Seq<Seq<char>>) -> bool {
    forall|i: int| 0 <= i < l.len() ==> #[trigger] l[i].len() > 0
}

/// Inserting a non-empty entry keeps every entry non-empty.
pub proof fn lemma_insert_sorted_nonempty(x: Seq<char>, l: Seq<Seq<char>>)
    requires
        x.len() > 0,
        all_nonempty(l),
    ensures
        all_nonempty(insert_sorted(x, l)),
    decreases l.len(),
{
    if l.len() == 0 {
    } else if lex_lt(l[0], x) {
        assert(all_nonempty(l.skip(1)));
        lemma_insert_sorted_nonempty(x, l.skip(1));
        let r = insert_sorted(x, l);
        assert forall|i: int| 0 <= i < r.len() implies #[trigger] r[i].len() > 0 by {
            if i > 0 {
                assert(r[i] == insert_sorted(x, l.skip(1))[i - 1]);
            }
        }
    }
}

/// Sorting keeps every entry non-empty.
pub proof fn lemma_sort_seps_nonempty(l: Seq<Seq<char>>)
    requires
        all_nonempty(l),
    ensures
        all_nonempty(sort_seps(l)),
    decreases l.len(),
{
    if l.len() > 0 {
        assert(all_nonempty(l.skip(1)));
        lemma_sort_seps_nonempty(l.skip(1));
        lemma_insert_sorted_nonempty(l[0], sort_seps(l.skip(1)));
    }
}

/// Deduplicating keeps every entry non-empty.
pub proof fn lemma_dedup_sorted_nonempty(l: Seq<Seq<char>>)
    requires
        all_nonempty(l),
    ensures
        all_nonempty(dedup_sorted(l)),
    decreases l.len(),
{
    if l.len() <= 1 {
    } else {
        assert(all_nonempty(l.skip(1)));
        lemma_dedup_sorted_nonempty(l.skip(1));
        if l[0] != l[1] {
            let r = dedup_sorted(l);
            assert forall|i: int| 0 <= i < r.len() implies #[trigger] r[i].len() > 0 by {
                if i > 0 {
                    assert(r[i] == dedup_sorted(l.skip(1))[i - 1]);
                }
            }
        }
    }
}

/// Inserting grows the list by one entry.
pub proof fn lemma_insert_sorted_len(x: Seq<char>, l: Seq<Seq<char>>)
    ensures
        insert_sorted(x, l).len() == l.len() + 1,
    decreases l.len(),
{
    if l.len() > 0 && lex_lt(l[0], x) {
        lemma_insert_sorted_len(x, l.skip(1));
    }
}

/// Sorting keeps the number of entries.
pub proof fn lemma_sort_seps_len(l: Seq<Seq<char>>)
    ensures
        sort_seps(l).len() == l.len(),
    decreases l.len(),
{
    if l.len() > 0 {
        lemma_sort_seps_len(l.skip(1));
        lemma_insert_sorted_len(l[0], sort_seps(l.skip(1)));
    }
}

/// Deduplicating a non-empty list leaves at least one entry.
pub proof fn lemma_dedup_sorted_len(l: Seq<Seq<char>>)
    ensures
        l.len() > 0 ==> dedup_sorted(l).len() > 0,
    decreases l.len(),
{
    if l.len() > 1 {
        lemma_dedup_sorted_len(l.skip(1));
    }
}

/// Is `a` lexicographically before `b`?
pub fn lex_lt_vec(a: &Vec<char>, b: &Vec<char>) -> (r: bool)
    ensures
        r == lex_lt(a@, b@),
{
    proof {
        assert(a@.skip(0) =~= a@);
        assert(b@.skip(0) =~= b@);
    }
    let mut i: usize = 0;
    loop
        invariant
            i <= a@.len(),
            i <= b@.len(),
            lex_lt(a@, b@) == lex_lt(a@.skip(i as int), b@.skip(i as int)),
        decreases a@.len() - i,
    {
        if i == b.len() {
            return false;
        }
        if i == a.len() {
            return true;
        }
        let ca = a[i];
        let cb = b[i];
        proof {
            assert(a@.skip(i as int)[0] == a@[i as int]);
            assert(b@.skip(i as int)[0] == b@[i as int]);
        }
        if ca != cb {
            return (ca as u32) < (cb as u32);
        }
        proof {
            assert(a@.skip(i as int).skip(1) =~= a@.skip(i + 1));
            assert(b@.skip(i as int).skip(1) =~= b@.skip(i + 1));
        }
        i += 1;
    }
}

/// Inserts `x` into the sorted list `l`.
pub fn insert_sorted_vec(x: Vec<char>, l: &mut Vec<Vec<char>>)
    ensures
        final(l).deep_view() == insert_sorted(x@, old(l).deep_view()),
{
    let ghost l0 = l.deep_view();
    proof {
        assert(l0.take(0) =~= Seq::<Seq<char>>::empty());
        assert(l0.skip(0) =~= l0);
        assert(Seq::<Seq<char>>::empty() + insert_sorted(x@, l0) =~= insert_sorted(x@, l0));
    }
    let mut k: usize = 0;
    loop
        invariant
            k <= l@.len(),
            l.deep_view() == l0,
            insert_sorted(x@, l0) == l0.take(k as int) + insert_sorted(x@, l0.skip(k as int)),
        decreases l@.len() - k,
    {
        if k == l.len() {
            break;
        }
        if !lex_lt_vec(&l[k], &x) {
            break;
        }
        proof {
            assert(l@[k as int]@ == l0[k as int]);
            assert(l0.skip(k as int)[0] == l0[k as int]);
            assert(l0.skip(k as int).skip(1) =~= l0.skip(k + 1));
            assert(l0.take(k as int) + (seq![l0[k as int]] + insert_sorted(x@, l0.skip(k + 1)))
                =~= l0.take(k + 1) + insert_sorted(x@, l0.skip(k + 1)));
        }
        k += 1;
    }
    proof {
        if (k as int) < l0.len() {
            assert(l@[k as int]@ == l0[k as int]);
            assert(l0.skip(k as int)[0] == l0[k as int]);
        }
        assert(insert_sorted(x@, l0) =~= l0.take(k as int) + seq![x@] + l0.skip(k as int));
    }
    let ghost lpre = l@;
    l.insert(k, x);
    proof {
        lpre.insert_ensures(k as int, x);
        let target = l0.take(k as int) + seq![x@] + l0.skip(k as int);
        assert forall|i: int| 0 <= i < l@.len() implies l.deep_view()[i] == target[i] by {
            if i < k {
                assert(l@[i] == lpre[i]);
            } else if i == k {
                assert(l@[i] == x);
            } else {
                assert(l@[i] == lpre[i - 1]);
            }
        }
        assert(l.deep_view() =~= target);
    }
}

/// Sorts a separator list lexicographically.
pub fn sort_vec(l: Vec<Vec<char>>) -> (r: Vec<Vec<char>>)
    ensures
        r.deep_view() == sort_seps(l.deep_view()),
{
    let ghost l0 = l.deep_view();
    let mut l = l;
    let mut r: Vec<Vec<char>> = Vec::new();
    proof {
        assert(l0.skip(l0.len() as int) =~= Seq::<Seq<char>>::empty());
        assert(l.deep_view() =~= l0.take(l@.len() as int));
    }
    loop
        invariant
            l@.len() <= l0.len(),
            l.deep_view() == l0.take(l@.len() as int),
            r.deep_view() == sort_seps(l0.skip(l@.len() as int)),
        decreases l@.len(),
    {
        let ghost k = l@.len() as int;
        let ghost lpre = l@;
        match l.pop() {
            None => {
                proof {
                    assert(l0.skip(0) =~= l0);
                }
                break;
            },
            Some(x) => {
                proof {
                    assert(x@ == l0.take(k)[k - 1]);
                    assert(l@ =~= lpre.take(k - 1));
                    assert forall|i: int| 0 <= i < k - 1 implies l.deep_view()[i] == l0.take(
                        k - 1,
                    )[i] by {
                        assert(l@[i] == lpre[i]);
                    }
                    assert(l.deep_view() =~= l0.take(k - 1));
                    assert(l0.skip(k - 1)[0] == l0[k - 1]);
                    assert(l0.skip(k - 1).skip(1) =~= l0.skip(k));
                }
                insert_sorted_vec(x, &mut r);
            },
        }
    }
    r
}

/// Removes the duplicates of a sorted separator list.
pub fn dedup_vec(l: Vec<Vec<char>>) -> (r: Vec<Vec<char>>)
    ensures
        r.deep_view() == dedup_sorted(l.deep_view()),
{
    let ghost l0 = l.deep_view();
    let mut l = l;
    let mut out: Vec<Vec<char>> = Vec::new();
    proof {
        assert(Seq::<Seq<char>>::empty() + dedup_sorted(l0) =~= dedup_sorted(l0));
    }
    loop
        invariant
            dedup_sorted(l0) == out.deep_view() + dedup_sorted(l.deep_view()),
        decreases l@.len(),
    {
        if l.len() == 0 {
            proof {
                assert(out.deep_view() + dedup_sorted(l.deep_view()) =~= out.deep_view());
            }
            break;
        }
        let ghost lv = l.deep_view();
        let ghost lpre = l@;
        let x = l.remove(0);
        proof {
            lpre.remove_ensures(0);
            assert(x@ == lv[0]);
            assert forall|i: int| 0 <= i < l@.len() implies l.deep_view()[i] == lv.skip(1)[i] by {
                assert(l@[i] == lpre[i + 1]);
            }
            assert(l.deep_view() =~= lv.skip(1));
        }
        if l.len() > 0 && crate::search::chars_eq(&x, &l[0]) {
            proof {
                assert(l@[0]@ == l.deep_view()[0]);
                assert(lv[0] == lv[1]);
            }
        } else {
            let ghost o0 = out.deep_view();
            proof {
                if l@.len() > 0 {
                    assert(l@[0]@ == l.deep_view()[0]);
                    assert(lv[0] != lv[1]);
                } else {
                    assert(lv =~= seq![lv[0]]);
                }
            }
            out.push(x);
            proof {
                assert(out.deep_view() =~= o0.push(lv[0]));
                if lv.len() > 1 {
                    assert(o0 + (seq![lv[0]] + dedup_sorted(lv.skip(1))) =~= out.deep_view()
                        + dedup_sorted(lv.skip(1)));
                } else {
                    assert(l.deep_view() =~= Seq::<Seq<char>>::empty());
                    assert(o0 + dedup_sorted(lv) =~= out.deep_view() + dedup_sorted(
                        l.deep_view(),
                    ));
                }
            }
        }
    }
    out
}

} // verus!
