//! The pattern compiler: turns a template string holding `%{key}` and
//! `%{val}` markers into a [`Pattern`], two sorted, deduplicated lists of
//! literal separators, and rejects templates whose separators would make
//! splitting ambiguous.
use crate::engine::{spec_pairs, spec_run};
use crate::results::{map_of, ResultMap};
use crate::split::multi_split;
use crate::error::{chars_to_string, Error, ErrorView};
use crate::escape::{lemma_unescape_nonempty, handle_escapes, spec_unescape};
use crate::order::{
    all_nonempty, dedup_sorted, dedup_vec, lemma_dedup_sorted_len, lemma_dedup_sorted_nonempty,
    lemma_sort_seps_len, lemma_sort_seps_nonempty, sort_seps, sort_vec,
};
use crate::search::{
    chars_eq, contains_chars, contains_seq, find_from, find_in_str, lemma_find_from, match_at_str,
    starts_at,
};
use vstd::prelude::*;

verus! {

/// The `%{key}` marker.
pub open spec fn key_marker() -> Seq<char> {
    seq!['%', '{', 'k', 'e', 'y', '}']
}

/// The `%{val}` marker.
pub open spec fn val_marker() -> Seq<char> {
    seq!['%', '{', 'v', 'a', 'l', '}']
}

/// The mathematical value of a [`Pattern`]: its two separator lists.
pub struct PatternView {
    /// Splits the input into field tokens.
    pub field_seperators: Seq<Seq<char>>,
    /// Splits a field token into a key token and a value token.
    pub key_seperators: Seq<Seq<char>>,
}

/// No entry is empty, and no entry is a substring of a different entry of
/// the same list.
pub open spec fn list_wf(l: Seq<Seq<char>>) -> bool {
    all_nonempty(l) && (forall|i: int, j: int|
        0 <= i < l.len() && 0 <= j < l.len() && l[j] != l[i] ==> !(#[trigger] contains_seq(
            l[j],
            l[i],
        )))
}

/// No entry of `a` occurs as a substring of an entry of `b`.
pub open spec fn cross_free(a: Seq<Seq<char>>, b: Seq<Seq<char>>) -> bool {
    forall|i: int, j: int|
        0 <= i < a.len() && 0 <= j < b.len() ==> !(#[trigger] contains_seq(b[j], a[i]))
}

impl PatternView {
    /// Both lists are non-empty, hold no empty separator, and no separator
    /// is a substring of another, in its own list or across the lists.
    pub open spec fn wf(self) -> bool {
        &&& self.field_seperators.len() > 0
        &&& self.key_seperators.len() > 0
        &&& list_wf(self.field_seperators)
        &&& list_wf(self.key_seperators)
        &&& cross_free(self.field_seperators, self.key_seperators)
        &&& cross_free(self.key_seperators, self.field_seperators)
    }
}

/// One left-to-right scan of the template suffix `rem`, which begins `pos`
/// characters into the template: the raw field and key separator literals it
/// yields, in scan order and already unescaped, or the first error found.
pub open spec fn spec_scan(rem: Seq<char>, pos: int) -> Result<
    (Seq<Seq<char>>, Seq<Seq<char>>),
    ErrorView,
>
    decreases rem.len(),
    via spec_scan_dec
{
    if starts_at(rem, 0, key_marker()) {
        let rem2 = rem.skip(6);
        match find_from(rem2, val_marker(), 0) {
            None => Err(ErrorView::InvalidPattern((pos + 6) as nat)),
            Some(j) => match spec_unescape(rem2.subrange(0, j)) {
                Err(e) => Err(e),
                Ok(lit) => match spec_scan(rem2.skip(j + 6), pos + 12 + j) {
                    Err(e) => Err(e),
                    Ok(r) => Ok(
                        (
                            r.0,
                            if j > 0 {
                                seq![lit] + r.1
                            } else {
                                r.1
                            },
                        ),
                    ),
                },
            },
        }
    } else {
        match find_from(rem, key_marker(), 0) {
            Some(j) => match spec_unescape(rem.subrange(0, j)) {
                Err(e) => Err(e),
                Ok(lit) => match spec_scan(rem.skip(j), pos + j) {
                    Err(e) => Err(e),
                    Ok(r) => Ok((seq![lit] + r.0, r.1)),
                },
            },
            None => {
                if rem.len() == 0 {
                    Ok((Seq::empty(), Seq::empty()))
                } else {
                    match spec_unescape(rem) {
                        Err(e) => Err(e),
                        Ok(lit) => Ok((seq![lit], Seq::empty())),
                    }
                }
            },
        }
    }
}

#[via_fn]
proof fn spec_scan_dec(rem: Seq<char>, pos: int) {
    if starts_at(rem, 0, key_marker()) {
        lemma_find_from(rem.skip(6), val_marker(), 0);
    } else {
        lemma_find_from(rem, key_marker(), 0);
    }
}

/// Every separator literal a successful scan yields is non-empty.
pub proof fn lemma_scan_nonempty(rem: Seq<char>, pos: int)
    ensures
        spec_scan(rem, pos) matches Ok(p) ==> all_nonempty(p.0) && all_nonempty(p.1),
    decreases rem.len(),
{
    if starts_at(rem, 0, key_marker()) {
        let rem2 = rem.skip(6);
        lemma_find_from(rem2, val_marker(), 0);
        match find_from(rem2, val_marker(), 0) {
            None => {},
            Some(j) => match spec_unescape(rem2.subrange(0, j)) {
                Err(_) => {},
                Ok(lit) => {
                    lemma_scan_nonempty(rem2.skip(j + 6), pos + 12 + j);
                    match spec_scan(rem2.skip(j + 6), pos + 12 + j) {
                        Err(_) => {},
                        Ok(r) => {
                            if j > 0 {
                                lemma_unescape_nonempty(rem2.subrange(0, j));
                                let l = seq![lit] + r.1;
                                assert forall|i: int| 0 <= i < l.len() implies #[trigger] l[i].len()
                                    > 0 by {
                                    if i > 0 {
                                        assert(l[i] == r.1[i - 1]);
                                    }
                                }
                            }
                        },
                    }
                },
            },
        }
    } else {
        lemma_find_from(rem, key_marker(), 0);
        match find_from(rem, key_marker(), 0) {
            Some(j) => match spec_unescape(rem.subrange(0, j)) {
                Err(_) => {},
                Ok(lit) => {
                    lemma_scan_nonempty(rem.skip(j), pos + j);
                    match spec_scan(rem.skip(j), pos + j) {
                        Err(_) => {},
                        Ok(r) => {
                            lemma_unescape_nonempty(rem.subrange(0, j));
                            let l = seq![lit] + r.0;
                            assert forall|i: int| 0 <= i < l.len() implies #[trigger] l[i].len()
                                > 0 by {
                                if i > 0 {
                                    assert(l[i] == r.0[i - 1]);
                                }
                            }
                        },
                    }
                },
            },
            None => {
                if rem.len() > 0 {
                    match spec_unescape(rem) {
                        Err(_) => {},
                        Ok(lit) => {
                            lemma_unescape_nonempty(rem);
                        },
                    }
                }
            },
        }
    }
}

/// Appends a scan result on the right of already collected separator lists,
/// passing a scan error through.
pub open spec fn scan_join(
    fs: Seq<Seq<char>>,
    ks: Seq<Seq<char>>,
    r: Result<(Seq<Seq<char>>, Seq<Seq<char>>), ErrorView>,
) -> Result<(Seq<Seq<char>>, Seq<Seq<char>>), ErrorView> {
    match r {
        Err(e) => Err(e),
        Ok(p) => Ok((fs + p.0, ks + p.1)),
    }
}

/// The separator at position `i` of `l` is ambiguous: it occurs inside an
/// entry of the other list, or inside a different entry of its own list.
pub open spec fn bad_at(l: Seq<Seq<char>>, other: Seq<Seq<char>>, i: int) -> bool {
    (exists|j: int| 0 <= j < other.len() && #[trigger] contains_seq(other[j], l[i])) || (exists|
        j: int,
    |
        0 <= j < l.len() && l[j] != l[i] && #[trigger] contains_seq(l[j], l[i]))
}

/// The first position at or after `i` whose separator is ambiguous.
pub open spec fn first_bad(l: Seq<Seq<char>>, other: Seq<Seq<char>>, i: int) -> Option<int>
    decreases l.len() - i + 1,
{
    if i < 0 || i >= l.len() {
        None
    } else if bad_at(l, other, i) {
        Some(i)
    } else {
        first_bad(l, other, i + 1)
    }
}

/// When no position is reported, no position is ambiguous.
pub proof fn lemma_first_bad_none(l: Seq<Seq<char>>, other: Seq<Seq<char>>, i: int)
    requires
        0 <= i,
        first_bad(l, other, i) is None,
    ensures
        forall|j: int| i <= j < l.len() ==> !bad_at(l, other, j),
    decreases l.len() - i + 1,
{
    if i < l.len() {
        lemma_first_bad_none(l, other, i + 1);
    }
}

/// A reported position lies in range and is ambiguous.
pub proof fn lemma_first_bad_bounds(l: Seq<Seq<char>>, other: Seq<Seq<char>>, i: int)
    requires
        0 <= i,
    ensures
        first_bad(l, other, i) matches Some(b) ==> i <= b < l.len() && bad_at(l, other, b),
    decreases l.len() - i + 1,
{
    if i < l.len() && !bad_at(l, other, i) {
        lemma_first_bad_bounds(l, other, i + 1);
    }
}

/// When some position is ambiguous, a position is reported.
pub proof fn lemma_first_bad_some(l: Seq<Seq<char>>, other: Seq<Seq<char>>, i: int, b: int)
    requires
        0 <= i <= b < l.len(),
        bad_at(l, other, b),
    ensures
        first_bad(l, other, i) is Some,
    decreases b - i,
{
    if !bad_at(l, other, i) {
        lemma_first_bad_some(l, other, i + 1, b);
    }
}

/// The separator lists that a template produces: scanned, given their
/// defaults when a list stayed empty, sorted and deduplicated — everything
/// but the ambiguity validation.  `None` when scanning itself fails.
pub open spec fn spec_separators(t: Seq<char>) -> Option<(Seq<Seq<char>>, Seq<Seq<char>>)> {
    match spec_scan(t, 0) {
        Err(_) => None,
        Ok(p) => {
            let fs0 = if p.0.len() == 0 {
                seq![seq![' ']]
            } else {
                p.0
            };
            let ks0 = if p.1.len() == 0 {
                seq![seq![':']]
            } else {
                p.1
            };
            Some((dedup_sorted(sort_seps(fs0)), dedup_sorted(sort_seps(ks0))))
        },
    }
}

/// What compiling the template `t` produces: the compiled pattern, or the
/// first error that the scan or the ambiguity validation finds.
pub open spec fn spec_compile(t: Seq<char>) -> Result<PatternView, ErrorView> {
    match spec_scan(t, 0) {
        Err(e) => Err(e),
        Ok(_) => {
            let p = spec_separators(t)->Some_0;
            match first_bad(p.0, p.1, 0) {
                Some(i) => Err(ErrorView::DoubleSeperator(p.0[i])),
                None => match first_bad(p.1, p.0, 0) {
                    Some(i) => Err(ErrorView::DoubleSeperator(p.1[i])),
                    None => Ok(
                        PatternView { field_seperators: p.0, key_seperators: p.1 },
                    ),
                },
            }
        },
    }
}

/// The built-in default: fields split by a space, key and value split by a
/// colon.
pub open spec fn default_pattern() -> PatternView {
    PatternView { field_seperators: seq![seq![' ']], key_seperators: seq![seq![':']] }
}

/// A compiled template: the separators that split an input line into fields
/// and each field into a key and a value.
#[derive(Debug, Clone)]
pub struct Pattern {
    field_seperators: Vec<Vec<char>>,
    key_seperators: Vec<Vec<char>>,
}

impl View for Pattern {
    type V = PatternView;

    closed spec fn view(&self) -> PatternView {
        PatternView {
            field_seperators: self.field_seperators.deep_view(),
            key_seperators: self.key_seperators.deep_view(),
        }
    }
}

/// Pushing an entry appends its view to the list of views.
proof fn lemma_push_dv(v0: Vec<Vec<char>>, v1: Vec<Vec<char>>, x: Vec<char>)
    requires
        v1@ == v0@.push(x),
    ensures
        v1.deep_view() == v0.deep_view().push(x@),
{
    assert forall|a: int| 0 <= a < v1.deep_view().len() implies v1.deep_view()[a]
        == v0.deep_view().push(x@)[a] by {
        if a < v0@.len() {
            assert(v1@[a] == v0@[a]);
        } else {
            assert(v1@[a] == x);
        }
    }
    assert(v1.deep_view() =~= v0.deep_view().push(x@));
}

/// Are two separator lists equal entry by entry?
fn seps_eq(a: &Vec<Vec<char>>, b: &Vec<Vec<char>>) -> (r: bool)
    ensures
        r == (a.deep_view() == b.deep_view()),
{
    if a.len() != b.len() {
        proof {
            assert(a.deep_view().len() != b.deep_view().len());
        }
        return false;
    }
    let mut i: usize = 0;
    while i < a.len()
        invariant
            i <= a@.len(),
            a@.len() == b@.len(),
            forall|k: int| 0 <= k < i ==> a.deep_view()[k] == b.deep_view()[k],
        decreases a@.len() - i,
    {
        if !chars_eq(&a[i], &b[i]) {
            proof {
                assert(a.deep_view()[i as int] == a@[i as int]@);
                assert(b.deep_view()[i as int] == b@[i as int]@);
            }
            return false;
        }
        proof {
            assert(a.deep_view()[i as int] == a@[i as int]@);
            assert(b.deep_view()[i as int] == b@[i as int]@);
        }
        i += 1;
    }
    proof {
        assert(a.deep_view() =~= b.deep_view());
    }
    true
}

impl PartialEq for Pattern {
    fn eq(&self, other: &Pattern) -> (r: bool) {
        let r = seps_eq(&self.field_seperators, &other.field_seperators) && seps_eq(
            &self.key_seperators,
            &other.key_seperators,
        );
        proof {
            if self@ == other@ {
                assert(self.field_seperators.deep_view() == other.field_seperators.deep_view());
                assert(self.key_seperators.deep_view() == other.key_seperators.deep_view());
            }
        }
        r
    }
}

impl vstd::std_specs::cmp::PartialEqSpecImpl for Pattern {
    open spec fn obeys_eq_spec() -> bool {
        true
    }

    open spec fn eq_spec(&self, other: &Pattern) -> bool {
        self@ == other@
    }
}

impl core::default::Default for Pattern {
    /// The default pattern, equivalent to compiling `%{key}:%{val}`.
    fn default() -> (r: Pattern)
        ensures
            r@ == default_pattern(),
            r@.wf(),
    {
        let mut space: Vec<char> = Vec::new();
        space.push(' ');
        let mut colon: Vec<char> = Vec::new();
        colon.push(':');
        let mut fs: Vec<Vec<char>> = Vec::new();
        let ghost fs0 = fs;
        let ghost space0 = space;
        fs.push(space);
        let mut ks: Vec<Vec<char>> = Vec::new();
        let ghost ks0 = ks;
        let ghost colon0 = colon;
        ks.push(colon);
        let r = Pattern { field_seperators: fs, key_seperators: ks };
        proof {
            lemma_push_dv(fs0, r.field_seperators, space0);
            lemma_push_dv(ks0, r.key_seperators, colon0);
            assert(r.field_seperators.deep_view() =~= seq![seq![' ']]);
            assert(r.key_seperators.deep_view() =~= seq![seq![':']]);
            lemma_default_wf();
        }
        r
    }
}

/// The default pattern is well formed: a space and a colon do not occur in
/// one another.
pub proof fn lemma_default_wf()
    ensures
        default_pattern().wf(),
{
    assert(!contains_seq(seq![':'], seq![' '])) by {
        reveal_with_fuel(find_from, 3);
        assert(seq![':'].subrange(0, 1) =~= seq![':']);
        assert(seq![':'][0] == ':' && seq![' '][0] == ' ');
        assert(seq![':'] != seq![' ']);
    }
    assert(!contains_seq(seq![' '], seq![':'])) by {
        reveal_with_fuel(find_from, 3);
        assert(seq![' '].subrange(0, 1) =~= seq![' ']);
        assert(seq![':'][0] == ':' && seq![' '][0] == ' ');
        assert(seq![' '] != seq![':']);
    }
    let p = default_pattern();
    assert forall|i: int, j: int|
        0 <= i < p.field_seperators.len() && 0 <= j < p.key_seperators.len() implies !(
    #[trigger] contains_seq(p.key_seperators[j], p.field_seperators[i])) by {}
    assert forall|i: int, j: int|
        0 <= i < p.key_seperators.len() && 0 <= j < p.field_seperators.len() implies !(
    #[trigger] contains_seq(p.field_seperators[j], p.key_seperators[i])) by {}
}

/// Builds the `%{key}` marker.
fn key_marker_vec() -> (v: Vec<char>)
    ensures
        v@ == key_marker(),
{
    let mut v: Vec<char> = Vec::new();
    v.push('%');
    v.push('{');
    v.push('k');
    v.push('e');
    v.push('y');
    v.push('}');
    proof {
        assert(v@ =~= key_marker());
    }
    v
}

/// Builds the `%{val}` marker.
fn val_marker_vec() -> (v: Vec<char>)
    ensures
        v@ == val_marker(),
{
    let mut v: Vec<char> = Vec::new();
    v.push('%');
    v.push('{');
    v.push('v');
    v.push('a');
    v.push('l');
    v.push('}');
    proof {
        assert(v@ =~= val_marker());
    }
    v
}

/// Is the separator at position `i` of `l` ambiguous against `other`?
fn is_bad(l: &Vec<Vec<char>>, other: &Vec<Vec<char>>, i: usize) -> (r: bool)
    requires
        i < l@.len(),
    ensures
        r == bad_at(l.deep_view(), other.deep_view(), i as int),
{
    let ghost lv = l.deep_view();
    let ghost ov = other.deep_view();
    proof {
        assert(lv[i as int] == l@[i as int]@);
    }
    let x = &l[i];
    let mut j: usize = 0;
    while j < other.len()
        invariant
            j <= ov.len(),
            lv == l.deep_view(),
            ov == other.deep_view(),
            x@ == lv[i as int],
            i < lv.len(),
            forall|k: int| 0 <= k < j ==> !(#[trigger] contains_seq(ov[k], lv[i as int])),
        decreases ov.len() - j,
    {
        proof {
            assert(ov[j as int] == other@[j as int]@);
        }
        if contains_chars(&other[j], x) {
            return true;
        }
        j += 1;
    }
    let mut j: usize = 0;
    while j < l.len()
        invariant
            j <= lv.len(),
            lv == l.deep_view(),
            ov == other.deep_view(),
            x@ == lv[i as int],
            i < lv.len(),
            forall|k: int| 0 <= k < ov.len() ==> !(#[trigger] contains_seq(ov[k], lv[i as int])),
            forall|k: int|
                0 <= k < j && lv[k] != lv[i as int] ==> !(#[trigger] contains_seq(
                    lv[k],
                    lv[i as int],
                )),
        decreases lv.len() - j,
    {
        proof {
            assert(lv[j as int] == l@[j as int]@);
        }
        if !chars_eq(&l[j], x) && contains_chars(&l[j], x) {
            return true;
        }
        j += 1;
    }
    false
}

/// The first ambiguous position of `l` against `other`, if any.
fn first_bad_vec(l: &Vec<Vec<char>>, other: &Vec<Vec<char>>) -> (r: Option<usize>)
    ensures
        match r {
            Some(i) => first_bad(l.deep_view(), other.deep_view(), 0) == Some(i as int),
            None => first_bad(l.deep_view(), other.deep_view(), 0) is None,
        },
{
    let mut i: usize = 0;
    while i < l.len()
        invariant
            i <= l@.len(),
            first_bad(l.deep_view(), other.deep_view(), 0) == first_bad(
                l.deep_view(),
                other.deep_view(),
                i as int,
            ),
        decreases l@.len() - i,
    {
        if is_bad(l, other, i) {
            return Some(i);
        }
        i += 1;
    }
    None
}

impl Pattern {
    /// Compiles a template into a pattern.  Fails exactly when the template
    /// is defective: a `%{key}` marker with no later `%{val}` marker, a bad
    /// or unterminated escape, or a separator that makes splitting
    /// ambiguous.
    #[verifier::loop_isolation(true)]
    pub fn compile(pattern: &str) -> (r: Result<Pattern, Error>)
        ensures
            match r {
                Ok(p) => spec_compile(pattern@) == Ok::<PatternView, ErrorView>(p@) && p@.wf(),
                Err(e) => spec_compile(pattern@) == Err::<PatternView, ErrorView>(e@),
            },
    {
        let key_m = key_marker_vec();
        let val_m = val_marker_vec();
        let total = pattern.unicode_len();
        let mut fs: Vec<Vec<char>> = Vec::new();
        let mut ks: Vec<Vec<char>> = Vec::new();
        let mut rest: &str = pattern;
        let mut pos: usize = 0;
        proof {
            assert(fs.deep_view() =~= Seq::<Seq<char>>::empty());
            assert(ks.deep_view() =~= Seq::<Seq<char>>::empty());
            match spec_scan(pattern@, 0) {
                Err(_) => {},
                Ok(p) => {
                    assert(Seq::<Seq<char>>::empty() + p.0 =~= p.0);
                    assert(Seq::<Seq<char>>::empty() + p.1 =~= p.1);
                },
            }
        }
        loop
            invariant_except_break
                key_m@ == key_marker(),
                val_m@ == val_marker(),
                total == pattern@.len(),
                pos + rest@.len() == total,
                scan_join(fs.deep_view(), ks.deep_view(), spec_scan(rest@, pos as int))
                    == spec_scan(pattern@, 0),
            ensures
                spec_scan(pattern@, 0) == Ok::<(Seq<Seq<char>>, Seq<Seq<char>>), ErrorView>(
                    (fs.deep_view(), ks.deep_view()),
                ),
            decreases rest@.len(),
        {
            let ghost rem = rest@;
            let ghost fs0 = fs.deep_view();
            let ghost ks0 = ks.deep_view();
            let n = rest.unicode_len();
            if match_at_str(rest, 0, &key_m) {
                let rem2 = rest.substring_char(6, n);
                proof {
                    assert(rem2@ =~= rem.skip(6));
                }
                match find_in_str(rem2, &val_m, 0) {
                    None => {
                        return Err(Error::InvalidPattern(pos + 6));
                    },
                    Some(j) => {
                        proof {
                            lemma_find_from(rem2@, val_marker(), 0);
                        }
                        if j > 0 {
                            let lit_s = rem2.substring_char(0, j);
                            proof {
                                assert(lit_s@ == rem.skip(6).subrange(0, j as int));
                            }
                            match handle_escapes(lit_s) {
                                Err(e) => {
                                    return Err(e);
                                },
                                Ok(lit) => {
                                    let ghost kspre = ks;
                                    let ghost lit0 = lit;
                                    ks.push(lit);
                                    proof {
                                        lemma_push_dv(kspre, ks, lit0);
                                    }
                                },
                            }
                        } else {
                            proof {
                                assert(rem.skip(6).subrange(0, 0) =~= Seq::<char>::empty());
                            }
                        }
                        let n2 = rem2.unicode_len();
                        rest = rem2.substring_char(j + 6, n2);
                        pos = pos + 12 + j;
                        proof {
                            assert(rest@ =~= rem.skip(6).skip(j + 6));
                            match spec_scan(rest@, pos as int) {
                                Err(_) => {},
                                Ok(r) => {
                                    let lit = spec_unescape(
                                        rem.skip(6).subrange(0, j as int),
                                    )->Ok_0;
                                    if j > 0 {
                                        assert(ks.deep_view() =~= ks0.push(lit));
                                        assert(ks0 + (seq![lit] + r.1) =~= ks.deep_view() + r.1);
                                    }
                                },
                            }
                        }
                    },
                }
            } else {
                match find_in_str(rest, &key_m, 0) {
                    Some(j) => {
                        proof {
                            lemma_find_from(rem, key_marker(), 0);
                        }
                        let lit_s = rest.substring_char(0, j);
                        proof {
                            assert(lit_s@ == rem.subrange(0, j as int));
                        }
                        match handle_escapes(lit_s) {
                            Err(e) => {
                                return Err(e);
                            },
                            Ok(lit) => {
                                let ghost fspre = fs;
                                let ghost lit0 = lit;
                                fs.push(lit);
                                proof {
                                    lemma_push_dv(fspre, fs, lit0);
                                }
                            },
                        }
                        rest = rest.substring_char(j, n);
                        pos = pos + j;
                        proof {
                            assert(rest@ =~= rem.skip(j as int));
                            match spec_scan(rest@, pos as int) {
                                Err(_) => {},
                                Ok(r) => {
                                    let lit = spec_unescape(rem.subrange(0, j as int))->Ok_0;
                                    assert(fs.deep_view() =~= fs0.push(lit));
                                    assert(fs0 + (seq![lit] + r.0) =~= fs.deep_view() + r.0);
                                },
                            }
                        }
                    },
                    None => {
                        if rest.unicode_len() == 0 {
                            proof {
                                assert(fs0 + Seq::<Seq<char>>::empty() =~= fs0);
                                assert(ks0 + Seq::<Seq<char>>::empty() =~= ks0);
                            }
                            break;
                        }
                        match handle_escapes(rest) {
                            Err(e) => {
                                return Err(e);
                            },
                            Ok(lit) => {
                                let ghost litv = spec_unescape(rem)->Ok_0;
                                let ghost fspre = fs;
                                let ghost lit0 = lit;
                                fs.push(lit);
                                proof {
                                    lemma_push_dv(fspre, fs, lit0);
                                    assert(fs0 + seq![litv] =~= fs.deep_view());
                                    assert(ks0 + Seq::<Seq<char>>::empty() =~= ks0);
                                }
                                break;
                            },
                        }
                    },
                }
            }
        }
        proof {
            lemma_scan_nonempty(pattern@, 0);
        }
        if fs.len() == 0 {
            let mut space: Vec<char> = Vec::new();
            space.push(' ');
            proof {
                assert(space@ =~= seq![' ']);
            }
            let ghost fspre = fs;
            let ghost space0 = space;
            fs.push(space);
            proof {
                lemma_push_dv(fspre, fs, space0);
                assert(fs.deep_view() =~= seq![seq![' ']]);
            }
        }
        if ks.len() == 0 {
            let mut colon: Vec<char> = Vec::new();
            colon.push(':');
            proof {
                assert(colon@ =~= seq![':']);
            }
            let ghost kspre = ks;
            let ghost colon0 = colon;
            ks.push(colon);
            proof {
                lemma_push_dv(kspre, ks, colon0);
                assert(ks.deep_view() =~= seq![seq![':']]);
            }
        }
        let ghost sep_pair = spec_separators(pattern@)->Some_0;
        proof {
            lemma_sort_seps_nonempty(fs.deep_view());
            lemma_dedup_sorted_nonempty(sort_seps(fs.deep_view()));
            lemma_sort_seps_nonempty(ks.deep_view());
            lemma_dedup_sorted_nonempty(sort_seps(ks.deep_view()));
            lemma_sort_seps_len(fs.deep_view());
            lemma_dedup_sorted_len(sort_seps(fs.deep_view()));
            lemma_sort_seps_len(ks.deep_view());
            lemma_dedup_sorted_len(sort_seps(ks.deep_view()));
        }
        let fs = dedup_vec(sort_vec(fs));
        let ks = dedup_vec(sort_vec(ks));
        proof {
            assert(fs.deep_view() == sep_pair.0);
            assert(ks.deep_view() == sep_pair.1);
        }
        match first_bad_vec(&fs, &ks) {
            Some(i) => {
                proof {
                    lemma_first_bad_bounds(fs.deep_view(), ks.deep_view(), 0);
                    assert(fs.deep_view()[i as int] == fs@[i as int]@);
                }
                return Err(Error::DoubleSeperator(chars_to_string(&fs[i])));
            },
            None => {},
        }
        match first_bad_vec(&ks, &fs) {
            Some(i) => {
                proof {
                    lemma_first_bad_bounds(ks.deep_view(), fs.deep_view(), 0);
                    assert(ks.deep_view()[i as int] == ks@[i as int]@);
                }
                return Err(Error::DoubleSeperator(chars_to_string(&ks[i])));
            },
            None => {},
        }
        let r = Pattern { field_seperators: fs, key_seperators: ks };
        proof {
            lemma_first_bad_none(r@.field_seperators, r@.key_seperators, 0);
            lemma_first_bad_none(r@.key_seperators, r@.field_seperators, 0);
            assert forall|i: int, j: int|
                0 <= i < r@.field_seperators.len() && 0 <= j < r@.field_seperators.len()
                    && r@.field_seperators[j] != r@.field_seperators[i] implies !(
            #[trigger] contains_seq(r@.field_seperators[j], r@.field_seperators[i])) by {
                if contains_seq(r@.field_seperators[j], r@.field_seperators[i]) {
                    assert(bad_at(r@.field_seperators, r@.key_seperators, i));
                }
            }
            assert forall|i: int, j: int|
                0 <= i < r@.key_seperators.len() && 0 <= j < r@.key_seperators.len()
                    && r@.key_seperators[j] != r@.key_seperators[i] implies !(
            #[trigger] contains_seq(r@.key_seperators[j], r@.key_seperators[i])) by {
                if contains_seq(r@.key_seperators[j], r@.key_seperators[i]) {
                    assert(bad_at(r@.key_seperators, r@.field_seperators, i));
                }
            }
            assert forall|i: int, j: int|
                0 <= i < r@.field_seperators.len() && 0 <= j < r@.key_seperators.len() implies !(
            #[trigger] contains_seq(r@.key_seperators[j], r@.field_seperators[i])) by {
                if contains_seq(r@.key_seperators[j], r@.field_seperators[i]) {
                    assert(bad_at(r@.field_seperators, r@.key_seperators, i));
                }
            }
            assert forall|i: int, j: int|
                0 <= i < r@.key_seperators.len() && 0 <= j < r@.field_seperators.len() implies !(
            #[trigger] contains_seq(r@.field_seperators[j], r@.key_seperators[i])) by {
                if contains_seq(r@.field_seperators[j], r@.key_seperators[i]) {
                    assert(bad_at(r@.key_seperators, r@.field_seperators, i));
                }
            }
        }
        Ok(r)
    }
}

impl Pattern {
    /// Runs the pattern over an input line.  Every complete key/value pair
    /// of the line goes into the mapping, a later duplicate key overwriting
    /// an earlier one; a fragment without exactly one key and one value is
    /// dropped.  Returns nothing at all when no pair was found.
    pub fn run<'a>(&self, input: &'a str) -> (r: Option<ResultMap<'a>>)
        requires
            self@.wf(),
        ensures
            match r {
                None => spec_run(self@, input@) is None,
                Some(m) => spec_run(self@, input@) == Some(m@) && m.wf(),
            },
    {
        let fields = multi_split(input, &self.field_seperators);
        let ghost fv = fields.deep_view();
        let ghost kv_seps = self@.key_seperators;
        let mut m = ResultMap::new();
        let ghost mut gpairs: Seq<(Seq<char>, Seq<char>)> = Seq::empty();
        let mut found = false;
        let mut i: usize = 0;
        proof {
            assert(fv.skip(0) =~= fv);
            assert(Seq::<(Seq<char>, Seq<char>)>::empty() + spec_pairs(fv, kv_seps) =~= spec_pairs(
                fv,
                kv_seps,
            ));
        }
        while i < fields.len()
            invariant
                i <= fv.len(),
                fv == fields.deep_view(),
                spec_pairs(fv, kv_seps) == gpairs + spec_pairs(fv.skip(i as int), kv_seps),
                m@ == map_of(gpairs),
                m.wf(),
                found == (gpairs.len() > 0),
            decreases fv.len() - i,
        {
            let field: &'a str = fields[i];
            proof {
                assert(fields@[i as int]@ == fv[i as int]);
                assert(fv.skip(i as int)[0] == fv[i as int]);
                assert(fv.skip(i as int).skip(1) =~= fv.skip(i + 1));
            }
            let kv = multi_split(field, &self.key_seperators);
            if kv.len() == 2 {
                let k: &'a str = kv[0];
                let v: &'a str = kv[1];
                proof {
                    assert(kv@[0]@ == kv.deep_view()[0]);
                    assert(kv@[1]@ == kv.deep_view()[1]);
                }
                let ghost g0 = gpairs;
                m.insert(k, v);
                found = true;
                proof {
                    gpairs = gpairs.push((k@, v@));
                    assert(gpairs.drop_last() =~= g0);
                    assert(g0 + (seq![(k@, v@)] + spec_pairs(fv.skip(i + 1), kv_seps)) =~= gpairs
                        + spec_pairs(fv.skip(i + 1), kv_seps));
                }
            }
            i += 1;
        }
        proof {
            assert(fv.skip(fv.len() as int) =~= Seq::<Seq<char>>::empty());
            assert(gpairs + Seq::<(Seq<char>, Seq<char>)>::empty() =~= gpairs);
        }
        if found {
            Some(m)
        } else {
            None
        }
    }
}

/// The strings of a separator list, one per separator.
fn seps_strings(l: &Vec<Vec<char>>) -> (r: Vec<String>)
    ensures
        r.deep_view() == l.deep_view(),
{
    let mut r: Vec<String> = Vec::new();
    let mut i: usize = 0;
    while i < l.len()
        invariant
            i <= l@.len(),
            r.deep_view() == l.deep_view().take(i as int),
        decreases l@.len() - i,
    {
        let ghost r0 = r@;
        r.push(chars_to_string(&l[i]));
        proof {
            assert(l.deep_view()[i as int] == l@[i as int]@);
            assert forall|a: int| 0 <= a < r.deep_view().len() implies r.deep_view()[a]
                == l.deep_view().take(i + 1)[a] by {
                if a < i {
                    assert(r@[a] == r0[a]);
                }
            }
            assert(r.deep_view() =~= l.deep_view().take(i + 1));
        }
        i += 1;
    }
    proof {
        assert(l.deep_view().take(l@.len() as int) =~= l.deep_view());
    }
    r
}

/// A separator list read back from its strings.
fn strings_seps(l: &Vec<String>) -> (r: Vec<Vec<char>>)
    ensures
        r.deep_view() == l.deep_view(),
{
    let mut r: Vec<Vec<char>> = Vec::new();
    let mut i: usize = 0;
    while i < l.len()
        invariant
            i <= l@.len(),
            r.deep_view() == l.deep_view().take(i as int),
        decreases l@.len() - i,
    {
        let ghost r0 = r@;
        r.push(crate::search::str_chars(l[i].as_str()));
        proof {
            assert(l.deep_view()[i as int] == l@[i as int]@);
            assert forall|a: int| 0 <= a < r.deep_view().len() implies r.deep_view()[a]
                == l.deep_view().take(i + 1)[a] by {
                if a < i {
                    assert(r@[a] == r0[a]);
                }
            }
            assert(r.deep_view() =~= l.deep_view().take(i + 1));
        }
        i += 1;
    }
    proof {
        assert(l.deep_view().take(l@.len() as int) =~= l.deep_view());
    }
    r
}

impl Pattern {
    /// The field separators, one string each.
    pub fn field_seperators(&self) -> (r: Vec<String>)
        ensures
            r.deep_view() == self@.field_seperators,
    {
        seps_strings(&self.field_seperators)
    }

    /// The key separators, one string each.
    pub fn key_seperators(&self) -> (r: Vec<String>)
        ensures
            r.deep_view() == self@.key_seperators,
    {
        seps_strings(&self.key_seperators)
    }

    /// Rebuilds a pattern from its separator lists, as
    /// [`Pattern::field_seperators`] and [`Pattern::key_seperators`] hand
    /// them out.  Nothing is validated here: only lists read off a compiled
    /// pattern are known to keep splitting unambiguous.
    pub fn from_seperators(fields: Vec<String>, keys: Vec<String>) -> (r: Pattern)
        ensures
            r@.field_seperators == fields.deep_view(),
            r@.key_seperators == keys.deep_view(),
    {
        Pattern {
            field_seperators: strings_seps(&fields),
            key_seperators: strings_seps(&keys),
        }
    }
}

/// Compiling is deterministic: one template compiles to one pattern.
/// Compiling the same template twice therefore yields equal pattern values.
pub proof fn lemma_compile_deterministic(t: Seq<char>, p1: PatternView, p2: PatternView)
    requires
        spec_compile(t) == Ok::<PatternView, ErrorView>(p1),
        spec_compile(t) == Ok::<PatternView, ErrorView>(p2),
    ensures
        p1 == p2,
{
}

/// Ambiguity detection: whenever the separators a template produces hold a
/// field separator that is a substring of a key separator, or a key
/// separator that is a substring of a field separator, compiling the
/// template fails with a `DoubleSeperator` error.
pub proof fn lemma_overlap_rejected(t: Seq<char>, i: int, j: int)
    requires
        spec_separators(t) is Some,
        0 <= i < spec_separators(t)->Some_0.0.len(),
        0 <= j < spec_separators(t)->Some_0.1.len(),
        contains_seq(spec_separators(t)->Some_0.1[j], spec_separators(t)->Some_0.0[i])
            || contains_seq(spec_separators(t)->Some_0.0[i], spec_separators(t)->Some_0.1[j]),
    ensures
        spec_compile(t) matches Err(e) && e is DoubleSeperator,
{
    let p = spec_separators(t)->Some_0;
    if contains_seq(p.1[j], p.0[i]) {
        assert(bad_at(p.0, p.1, i));
        lemma_first_bad_some(p.0, p.1, 0, i);
    } else {
        if first_bad(p.0, p.1, 0) is None {
            assert(bad_at(p.1, p.0, j));
            lemma_first_bad_some(p.1, p.0, 0, j);
        }
    }
}

} // verus!
