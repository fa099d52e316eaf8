//! Sets of inclusive ranges, kept sorted and merged.

use std::ops::RangeInclusive;
use vstd::laws_cmp::*;
use vstd::prelude::*;
use vstd::std_specs::cmp::*;

verus! {

/// What `RangeInclusive::start` gives of a range that was not iterated to its end: its lower
/// bound. Nothing is said of the others.
pub assume_specification<Idx>[ RangeInclusive::<Idx>::start ](r: &RangeInclusive<Idx>) -> (ret:
    &Idx)
    ensures
        !r@.exhausted ==> *ret == r@.start,
;

/// What `RangeInclusive::end` gives of a range that was not iterated to its end: its upper
/// bound. Nothing is said of the others.
pub assume_specification<Idx>[ RangeInclusive::<Idx>::end ](r: &RangeInclusive<Idx>) -> (ret: &Idx)
    ensures
        !r@.exhausted ==> *ret == r@.end,
;

/// The order of a type is a total order, and `<` and `==` agree with it.
pub open spec fn ordered<T: Ord>() -> bool {
    obeys_cmp::<T>()
}

/// `a` comes before `b` in the order of their type.
pub open spec fn before<T: Ord>(a: T, b: T) -> bool {
    a.is_lt(&b)
}

/// A value lies in a range.
pub open spec fn lies_in<T: Ord>(v: T, r: (T, T)) -> bool {
    !before(v, r.0) && !before(r.1, v)
}

/// A value lies in some of the ranges.
pub open spec fn covered<T: Ord>(s: Seq<(T, T)>, v: T) -> bool {
    exists|i: int| 0 <= i < s.len() && lies_in(v, #[trigger] s[i])
}

/// Ranges in the order of their lower bounds.
pub open spec fn by_start<T: Ord>(s: Seq<(T, T)>) -> bool {
    forall|i: int, j: int| 0 <= i < j < s.len() ==> !before((#[trigger] s[j]).0, (#[trigger] s[i]).0)
}

/// Ranges of which each one begins after the ones before it have ended.
pub open spec fn apart<T: Ord>(s: Seq<(T, T)>) -> bool {
    forall|i: int, j: int| 0 <= i < j < s.len() ==> before((#[trigger] s[i]).1, (#[trigger] s[j]).0)
}

/// Ranges in the order of their lower bounds, with each one that begins inside the last one
/// joined to it.
pub open spec fn merged<T: Ord>(s: Seq<(T, T)>) -> Seq<(T, T)>
    decreases s.len(),
{
    if s.len() == 0 {
        Seq::empty()
    } else {
        let m = merged(s.drop_last());
        let b = s.last();
        if m.len() > 0 && !before(m.last().1, b.0) {
            if before(m.last().1, b.1) {
                m.drop_last().push((m.last().0, b.1))
            } else {
                m
            }
        } else {
            m.push(b)
        }
    }
}

/// That ranges are those of a list, sorted and merged.
pub open spec fn merger_of<T: Ord>(r: Seq<(T, T)>, s: Seq<(T, T)>) -> bool {
    exists|sorted: Seq<(T, T)>| #[trigger]
        by_start(sorted) && sorted.to_multiset() == s.to_multiset() && r == merged(sorted)
}

pub proof fn lemma_order<T: Ord>(a: T, b: T, c: T)
    requires
        ordered::<T>(),
    ensures
        !before(a, a),
        before(a, b) ==> !before(b, a),
        before(a, b) && before(b, c) ==> before(a, c),
        before(a, b) && !before(c, b) ==> before(a, c),
        !before(b, a) && before(b, c) ==> before(a, c),
{
    reveal(obeys_partial_cmp_spec_properties);
    reveal(obeys_cmp_partial_ord);
    reveal(obeys_cmp_ord);
    reveal(vstd::laws_eq::obeys_eq_spec_properties);
    assert(a.partial_cmp_spec(&a) == Some(a.cmp_spec(&a)));
    assert(a.partial_cmp_spec(&b) == Some(a.cmp_spec(&b)));
    assert(b.partial_cmp_spec(&a) == Some(b.cmp_spec(&a)));
    assert(b.partial_cmp_spec(&c) == Some(b.cmp_spec(&c)));
    assert(c.partial_cmp_spec(&b) == Some(c.cmp_spec(&b)));
    assert(a.partial_cmp_spec(&c) == Some(a.cmp_spec(&c)));
    assert(c.partial_cmp_spec(&a) == Some(c.cmp_spec(&a)));
    assert(a.eq_spec(&a));
}

fn less<T: Ord>(a: &T, b: &T) -> (r: bool)
    requires
        ordered::<T>(),
    ensures
        r == before(*a, *b),
{
    proof {
        reveal(obeys_cmp_partial_ord);
    }
    *a < *b
}

proof fn lemma_covered_push<T: Ord>(s: Seq<(T, T)>, b: (T, T), v: T)
    ensures
        covered(s.push(b), v) == (covered(s, v) || lies_in(v, b)),
{
    let t = s.push(b);
    if covered(s, v) {
        let i = choose|i: int| 0 <= i < s.len() && lies_in(v, #[trigger] s[i]);
        assert(lies_in(v, t[i]));
    }
    if lies_in(v, b) {
        assert(lies_in(v, t[s.len() as int]));
    }
    if covered(t, v) {
        let i = choose|i: int| 0 <= i < t.len() && lies_in(v, #[trigger] t[i]);
        if i < s.len() {
            assert(lies_in(v, s[i]));
        }
    }
}

/// Merging sorted ranges changes nothing about which values they cover, and leaves them
/// sorted and apart.
pub proof fn law_merged<T: Ord>(s: Seq<(T, T)>)
    requires
        ordered::<T>(),
        by_start(s),
    ensures
        by_start(merged(s)),
        apart(merged(s)),
        forall|v: T| #[trigger] covered(merged(s), v) == covered(s, v),
        s.len() > 0 ==> merged(s).len() > 0,
        forall|k: int|
            0 <= k < merged(s).len() ==> !before(s.last().0, (#[trigger] merged(s)[k]).0),
    decreases s.len(),
{
    if s.len() > 0 {
        let p = s.drop_last();
        let b = s.last();
        assert(by_start(p));
        law_merged(p);
        let m = merged(p);
        let r = merged(s);
        assert(s =~= p.push(b));
        assert forall|k: int| 0 <= k < m.len() implies !before(b.0, (#[trigger] m[k]).0) by {
            lemma_order(b.0, p.last().0, m[k].0);
            lemma_order(b.0, m[k].0, p.last().0);
            assert(s[p.len() - 1] == p.last());
            assert(s[p.len() as int] == b);
        }
        lemma_order(b.0, b.0, b.0);
        if m.len() > 0 && !before(m.last().1, b.0) {
            let last = m.last();
            let m2 = m.drop_last();
            assert(m =~= m2.push(last));
            if before(last.1, b.1) {
                assert(r =~= m2.push((last.0, b.1)));
            }
            assert forall|v: T| #[trigger] covered(r, v) == covered(s, v) by {
                lemma_covered_push(p, b, v);
                assert(covered(m, v) == covered(p, v));
                lemma_covered_push(m2, last, v);
                lemma_covered_push(m2, (last.0, b.1), v);
                lemma_order(v, last.0, b.0);
                lemma_order(v, b.0, last.0);
                lemma_order(last.1, v, b.0);
                lemma_order(last.1, b.0, v);
                lemma_order(b.1, v, last.1);
                lemma_order(b.1, last.1, v);
                lemma_order(last.1, b.1, v);
                lemma_order(last.1, v, b.1);
                lemma_order(v, b.0, last.1);
            }
            assert forall|i: int, j: int| 0 <= i < j < r.len() implies before(
                (#[trigger] r[i]).1,
                (#[trigger] r[j]).0,
            ) by {
                assert(before(m[i].1, m[j].0));
            }
            assert forall|i: int, j: int| 0 <= i < j < r.len() implies !before(
                (#[trigger] r[j]).0,
                (#[trigger] r[i]).0,
            ) by {
                assert(!before(m[j].0, m[i].0));
            }
            assert forall|k: int| 0 <= k < r.len() implies !before(b.0, (#[trigger] r[k]).0) by {
                assert(!before(b.0, m[k].0));
            }
        } else {
            assert(r =~= m.push(b));
            assert forall|v: T| #[trigger] covered(r, v) == covered(s, v) by {
                lemma_covered_push(p, b, v);
                assert(covered(m, v) == covered(p, v));
                lemma_covered_push(m, b, v);
            }
            assert forall|i: int, j: int| 0 <= i < j < r.len() implies before(
                (#[trigger] r[i]).1,
                (#[trigger] r[j]).0,
            ) by {
                if j < m.len() {
                    assert(before(m[i].1, m[j].0));
                } else if i < m.len() - 1 {
                    assert(before(m[i].1, m[m.len() - 1].0));
                    lemma_order(m[i].1, m.last().0, b.0);
                }
            }
            assert forall|i: int, j: int| 0 <= i < j < r.len() implies !before(
                (#[trigger] r[j]).0,
                (#[trigger] r[i]).0,
            ) by {
                if j < m.len() {
                    assert(!before(m[j].0, m[i].0));
                } else {
                    assert(!before(b.0, m[i].0));
                }
            }
        }
    }
}

/// Lists with the same ranges cover the same values.
proof fn lemma_same_ranges<T: Ord>(a: Seq<(T, T)>, b: Seq<(T, T)>, v: T)
    requires
        a.to_multiset() == b.to_multiset(),
        covered(a, v),
    ensures
        covered(b, v),
{
    let i = choose|i: int| 0 <= i < a.len() && lies_in(v, #[trigger] a[i]);
    a.to_multiset_ensures();
    b.to_multiset_ensures();
    assert(a.contains(a[i]));
    assert(a.to_multiset().count(a[i]) > 0);
    assert(b.contains(a[i]));
    let j = choose|j: int| 0 <= j < b.len() && b[j] == a[i];
    assert(lies_in(v, b[j]));
}

/// Sorting and merging ranges gives ranges that are sorted and apart, and cover exactly the
/// values that the given ones cover.
pub proof fn law_merger<T: Ord>(r: Seq<(T, T)>, s: Seq<(T, T)>)
    requires
        ordered::<T>(),
        merger_of(r, s),
    ensures
        by_start(r),
        apart(r),
        forall|v: T| #[trigger] covered(r, v) == covered(s, v),
{
    let sorted = choose|sorted: Seq<(T, T)>| #[trigger]
        by_start(sorted) && sorted.to_multiset() == s.to_multiset() && r == merged(sorted);
    law_merged(sorted);
    assert forall|v: T| #[trigger] covered(r, v) == covered(s, v) by {
        assert(covered(merged(sorted), v) == covered(sorted, v));
        if covered(sorted, v) {
            lemma_same_ranges(sorted, s, v);
        }
        if covered(s, v) {
            lemma_same_ranges(s, sorted, v);
        }
    }
}

/// Two values of which neither comes before the other.
pub open spec fn same<T: Ord>(a: T, b: T) -> bool {
    !before(a, b) && !before(b, a)
}

/// The ranges hold a value: none ends before it begins.
pub open spec fn proper<T: Ord>(s: Seq<(T, T)>) -> bool {
    forall|k: int| 0 <= k < s.len() ==> !before((#[trigger] s[k]).1, s[k].0)
}

/// No range that begins before `a` reaches it.
pub open spec fn not_reached<T: Ord>(s: Seq<(T, T)>, a: T) -> bool {
    forall|k: int| 0 <= k < s.len() && before((#[trigger] s[k]).0, a) ==> before(s[k].1, a)
}

/// Some range begins where `a` is.
pub open spec fn begins<T: Ord>(s: Seq<(T, T)>, a: T) -> bool {
    exists|k: int| 0 <= k < s.len() && same((#[trigger] s[k]).0, a)
}

proof fn lemma_begins_push<T: Ord>(s: Seq<(T, T)>, b: (T, T), a: T)
    ensures
        begins(s.push(b), a) == (begins(s, a) || same(b.0, a)),
        not_reached(s.push(b), a) == (not_reached(s, a) && (before(b.0, a) ==> before(b.1, a))),
{
    let t = s.push(b);
    assert(t[s.len() as int] == b);
    assert forall|k: int| 0 <= k < s.len() implies #[trigger] t[k] == s[k] by {}
    if begins(s, a) {
        let k = choose|k: int| 0 <= k < s.len() && same((#[trigger] s[k]).0, a);
        assert(same(t[k].0, a));
    }
    if begins(t, a) && !same(b.0, a) {
        let k = choose|k: int| 0 <= k < t.len() && same((#[trigger] t[k]).0, a);
        assert(same(s[k].0, a));
    }
    if not_reached(t, a) {
        assert forall|k: int| 0 <= k < s.len() && before((#[trigger] s[k]).0, a) implies before(
            s[k].1,
            a,
        ) by {
            assert(t[k] == s[k]);
        }
    }
}

/// Proper ranges that are sorted and merged begin where a range begins that no earlier one
/// reaches, and end last where the last one ends.
proof fn lemma_merged_begins<T: Ord>(s: Seq<(T, T)>, a: T)
    requires
        ordered::<T>(),
        by_start(s),
        proper(s),
    ensures
        begins(merged(s), a) <==> begins(s, a) && not_reached(s, a),
        forall|k: int| 0 <= k < s.len() ==> !before(merged(s).last().1, (#[trigger] s[k]).1),
        s.len() > 0 ==> exists|k: int|
            0 <= k < s.len() && (#[trigger] s[k]).1 == merged(s).last().1,
        proper(merged(s)),
    decreases s.len(),
{
    if s.len() > 0 {
        let p = s.drop_last();
        let b = s.last();
        let m = merged(p);
        let r = merged(s);
        assert(s =~= p.push(b));
        assert(s[p.len() as int] == b);
        assert forall|k: int| 0 <= k < p.len() implies #[trigger] p[k] == s[k] && !before(
            b.0,
            p[k].0,
        ) by {
            assert(!before(s[p.len() as int].0, s[k].0));
        }
        assert(by_start(p));
        assert(proper(p));
        lemma_merged_begins(p, a);
        law_merged(p);
        lemma_begins_push(p, b, a);
        lemma_order(b.1, b.1, b.1);
        lemma_order(a, b.0, a);
        assert(begins(p, a) ==> !before(b.0, a)) by {
            if begins(p, a) {
                let k = choose|k: int| 0 <= k < p.len() && same((#[trigger] p[k]).0, a);
                lemma_order(b.0, a, p[k].0);
            }
        }
        if m.len() > 0 && !before(m.last().1, b.0) {
            let last = m.last();
            let joined = if before(last.1, b.1) {
                (last.0, b.1)
            } else {
                last
            };
            assert(m =~= m.drop_last().push(last));
            assert(r =~= m.drop_last().push(joined));
            lemma_begins_push(m.drop_last(), last, a);
            lemma_begins_push(m.drop_last(), joined, a);
            let w = choose|k: int| 0 <= k < p.len() && (#[trigger] p[k]).1 == last.1;
            if same(b.0, a) && not_reached(p, a) {
                lemma_order(last.1, a, b.0);
                lemma_order(a, p[w].0, b.0);
                lemma_order(b.0, a, p[w].0);
                assert(same(p[w].0, a));
            }
            assert forall|k: int| 0 <= k < s.len() implies !before(
                r.last().1,
                (#[trigger] s[k]).1,
            ) by {
                if k < p.len() {
                    assert(!before(last.1, p[k].1));
                    lemma_order(last.1, b.1, p[k].1);
                    lemma_order(b.1, p[k].1, last.1);
                    lemma_order(p[k].1, last.1, b.1);
                }
            }
            if before(last.1, b.1) {
                assert(s[p.len() as int].1 == r.last().1);
            } else {
                assert(s[w].1 == r.last().1);
            }
            assert forall|k: int| 0 <= k < r.len() implies !before(
                (#[trigger] r[k]).1,
                r[k].0,
            ) by {
                assert(!before(m[k].1, m[k].0));
                lemma_order(last.0, last.1, b.1);
                lemma_order(b.1, last.0, last.1);
                lemma_order(last.1, b.1, last.0);
            }
        } else {
            assert(r =~= m.push(b));
            lemma_begins_push(m, b, a);
            assert(!before(b.1, b.0));
            assert forall|k: int| 0 <= k < p.len() implies before((#[trigger] p[k]).1, b.0)
                && !before(b.1, p[k].1) by {
                assert(!before(m.last().1, p[k].1));
                lemma_order(p[k].1, m.last().1, b.0);
                lemma_order(p[k].1, b.0, b.1);
                lemma_order(b.1, p[k].1, b.1);
            }
            if same(b.0, a) {
                assert forall|k: int|
                    0 <= k < p.len() && before((#[trigger] p[k]).0, a) implies before(
                    p[k].1,
                    a,
                ) by {
                    lemma_order(p[k].1, b.0, a);
                }
            }
            assert(s[p.len() as int].1 == r.last().1);
            assert forall|k: int| 0 <= k < r.len() implies !before(
                (#[trigger] r[k]).1,
                r[k].0,
            ) by {
                if k < m.len() {
                    assert(!before(m[k].1, m[k].0));
                }
            }
        }
    }
}

proof fn lemma_merged_len<T: Ord>(s: Seq<(T, T)>)
    ensures
        merged(s).len() <= s.len(),
        merged(s).len() == 0 <==> s.len() == 0,
    decreases s.len(),
{
    if s.len() > 0 {
        lemma_merged_len(s.drop_last());
    }
}

/// Lists with the same ranges have them in the same places.
proof fn lemma_same_begins<T: Ord>(s: Seq<(T, T)>, t: Seq<(T, T)>, a: T)
    requires
        s.to_multiset() == t.to_multiset(),
    ensures
        s.len() == t.len(),
        begins(s, a) ==> begins(t, a),
        not_reached(t, a) ==> not_reached(s, a),
        proper(t) ==> proper(s),
{
    s.to_multiset_ensures();
    t.to_multiset_ensures();
    assert forall|k: int| 0 <= k < s.len() implies t.contains(#[trigger] s[k]) by {
        assert(s.contains(s[k]));
        assert(s.to_multiset().count(s[k]) > 0);
    }
    if begins(s, a) {
        let k = choose|k: int| 0 <= k < s.len() && same((#[trigger] s[k]).0, a);
        let j = choose|j: int| 0 <= j < t.len() && t[j] == s[k];
        assert(same(t[j].0, a));
    }
    if not_reached(t, a) {
        assert forall|k: int| 0 <= k < s.len() && before((#[trigger] s[k]).0, a) implies before(
            s[k].1,
            a,
        ) by {
            let j = choose|j: int| 0 <= j < t.len() && t[j] == s[k];
            assert(before(t[j].0, a));
        }
    }
    if proper(t) {
        assert forall|k: int| 0 <= k < s.len() implies !before((#[trigger] s[k]).1, s[k].0) by {
            let j = choose|j: int| 0 <= j < t.len() && t[j] == s[k];
            assert(!before(t[j].1, t[j].0));
        }
    }
}

/// Sorting and merging leaves no more ranges than there were, and none only of none. Of
/// ranges that hold a value it leaves one for each place where a range begins that no
/// earlier one reaches: those places, in rising order, are where the ranges that are left
/// begin.
pub proof fn law_merger_len<T: Ord>(r: Seq<(T, T)>, s: Seq<(T, T)>)
    requires
        ordered::<T>(),
        merger_of(r, s),
    ensures
        r.len() <= s.len(),
        r.len() == 0 <==> s.len() == 0,
        proper(s) ==> proper(r),
        proper(s) ==> forall|a: T| #[trigger] begins(r, a) == (begins(s, a) && not_reached(s, a)),
        proper(s) ==> forall|i: int, j: int|
            0 <= i < j < r.len() ==> before((#[trigger] r[i]).0, (#[trigger] r[j]).0),
{
    let sorted = choose|sorted: Seq<(T, T)>| #[trigger]
        by_start(sorted) && sorted.to_multiset() == s.to_multiset() && r == merged(sorted);
    sorted.to_multiset_ensures();
    s.to_multiset_ensures();
    lemma_merged_len(sorted);
    if proper(s) {
        assert(s.len() > 0 ==> proper(sorted)) by {
            if s.len() > 0 {
                lemma_same_begins(sorted, s, s[0].0);
            }
        }
        if s.len() == 0 {
            assert(proper(sorted));
        }
        assert forall|a: T| #[trigger] begins(r, a) == (begins(s, a) && not_reached(s, a)) by {
            lemma_same_begins(sorted, s, a);
            lemma_same_begins(s, sorted, a);
            lemma_merged_begins(sorted, a);
        }
        if s.len() > 0 {
            lemma_merged_begins(sorted, s[0].0);
        }
        law_merged(sorted);
        assert forall|i: int, j: int| 0 <= i < j < r.len() implies before(
            (#[trigger] r[i]).0,
            (#[trigger] r[j]).0,
        ) by {
            assert(before(r[i].1, r[j].0));
            assert(!before(r[i].1, r[i].0));
            lemma_order(r[i].0, r[i].1, r[j].0);
        }
    }
}

/// Single values, sorted and merged, are as many ranges as there are different values.
pub proof fn law_points_len<T: Ord>(r: Seq<(T, T)>, items: Seq<T>)
    requires
        ordered::<T>(),
        forall|a: T, b: T| #[trigger] same(a, b) ==> a == b,
        merger_of(r, points(items)),
    ensures
        r.len() == items.to_set().len(),
{
    let s = points(items);
    let starts = r.map_values(|e: (T, T)| e.0);
    assert forall|k: int| 0 <= k < s.len() implies !before((#[trigger] s[k]).1, s[k].0) by {
        lemma_order(s[k].0, s[k].0, s[k].0);
    }
    law_merger_len(r, s);
    assert(starts.no_duplicates()) by {
        assert forall|i: int, j: int|
            0 <= i < starts.len() && 0 <= j < starts.len() && i != j implies starts[i]
            != starts[j] by {
            lemma_order(r[i].0, r[i].0, r[i].0);
            if i < j {
                assert(before(r[i].0, r[j].0));
            } else {
                assert(before(r[j].0, r[i].0));
            }
        }
    }
    assert(starts.to_set() =~= items.to_set()) by {
        assert forall|a: T| starts.to_set().contains(a) == items.to_set().contains(a) by {
            lemma_order(a, a, a);
            assert(begins(r, a) == (begins(s, a) && not_reached(s, a)));
            assert(not_reached(s, a)) by {
                assert forall|k: int|
                    0 <= k < s.len() && before((#[trigger] s[k]).0, a) implies before(
                    s[k].1,
                    a,
                ) by {}
            }
            if starts.contains(a) {
                let i = choose|i: int| 0 <= i < starts.len() && starts[i] == a;
                assert(same(r[i].0, a));
                assert(begins(r, a));
                let k = choose|k: int| 0 <= k < s.len() && same((#[trigger] s[k]).0, a);
                assert(items[k] == a);
            }
            if items.contains(a) {
                let k = choose|k: int| 0 <= k < items.len() && items[k] == a;
                assert(same(s[k].0, a));
                assert(begins(s, a));
                let i = choose|i: int| 0 <= i < r.len() && same((#[trigger] r[i]).0, a);
                assert(starts[i] == a);
            }
        }
    }
    starts.unique_seq_to_set();
}

fn sort_by_start<T: Ord + Copy>(v: &Vec<(T, T)>) -> (r: Vec<(T, T)>)
    requires
        ordered::<T>(),
    ensures
        by_start(r@),
        r@.to_multiset() == v@.to_multiset(),
{
    let mut out: Vec<(T, T)> = Vec::new();
    let mut k: usize = 0;
    assert(v@.subrange(0, 0) =~= out@);
    while k < v.len()
        invariant
            ordered::<T>(),
            k <= v@.len(),
            out@.len() == k,
            by_start(out@),
            out@.to_multiset() == v@.subrange(0, k as int).to_multiset(),
        decreases v@.len() - k,
    {
        let x = v[k];
        let ghost s = out@;
        let mut i: usize = out.len();
        while i > 0 && less(&x.0, &out[i - 1].0)
            invariant
                ordered::<T>(),
                i <= out@.len(),
                out@ == s,
                by_start(s),
                forall|j: int| i <= j < s.len() ==> before(x.0, (#[trigger] s[j]).0),
            decreases i,
        {
            i -= 1;
        }
        out.insert(i, x);
        proof {
            let t = out@;
            assert(t =~= s.insert(i as int, x));
            assert forall|a: int, b: int| 0 <= a < b < t.len() implies !before(
                (#[trigger] t[b]).0,
                (#[trigger] t[a]).0,
            ) by {
                let sa = if a < i {
                    a
                } else {
                    a - 1
                };
                let sb = if b < i {
                    b
                } else {
                    b - 1
                };
                if a != i && b != i {
                    assert(!before(s[sb].0, s[sa].0));
                } else if a == i {
                    lemma_order(x.0, s[sb].0, x.0);
                } else {
                    if a < i - 1 {
                        assert(!before(s[i - 1].0, s[a].0));
                        lemma_order(x.0, s[a].0, s[i - 1].0);
                    }
                }
            }
            s.to_multiset_ensures();
            t.to_multiset_ensures();
            assert(t.remove(i as int) =~= s);
            assert(t.contains(t[i as int]));
            assert(t.to_multiset() =~= s.to_multiset().insert(x));
            let pre = v@.subrange(0, k as int);
            pre.to_multiset_ensures();
            assert(pre.push(x) =~= v@.subrange(0, k + 1));
        }
        k += 1;
    }
    assert(v@.subrange(0, v@.len() as int) =~= v@);
    out
}

fn merge_sorted<T: Ord + Copy>(v: &Vec<(T, T)>) -> (r: Vec<(T, T)>)
    requires
        ordered::<T>(),
    ensures
        r@ == merged(v@),
{
    let mut out: Vec<(T, T)> = Vec::new();
    let mut k: usize = 0;
    while k < v.len()
        invariant
            ordered::<T>(),
            k <= v@.len(),
            out@ == merged(v@.subrange(0, k as int)),
        decreases v@.len() - k,
    {
        let b = v[k];
        let ghost m = out@;
        assert(v@.subrange(0, k + 1).drop_last() =~= v@.subrange(0, k as int));
        let n = out.len();
        if n > 0 && !less(&out[n - 1].1, &b.0) {
            let last = out[n - 1];
            if less(&last.1, &b.1) {
                out.set(n - 1, (last.0, b.1));
                assert(out@ =~= m.drop_last().push((m.last().0, b.1)));
            }
        } else {
            out.push(b);
        }
        k += 1;
    }
    assert(v@.subrange(0, v@.len() as int) =~= v@);
    out
}

/// A set of values given by inclusive ranges. A value is looked up by binary search.
#[derive(Clone, Debug)]
pub struct RangeSet<T> {
    ranges: Vec<(T, T)>,
}

/// What a [`RangeSet`] stands for: its ranges, in order.
impl<T> View for RangeSet<T> {
    type V = Seq<(T, T)>;

    closed spec fn view(&self) -> Seq<(T, T)> {
        self.ranges@
    }
}

/// The bounds of ranges.
pub open spec fn bounds<T>(s: Seq<RangeInclusive<T>>) -> Seq<(T, T)> {
    s.map_values(|r: RangeInclusive<T>| (r@.start, r@.end))
}

/// The ranges of single values.
pub open spec fn points<T>(s: Seq<T>) -> Seq<(T, T)> {
    s.map_values(|v: T| (v, v))
}

impl<T: Ord + Copy> RangeSet<T> {
    /// The ranges are sorted and apart.
    pub open spec fn wf(&self) -> bool {
        by_start(self@) && apart(self@)
    }

    fn merge(pairs: Vec<(T, T)>) -> (r: RangeSet<T>)
        requires
            ordered::<T>(),
        ensures
            r.wf(),
            merger_of(r@, pairs@),
            r@.len() <= pairs@.len(),
            r@.len() == 0 <==> pairs@.len() == 0,
    {
        let sorted = sort_by_start(&pairs);
        let ranges = merge_sorted(&sorted);
        proof {
            assert(by_start(sorted@) && sorted@.to_multiset() == pairs@.to_multiset() && ranges@
                == merged(sorted@));
            law_merger(ranges@, pairs@);
            law_merger_len(ranges@, pairs@);
        }
        RangeSet { ranges }
    }

    /// The set of the values of ranges.
    pub fn from(ranges: Vec<RangeInclusive<T>>) -> (r: RangeSet<T>)
        requires
            ordered::<T>(),
            forall|i: int| 0 <= i < ranges@.len() ==> !(#[trigger] ranges@[i])@.exhausted,
        ensures
            r.wf(),
            merger_of(r@, bounds(ranges@)),
            r@.len() <= ranges@.len(),
            r@.len() == 0 <==> ranges@.len() == 0,
    {
        let mut pairs: Vec<(T, T)> = Vec::new();
        let mut i: usize = 0;
        while i < ranges.len()
            invariant
                i <= ranges@.len(),
                pairs@ == bounds(ranges@).subrange(0, i as int),
                forall|j: int| 0 <= j < ranges@.len() ==> !(#[trigger] ranges@[j])@.exhausted,
            decreases ranges@.len() - i,
        {
            pairs.push((*ranges[i].start(), *ranges[i].end()));
            i += 1;
            assert(pairs@ =~= bounds(ranges@).subrange(0, i as int));
        }
        assert(pairs@ =~= bounds(ranges@));
        Self::merge(pairs)
    }

    /// The set of single values.
    pub fn from_iter(items: Vec<T>) -> (r: RangeSet<T>)
        requires
            ordered::<T>(),
        ensures
            r.wf(),
            merger_of(r@, points(items@)),
            r@.len() <= items@.len(),
            r@.len() == 0 <==> items@.len() == 0,
            (forall|a: T, b: T| #[trigger] same(a, b) ==> a == b) ==> r@.len()
                == items@.to_set().len(),
    {
        let mut pairs: Vec<(T, T)> = Vec::new();
        let mut i: usize = 0;
        while i < items.len()
            invariant
                i <= items@.len(),
                pairs@ == points(items@).subrange(0, i as int),
            decreases items@.len() - i,
        {
            pairs.push((items[i], items[i]));
            i += 1;
            assert(pairs@ =~= points(items@).subrange(0, i as int));
        }
        assert(pairs@ =~= points(items@));
        let r = Self::merge(pairs);
        proof {
            if forall|a: T, b: T| #[trigger] same(a, b) ==> a == b {
                law_points_len(r@, items@);
            }
        }
        r
    }

    /// The number of ranges.
    pub fn len(&self) -> (r: usize)
        ensures
            r == self@.len(),
    {
        self.ranges.len()
    }

    /// Whether there is no range.
    pub fn is_empty(&self) -> (r: bool)
        ensures
            r == (self@.len() == 0),
    {
        self.ranges.len() == 0
    }

    /// Whether a value lies in one of the ranges.
    pub fn contains(&self, value: &T) -> (r: bool)
        requires
            ordered::<T>(),
            self.wf(),
        ensures
            r == covered(self@, *value),
    {
        let ghost s = self@;
        let mut lo: usize = 0;
        let mut hi: usize = self.ranges.len();
        while lo < hi
            invariant
                ordered::<T>(),
                s == self@,
                self.wf(),
                lo <= hi <= s.len(),
                forall|j: int| 0 <= j < lo ==> !lies_in(*value, #[trigger] s[j]),
                forall|j: int| hi <= j < s.len() ==> !lies_in(*value, #[trigger] s[j]),
            decreases hi - lo,
        {
            let mid = lo + (hi - lo) / 2;
            let range = self.ranges[mid];
            if less(value, &range.0) {
                proof {
                    assert forall|j: int| mid <= j < s.len() implies !lies_in(
                        *value,
                        #[trigger] s[j],
                    ) by {
                        if j > mid {
                            assert(!before(s[j].0, s[mid as int].0));
                            lemma_order(*value, range.0, s[j].0);
                        }
                    }
                }
                hi = mid;
            } else if !less(&range.1, value) {
                assert(lies_in(*value, s[mid as int]));
                return true;
            } else {
                proof {
                    assert forall|j: int| 0 <= j <= mid implies !lies_in(*value, #[trigger] s[j]) by {
                        if j < mid {
                            assert(before(s[j].1, s[mid as int].0));
                            lemma_order(s[j].1, range.0, *value);
                        }
                    }
                }
                lo = mid + 1;
            }
        }
        false
    }
}

} // verus!
