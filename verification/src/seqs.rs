//! Sequence specifications shared by the library: keeping first occurrences,
//! and the stable insertion order used for every sort.

use vstd::prelude::*;
use vstd::multiset::Multiset;

verus! {

broadcast use vstd::seq_lib::group_to_multiset_ensures;

/// The elements of `s` in order, keeping only the first occurrence of each.
pub open spec fn first_occurrences<T>(s: Seq<T>) -> Seq<T>
    decreases s.len(),
{
    if s.len() == 0 {
        s
    } else {
        let p = first_occurrences(s.drop_last());
        if p.contains(s.last()) {
            p
        } else {
            p.push(s.last())
        }
    }
}

/// Membership after appending one element.
pub proof fn lemma_push_contains<T>(p: Seq<T>, l: T, x: T)
    ensures
        p.push(l).contains(x) <==> (p.contains(x) || x == l),
{
    if p.contains(x) {
        let i = choose|i: int| 0 <= i < p.len() && p[i] == x;
        assert(p.push(l)[i] == x);
    }
    if x == l {
        assert(p.push(l)[p.len() as int] == x);
    }
    if p.push(l).contains(x) && x != l {
        let i = choose|i: int| 0 <= i < p.len() + 1 && p.push(l)[i] == x;
        assert(p[i] == x);
    }
}

/// `first_occurrences` keeps exactly the elements of `s`, each once.
pub proof fn lemma_first_occurrences<T>(s: Seq<T>)
    ensures
        first_occurrences(s).no_duplicates(),
        forall|x: T| first_occurrences(s).contains(x) <==> s.contains(x),
        first_occurrences(s).len() <= s.len(),
    decreases s.len(),
{
    if s.len() > 0 {
        let d = s.drop_last();
        lemma_first_occurrences(d);
        let p = first_occurrences(d);
        assert(d.push(s.last()) =~= s);
        assert forall|x: T| first_occurrences(s).contains(x) <==> s.contains(x) by {
            lemma_push_contains(d, s.last(), x);
            lemma_push_contains(p, s.last(), x);
        }
        if !p.contains(s.last()) {
            let q = p.push(s.last());
            assert forall|i: int, j: int| 0 <= i < q.len() && 0 <= j < q.len() && i != j
                implies q[i] != q[j] by {
                if i < p.len() && j == p.len() {
                    assert(p.contains(p[i]));
                }
                if j < p.len() && i == p.len() {
                    assert(p.contains(p[j]));
                }
            }
        }
    }
}

/// Removing duplicates changes nothing once there are none.
pub proof fn lemma_first_occurrences_idempotent<T>(s: Seq<T>)
    requires
        s.no_duplicates(),
    ensures
        first_occurrences(s) == s,
    decreases s.len(),
{
    if s.len() > 0 {
        let d = s.drop_last();
        assert(d.no_duplicates());
        lemma_first_occurrences_idempotent(d);
        lemma_first_occurrences(d);
        assert(!d.contains(s.last()));
        assert(d.push(s.last()) =~= s);
    }
}

/// `first_occurrences` of `s` extended by one element.
pub proof fn lemma_first_occurrences_push<T>(s: Seq<T>, x: T)
    ensures
        first_occurrences(s.push(x)) == (if first_occurrences(s).contains(x) {
            first_occurrences(s)
        } else {
            first_occurrences(s).push(x)
        }),
{
    assert(s.push(x).drop_last() =~= s);
}

// ── stable insertion order ───────────────────────────────────────

/// `x` placed after every element `e` of `s` (scanning from the back) with `le(e, x)`.
pub open spec fn insert_by<T>(s: Seq<T>, x: T, le: spec_fn(T, T) -> bool) -> Seq<T>
    decreases s.len(),
{
    if s.len() == 0 || le(s.last(), x) {
        s.push(x)
    } else {
        insert_by(s.drop_last(), x, le).push(s.last())
    }
}

/// The stable sort of `s`: ordered by `le`, and elements that `le` ties keep their order.
pub open spec fn stable_sort<T>(s: Seq<T>, le: spec_fn(T, T) -> bool) -> Seq<T>
    decreases s.len(),
{
    if s.len() == 0 {
        s
    } else {
        insert_by(stable_sort(s.drop_last(), le), s.last(), le)
    }
}

/// `s` is ordered by `le`.
pub open spec fn is_sorted_by<T>(s: Seq<T>, le: spec_fn(T, T) -> bool) -> bool {
    forall|i: int, j: int| 0 <= i < j < s.len() ==> le(s[i], s[j])
}

/// `le` is a total preorder.
pub open spec fn total_preorder<T>(le: spec_fn(T, T) -> bool) -> bool {
    &&& forall|a: T, b: T| #[trigger] le(a, b) || le(b, a)
    &&& forall|a: T, b: T, c: T| #[trigger] le(a, b) && #[trigger] le(b, c) ==> le(a, c)
}

/// Inserting at the position an exclusive backward scan stops at.
pub proof fn lemma_insert_at<T>(s: Seq<T>, x: T, le: spec_fn(T, T) -> bool, pos: int)
    requires
        0 <= pos <= s.len(),
        pos == 0 || le(s[pos - 1], x),
        forall|k: int| pos <= k < s.len() ==> !le(#[trigger] s[k], x),
    ensures
        insert_by(s, x, le) == s.take(pos).push(x) + s.skip(pos),
    decreases s.len(),
{
    if pos == s.len() {
        assert(s.take(pos) =~= s);
        assert(s.take(pos).push(x) + s.skip(pos) =~= s.push(x));
    } else {
        assert(!le(s[s.len() - 1], x));
        lemma_insert_at(s.drop_last(), x, le, pos);
        assert(s.drop_last().take(pos) =~= s.take(pos));
        assert((s.take(pos).push(x) + s.drop_last().skip(pos)).push(s.last()) =~= s.take(
            pos,
        ).push(x) + s.skip(pos));
    }
}

/// Inserting adds exactly `x`.
pub proof fn lemma_insert_multiset<T>(s: Seq<T>, x: T, le: spec_fn(T, T) -> bool)
    ensures
        insert_by(s, x, le).to_multiset() == s.to_multiset().insert(x),
        insert_by(s, x, le).len() == s.len() + 1,
    decreases s.len(),
{
    if s.len() > 0 && !le(s.last(), x) {
        lemma_insert_multiset(s.drop_last(), x, le);
        assert(s.drop_last().push(s.last()) =~= s);
        assert(s.to_multiset() == s.drop_last().to_multiset().insert(s.last()));
        assert(s.to_multiset().insert(x) =~= s.drop_last().to_multiset().insert(x).insert(
            s.last(),
        ));
    }
}

/// A stable sort is a permutation.
pub proof fn lemma_stable_sort_multiset<T>(s: Seq<T>, le: spec_fn(T, T) -> bool)
    ensures
        stable_sort(s, le).to_multiset() == s.to_multiset(),
        stable_sort(s, le).len() == s.len(),
    decreases s.len(),
{
    if s.len() > 0 {
        lemma_stable_sort_multiset(s.drop_last(), le);
        lemma_insert_multiset(stable_sort(s.drop_last(), le), s.last(), le);
        assert(s.drop_last().push(s.last()) =~= s);
    }
}

proof fn lemma_multiset_contains<T>(a: Seq<T>, b: Seq<T>, y: T)
    requires
        a.to_multiset() == b.to_multiset(),
    ensures
        a.contains(y) <==> b.contains(y),
{
    a.to_multiset_ensures();
    b.to_multiset_ensures();
    assert(a.contains(y) <==> a.to_multiset().count(y) > 0);
    assert(b.contains(y) <==> b.to_multiset().count(y) > 0);
}

/// Inserting into a sorted sequence keeps it sorted.
pub proof fn lemma_insert_sorted<T>(s: Seq<T>, x: T, le: spec_fn(T, T) -> bool)
    requires
        total_preorder(le),
        is_sorted_by(s, le),
    ensures
        is_sorted_by(insert_by(s, x, le), le),
    decreases s.len(),
{
    if s.len() == 0 {
    } else if le(s.last(), x) {
        let r = s.push(x);
        assert forall|i: int, j: int| 0 <= i < j < r.len() implies le(r[i], r[j]) by {
            if j == s.len() && i < s.len() - 1 {
                assert(le(s[i], s[s.len() - 1]));
                assert(le(s[i], s[s.len() - 1]) && le(s[s.len() - 1], x));
            }
        }
    } else {
        let d = s.drop_last();
        assert(is_sorted_by(d, le));
        lemma_insert_sorted(d, x, le);
        let r0 = insert_by(d, x, le);
        lemma_insert_multiset(d, x, le);
        assert(le(x, s.last()) || le(s.last(), x));
        let r = r0.push(s.last());
        assert forall|i: int, j: int| 0 <= i < j < r.len() implies le(r[i], r[j]) by {
            if j == r0.len() {
                let y = r0[i];
                assert(r0.contains(y));
                assert(d.push(x).to_multiset() == d.to_multiset().insert(x));
                lemma_multiset_contains(r0, d.push(x), y);
                if y != x {
                    let k = choose|k: int| 0 <= k < d.push(x).len() && d.push(x)[k] == y;
                    assert(d[k] == y);
                    assert(le(s[k], s[s.len() - 1]));
                }
            }
        }
    }
}

/// A stable sort by a total preorder is sorted.
pub proof fn lemma_stable_sort_sorted<T>(s: Seq<T>, le: spec_fn(T, T) -> bool)
    requires
        total_preorder(le),
    ensures
        is_sorted_by(stable_sort(s, le), le),
    decreases s.len(),
{
    if s.len() > 0 {
        lemma_stable_sort_sorted(s.drop_last(), le);
        lemma_insert_sorted(stable_sort(s.drop_last(), le), s.last(), le);
    }
}

/// The filter of a prefix extended by one element.
pub proof fn lemma_filter_step<T>(s: Seq<T>, i: int, p: spec_fn(T) -> bool)
    requires
        0 <= i < s.len(),
    ensures
        s.take(i + 1).filter(p) == (if p(s[i]) {
            s.take(i).filter(p).push(s[i])
        } else {
            s.take(i).filter(p)
        }),
{
    reveal_with_fuel(Seq::filter, 1);
    assert(s.take(i + 1).drop_last() =~= s.take(i));
}

} // verus!
