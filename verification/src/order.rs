//! Stable insertion into an ordered sequence.
//!
//! The store returns its rows ordered (cards by creation time, todos by
//! their manual order, change rows newest first). The specification of that
//! ordering is a stable insertion sort: `sort_stable` inserts each element
//! after every element that may stay before it, so equal keys keep their
//! original relative order. The relation `stays(y, x)` reads "`y` may stay
//! before a newly inserted `x`".

use vstd::prelude::*;
use vstd::relations::sorted_by;
use vstd::multiset::Multiset;
use vstd::seq_lib::lemma_multiset_commutative;

verus! {

/// `x` inserted after the longest prefix of elements that stay before it.
pub open spec fn insert_by<T>(s: Seq<T>, x: T, stays: spec_fn(T, T) -> bool) -> Seq<T>
    decreases s.len(),
{
    if s.len() > 0 && stays(s[0], x) {
        seq![s[0]] + insert_by(s.drop_first(), x, stays)
    } else {
        seq![x] + s
    }
}

/// The whole sequence sorted by inserting its elements left to right.
pub open spec fn sort_stable<T>(s: Seq<T>, stays: spec_fn(T, T) -> bool) -> Seq<T>
    decreases s.len(),
{
    if s.len() == 0 {
        Seq::empty()
    } else {
        insert_by(sort_stable(s.drop_last(), stays), s.last(), stays)
    }
}

/// Inserting at the position the first non-staying element marks is exactly
/// what `insert_by` does.
pub proof fn lemma_insert_by_at<T>(s: Seq<T>, x: T, stays: spec_fn(T, T) -> bool, j: int)
    requires
        0 <= j <= s.len(),
        forall|k: int| 0 <= k < j ==> stays(#[trigger] s[k], x),
        j == s.len() || !stays(s[j], x),
    ensures
        insert_by(s, x, stays) == s.take(j) + seq![x] + s.skip(j),
    decreases j,
{
    if j == 0 {
        assert(s.take(0) + seq![x] + s.skip(0) =~= seq![x] + s);
    } else {
        assert(stays(s[0], x));
        let d = s.drop_first();
        assert forall|k: int| 0 <= k < j - 1 implies stays(#[trigger] d[k], x) by {
            assert(d[k] == s[k + 1]);
        }
        if j - 1 < d.len() {
            assert(d[j - 1] == s[j]);
        }
        lemma_insert_by_at(d, x, stays, j - 1);
        assert(seq![s[0]] + (d.take(j - 1) + seq![x] + d.skip(j - 1)) =~= s.take(j) + seq![x]
            + s.skip(j)) by {
            assert forall|m: int| 0 <= m < j implies (s.take(j) + seq![x] + s.skip(j))[m] == s[m] by {
                assert(s.take(j)[m] == s[m]);
            }
        }
    }
}

/// Inserting into a sorted sequence keeps it sorted, provided the relation
/// is total and transitive.
pub proof fn lemma_insert_by_sorted<T>(s: Seq<T>, x: T, stays: spec_fn(T, T) -> bool, j: int)
    requires
        0 <= j <= s.len(),
        forall|k: int| 0 <= k < j ==> stays(#[trigger] s[k], x),
        j == s.len() || !stays(s[j], x),
        sorted_by(s, stays),
        forall|a: T, b: T| #[trigger] stays(a, b) || #[trigger] stays(b, a),
        forall|a: T, b: T, c: T| #[trigger] stays(a, b) && #[trigger] stays(b, c) ==> stays(a, c),
    ensures
        sorted_by(insert_by(s, x, stays), stays),
{
    lemma_insert_by_at(s, x, stays, j);
    let r = s.take(j) + seq![x] + s.skip(j);
    assert forall|p: int, q: int| 0 <= p < q < r.len() implies stays(r[p], r[q]) by {
        if p < j {
            assert(r[p] == s[p]);
        } else if p == j {
            assert(r[p] == x);
        } else {
            assert(r[p] == s[p - 1]);
        }
        if q < j {
            assert(r[q] == s[q]);
        } else if q == j {
            assert(r[q] == x);
        } else {
            assert(r[q] == s[q - 1]);
        }
        if q > j {
            // x stays before every element from position j on.
            if j < s.len() {
                assert(stays(x, s[j]));
                if q - 1 > j {
                    assert(stays(s[j], s[q - 1]));
                }
            }
        }
    }
}

/// The position where an insertion scan stops: every earlier element
/// stays before `x`, and the element there, if any, does not.
pub proof fn first_stay_pos<T>(s: Seq<T>, x: T, stays: spec_fn(T, T) -> bool) -> (j: int)
    ensures
        0 <= j <= s.len(),
        forall|k: int| 0 <= k < j ==> stays(#[trigger] s[k], x),
        j == s.len() || !stays(s[j], x),
    decreases s.len(),
{
    if s.len() > 0 && stays(s[0], x) {
        let r = first_stay_pos(s.drop_first(), x, stays);
        assert forall|k: int| 0 <= k < r + 1 implies stays(#[trigger] s[k], x) by {
            if k > 0 {
                assert(s.drop_first()[k - 1] == s[k]);
            }
        }
        if r < s.drop_first().len() {
            assert(s.drop_first()[r] == s[r + 1]);
        }
        r + 1
    } else {
        0
    }
}

/// Sorting sorts, provided the relation is total and transitive.
pub proof fn lemma_sort_stable_sorted<T>(s: Seq<T>, stays: spec_fn(T, T) -> bool)
    requires
        forall|a: T, b: T| #[trigger] stays(a, b) || #[trigger] stays(b, a),
        forall|a: T, b: T, c: T| #[trigger] stays(a, b) && #[trigger] stays(b, c) ==> stays(a, c),
    ensures
        sorted_by(sort_stable(s, stays), stays),
    decreases s.len(),
{
    if s.len() > 0 {
        lemma_sort_stable_sorted(s.drop_last(), stays);
        let sorted = sort_stable(s.drop_last(), stays);
        let j = first_stay_pos(sorted, s.last(), stays);
        lemma_insert_by_sorted(sorted, s.last(), stays, j);
    }
}

/// `insert_by` adds exactly one occurrence of the inserted element.
pub proof fn lemma_insert_by_multiset<T>(s: Seq<T>, x: T, stays: spec_fn(T, T) -> bool)
    ensures
        insert_by(s, x, stays).to_multiset() == s.to_multiset().insert(x),
    decreases s.len(),
{
    broadcast use vstd::seq_lib::group_to_multiset_ensures;

    if s.len() > 0 && stays(s[0], x) {
        lemma_insert_by_multiset(s.drop_first(), x, stays);
        lemma_multiset_commutative(seq![s[0]], insert_by(s.drop_first(), x, stays));
        lemma_multiset_commutative(seq![s[0]], s.drop_first());
        assert(seq![s[0]] + s.drop_first() =~= s);
        assert(seq![s[0]].to_multiset() =~= Multiset::empty().insert(s[0])) by {
            assert(seq![s[0]] =~= Seq::empty().push(s[0]));
        }
        assert(insert_by(s, x, stays).to_multiset() =~= s.to_multiset().insert(x));
    } else {
        lemma_multiset_commutative(seq![x], s);
        assert(seq![x].to_multiset() =~= Multiset::empty().insert(x)) by {
            assert(seq![x] =~= Seq::empty().push(x));
        }
        assert(insert_by(s, x, stays).to_multiset() =~= s.to_multiset().insert(x));
    }
}

/// Sorting rearranges the elements and loses or invents none.
pub proof fn lemma_sort_stable_multiset<T>(s: Seq<T>, stays: spec_fn(T, T) -> bool)
    ensures
        sort_stable(s, stays).to_multiset() == s.to_multiset(),
    decreases s.len(),
{
    broadcast use vstd::seq_lib::group_to_multiset_ensures;

    if s.len() > 0 {
        lemma_sort_stable_multiset(s.drop_last(), stays);
        lemma_insert_by_multiset(sort_stable(s.drop_last(), stays), s.last(), stays);
        assert(s.drop_last().push(s.last()) =~= s);
        assert(sort_stable(s, stays).to_multiset() =~= s.to_multiset());
    }
}

/// A sorted sequence holds an element exactly when the unsorted one does.
pub proof fn lemma_sort_stable_contains<T>(s: Seq<T>, stays: spec_fn(T, T) -> bool, y: T)
    ensures
        sort_stable(s, stays).contains(y) <==> s.contains(y),
{
    broadcast use vstd::seq_lib::group_to_multiset_ensures;

    lemma_sort_stable_multiset(s, stays);
    assert(sort_stable(s, stays).contains(y) <==> sort_stable(s, stays).to_multiset().count(y) > 0);
    assert(s.contains(y) <==> s.to_multiset().count(y) > 0);
}

} // verus!
