//! A stable insertion sort, specified as a recursive function so that
//! callers' contracts pin the sorted sequence down exactly, including the
//! relative order of elements that compare equal.
use vstd::prelude::*;

verus! {

/// Pairwise sortedness under `le`.
pub open spec fn sorted_by_le<T>(s: Seq<T>, le: spec_fn(T, T) -> bool) -> bool {
    forall|i: int, j: int| #![trigger s[i], s[j]] 0 <= i <= j < s.len() ==> le(s[i], s[j])
}

/// `le` holds of at least one side of every pair.
pub open spec fn le_total<T>(le: spec_fn(T, T) -> bool) -> bool {
    forall|a: T, b: T| #[trigger] le(a, b) || #[trigger] le(b, a)
}

pub open spec fn le_transitive<T>(le: spec_fn(T, T) -> bool) -> bool {
    forall|a: T, b: T, c: T| #[trigger] le(a, b) && #[trigger] le(b, c) ==> le(a, c)
}

/// Insert `x` into `s` just after the last element `e` with `le(e, x)`.
pub open spec fn insert_sorted<T>(s: Seq<T>, x: T, le: spec_fn(T, T) -> bool) -> Seq<T>
    decreases s.len(),
{
    if s.len() > 0 && !le(s.last(), x) {
        insert_sorted(s.drop_last(), x, le).push(s.last())
    } else {
        s.push(x)
    }
}

/// Stable insertion sort of `s` under `le`.
pub open spec fn isort<T>(s: Seq<T>, le: spec_fn(T, T) -> bool) -> Seq<T>
    decreases s.len(),
{
    if s.len() == 0 {
        Seq::empty()
    } else {
        insert_sorted(isort(s.drop_last(), le), s.last(), le)
    }
}

pub proof fn lemma_insert_sorted_elems<T>(s: Seq<T>, x: T, le: spec_fn(T, T) -> bool)
    ensures
        insert_sorted(s, x, le).len() == s.len() + 1,
        forall|e: T|
            #[trigger] insert_sorted(s, x, le).contains(e) <==> (s.contains(e) || e == x),
    decreases s.len(),
{
    if s.len() > 0 && !le(s.last(), x) {
        lemma_insert_sorted_elems(s.drop_last(), x, le);
        let r = insert_sorted(s.drop_last(), x, le).push(s.last());
        assert forall|e: T| r.contains(e) implies (s.contains(e) || e == x) by {
            if insert_sorted(s.drop_last(), x, le).contains(e) {
                if s.drop_last().contains(e) {
                    let i = choose|i: int|
                        0 <= i < s.drop_last().len() && s.drop_last()[i] == e;
                    assert(s[i] == e);
                } else {
                }
            } else {
                assert(e == s.last());
                assert(s[s.len() - 1] == e);
            }
        }
        assert forall|e: T| (s.contains(e) || e == x) implies r.contains(e) by {
            if e == x {
                assert(insert_sorted(s.drop_last(), x, le).contains(e));
                let i = choose|i: int|
                    0 <= i < insert_sorted(s.drop_last(), x, le).len() && insert_sorted(
                        s.drop_last(),
                        x,
                        le,
                    )[i] == e;
                assert(r[i] == e);
            } else if s.contains(e) {
                let i = choose|i: int| 0 <= i < s.len() && s[i] == e;
                if i < s.len() - 1 {
                    assert(s.drop_last()[i] == e);
                    assert(insert_sorted(s.drop_last(), x, le).contains(e));
                    let j = choose|j: int|
                        0 <= j < insert_sorted(s.drop_last(), x, le).len() && insert_sorted(
                            s.drop_last(),
                            x,
                            le,
                        )[j] == e;
                    assert(r[j] == e);
                } else {
                    assert(r.last() == e);
                    assert(r[r.len() - 1] == e);
                }
            }
        }
    } else {
        let r = s.push(x);
        assert forall|e: T| r.contains(e) implies (s.contains(e) || e == x) by {
            let i = choose|i: int| 0 <= i < r.len() && r[i] == e;
            if i < s.len() {
                assert(s[i] == e);
            }
        }
        assert forall|e: T| (s.contains(e) || e == x) implies r.contains(e) by {
            if e == x {
                assert(r[r.len() - 1] == e);
            } else {
                let i = choose|i: int| 0 <= i < s.len() && s[i] == e;
                assert(r[i] == e);
            }
        }
    }
}

pub proof fn lemma_insert_sorted_sorted<T>(s: Seq<T>, x: T, le: spec_fn(T, T) -> bool)
    requires
        sorted_by_le(s, le),
        le_total(le),
        le_transitive(le),
    ensures
        sorted_by_le(insert_sorted(s, x, le), le),
    decreases s.len(),
{
    if s.len() > 0 && !le(s.last(), x) {
        assert(sorted_by_le(s.drop_last(), le));
        lemma_insert_sorted_sorted(s.drop_last(), x, le);
        lemma_insert_sorted_elems(s.drop_last(), x, le);
        let inner = insert_sorted(s.drop_last(), x, le);
        let r = inner.push(s.last());
        assert forall|i: int, j: int| 0 <= i <= j < r.len() implies le(r[i], r[j]) by {
            if j < r.len() - 1 {
                assert(le(inner[i], inner[j]));
            } else if i < r.len() - 1 {
                // every element of `inner` is `le` the appended former last
                assert(inner.contains(inner[i]));
                if s.drop_last().contains(inner[i]) {
                    let k = choose|k: int|
                        0 <= k < s.drop_last().len() && s.drop_last()[k] == inner[i];
                    assert(s[k] == inner[i]);
                    assert(le(s[k], s[s.len() - 1]));
                } else {
                    assert(inner[i] == x);
                    assert(le(x, s.last()));
                }
            } else {
                assert(le(s.last(), s.last()));
            }
        }
    } else {
        let r = s.push(x);
        assert forall|i: int, j: int| 0 <= i <= j < r.len() implies le(r[i], r[j]) by {
            if j < r.len() - 1 {
                assert(le(s[i], s[j]));
            } else if i < r.len() - 1 {
                // s is empty or its last element is `le(_, x)`
                assert(le(s[i], s[s.len() - 1]));
                assert(le(s.last(), x));
            } else {
                assert(le(x, x));
            }
        }
    }
}

pub proof fn lemma_insert_sorted_multiset<T>(s: Seq<T>, x: T, le: spec_fn(T, T) -> bool)
    ensures
        insert_sorted(s, x, le).to_multiset() =~= s.to_multiset().insert(x),
    decreases s.len(),
{
    broadcast use vstd::seq_lib::group_to_multiset_ensures;

    if s.len() > 0 && !le(s.last(), x) {
        lemma_insert_sorted_multiset(s.drop_last(), x, le);
        assert(s.drop_last().push(s.last()) =~= s);
        assert(s.drop_last().push(s.last()).to_multiset() =~= s.drop_last().to_multiset().insert(
            s.last(),
        ));
    }
}

pub proof fn lemma_isort_multiset<T>(s: Seq<T>, le: spec_fn(T, T) -> bool)
    ensures
        isort(s, le).to_multiset() =~= s.to_multiset(),
        isort(s, le).len() == s.len(),
    decreases s.len(),
{
    broadcast use vstd::seq_lib::group_to_multiset_ensures;

    if s.len() == 0 {
    } else {
        lemma_isort_multiset(s.drop_last(), le);
        lemma_insert_sorted_multiset(isort(s.drop_last(), le), s.last(), le);
        lemma_insert_sorted_elems(isort(s.drop_last(), le), s.last(), le);
        assert(s.drop_last().push(s.last()) =~= s);
        assert(s.drop_last().push(s.last()).to_multiset() =~= s.drop_last().to_multiset().insert(
            s.last(),
        ));
    }
}

pub proof fn lemma_isort_sorted<T>(s: Seq<T>, le: spec_fn(T, T) -> bool)
    requires
        le_total(le),
        le_transitive(le),
    ensures
        sorted_by_le(isort(s, le), le),
    decreases s.len(),
{
    if s.len() > 0 {
        lemma_isort_sorted(s.drop_last(), le);
        lemma_insert_sorted_sorted(isort(s.drop_last(), le), s.last(), le);
    }
}

/// Sorting an already-sorted sequence leaves it unchanged.
pub proof fn lemma_isort_of_sorted<T>(s: Seq<T>, le: spec_fn(T, T) -> bool)
    requires
        sorted_by_le(s, le),
    ensures
        isort(s, le) == s,
    decreases s.len(),
{
    if s.len() > 0 {
        assert(sorted_by_le(s.drop_last(), le));
        lemma_isort_of_sorted(s.drop_last(), le);
        if s.len() >= 2 {
            assert(le(s[s.len() - 2], s[s.len() - 1]));
        }
        assert(insert_sorted(s.drop_last(), s.last(), le) == s.drop_last().push(s.last()));
        assert(s.drop_last().push(s.last()) =~= s);
    }
}

/// Where `insert_sorted` places the new element: at any position `k` whose
/// left neighbour satisfies `le(_, x)` and whose suffix does not.
pub proof fn lemma_insert_sorted_split<T>(s: Seq<T>, x: T, le: spec_fn(T, T) -> bool, k: int)
    requires
        0 <= k <= s.len(),
        k == 0 || le(s[k - 1], x),
        forall|j: int| k <= j < s.len() ==> !le(#[trigger] s[j], x),
    ensures
        insert_sorted(s, x, le) =~= s.take(k) + seq![x] + s.skip(k),
    decreases s.len(),
{
    if s.len() > 0 && !le(s.last(), x) {
        assert(k < s.len()) by {
            if k == s.len() {
                assert(le(s[k - 1], x));
            }
        }
        lemma_insert_sorted_split(s.drop_last(), x, le, k);
        assert(s.drop_last().take(k) =~= s.take(k));
        assert(insert_sorted(s, x, le) =~= (s.take(k) + seq![x] + s.drop_last().skip(k)).push(
            s.last(),
        ));
        assert((s.take(k) + seq![x] + s.drop_last().skip(k)).push(s.last()) =~= s.take(k)
            + seq![x] + s.skip(k));
    } else {
        assert(k == s.len()) by {
            if k < s.len() {
                assert(!le(s[s.len() - 1], x));
            }
        }
        assert(s.push(x) =~= s.take(k) + seq![x] + s.skip(k));
    }
}

} // verus!
