//! Aggregate statistics over the per-day activity records: quartiles by
//! nearest-rank indexing, current and longest streaks, and the high score.
use vstd::prelude::*;

use crate::RecView;
use crate::rec_views;
use crate::sorting::insert_sorted;
use crate::sorting::isort;
use crate::sorting::le_total;
use crate::sorting::le_transitive;
use crate::sorting::lemma_insert_sorted_split;
use crate::sorting::lemma_isort_of_sorted;
use crate::sorting::lemma_isort_multiset;
use crate::sorting::lemma_isort_sorted;
use crate::sorting::sorted_by_le;

verus! {

/// The ascending order on daily counts.
pub open spec fn u32_le() -> spec_fn(u32, u32) -> bool {
    |a: u32, b: u32| a <= b
}

pub proof fn lemma_u32_le_props()
    ensures
        le_total(u32_le()),
        le_transitive(u32_le()),
{
}

/// The element at `i`, or 0 when `i` is out of range.
pub open spec fn get_or_zero(s: Seq<u32>, i: int) -> u32 {
    if 0 <= i < s.len() {
        s[i]
    } else {
        0
    }
}

/// The five summary values `[min, Q1, Q2, Q3, max]`, read by nearest-rank
/// indexing (no interpolation) from the ascending sort of the counts.
pub open spec fn quartiles_of(counts: Seq<u32>) -> Seq<u32> {
    let t = isort(counts, u32_le());
    let n = t.len() as int;
    seq![
        get_or_zero(t, 0),
        get_or_zero(t, n / 4),
        get_or_zero(t, n / 2),
        get_or_zero(t, 3 * n / 4),
        get_or_zero(t, n - 1),
    ]
}

/// The counts of a record sequence, in the same order.
pub open spec fn counts_of(recs: Seq<RecView>) -> Seq<u32> {
    recs.map(|i: int, r: RecView| r.1)
}

/// Length of the run of positive counts ending at the most recent (last) day;
/// zero when the most recent day is inactive.
pub open spec fn current_streak_of(s: Seq<u32>) -> nat
    decreases s.len(),
{
    if s.len() == 0 || s.last() == 0 {
        0
    } else {
        1 + current_streak_of(s.drop_last())
    }
}

/// Length of the run of positive counts at the start of `s`.
pub open spec fn leading_active(s: Seq<u32>) -> nat
    decreases s.len(),
{
    if s.len() == 0 || s[0] == 0 {
        0
    } else {
        1 + leading_active(s.drop_first())
    }
}

/// Length of the longest run of consecutive positive counts anywhere in `s`.
pub open spec fn longest_streak_of(s: Seq<u32>) -> nat
    decreases s.len(),
{
    if s.len() == 0 {
        0
    } else {
        let rest = longest_streak_of(s.drop_first());
        if leading_active(s) >= rest {
            leading_active(s)
        } else {
            rest
        }
    }
}

/// The maximum count and the date of its first occurrence in a left-to-right
/// scan; `(0, "")` when no count is positive.
pub open spec fn high_score_of(recs: Seq<RecView>) -> (u32, Seq<char>)
    decreases recs.len(),
{
    if recs.len() == 0 {
        (0u32, Seq::<char>::empty())
    } else {
        let prev = high_score_of(recs.drop_last());
        if recs.last().1 > prev.0 {
            (recs.last().1, recs.last().0)
        } else {
            prev
        }
    }
}

/// The largest count in `s`, 0 when `s` is empty.
pub open spec fn max_count_of(s: Seq<u32>) -> u32
    decreases s.len(),
{
    if s.len() == 0 {
        0
    } else if s.last() >= max_count_of(s.drop_last()) {
        s.last()
    } else {
        max_count_of(s.drop_last())
    }
}

proof fn lemma_leading_active_bound(s: Seq<u32>)
    ensures
        leading_active(s) <= s.len(),
    decreases s.len(),
{
    if s.len() > 0 && s[0] != 0 {
        lemma_leading_active_bound(s.drop_first());
    }
}

proof fn lemma_longest_streak_bound(s: Seq<u32>)
    ensures
        longest_streak_of(s) <= s.len(),
    decreases s.len(),
{
    if s.len() > 0 {
        lemma_leading_active_bound(s);
        lemma_longest_streak_bound(s.drop_first());
    }
}

/// A wholly positive sequence is one single run.
proof fn lemma_all_positive_streak(s: Seq<u32>)
    requires
        forall|j: int| 0 <= j < s.len() ==> #[trigger] s[j] > 0,
    ensures
        current_streak_of(s) == s.len(),
        leading_active(s) == s.len(),
    decreases s.len(),
{
    if s.len() > 0 {
        assert(forall|j: int| 0 <= j < s.drop_last().len() ==> #[trigger] s.drop_last()[j] > 0);
        assert(forall|j: int| 0 <= j < s.drop_first().len() ==> #[trigger] s.drop_first()[j] > 0);
        lemma_all_positive_streak(s.drop_last());
        lemma_all_positive_streak(s.drop_first());
    }
}

/// When the last zero sits at index `i`, the current streak is exactly the
/// run of the `s.len() - 1 - i` positive days after it.
proof fn lemma_current_streak_after_zero(s: Seq<u32>, i: int)
    requires
        0 <= i < s.len(),
        s[i] == 0,
        forall|j: int| i < j < s.len() ==> #[trigger] s[j] > 0,
    ensures
        current_streak_of(s) == s.len() - 1 - i,
    decreases s.len(),
{
    if i == s.len() - 1 {
        assert(s.last() == 0);
    } else {
        assert(s.last() > 0);
        assert(s.drop_last()[i] == 0);
        assert(forall|j: int| i < j < s.drop_last().len() ==> #[trigger] s.drop_last()[j] > 0);
        lemma_current_streak_after_zero(s.drop_last(), i);
    }
}

/// Sorted counts produce their quartiles by direct indexing: the sort is the
/// identity there, so re-deriving quartiles from an already-sorted sequence
/// yields the same five values as any earlier derivation of it.
pub proof fn lemma_quartiles_idempotent(s: Seq<u32>)
    requires
        sorted_by_le(s, u32_le()),
    ensures
        isort(s, u32_le()) == s,
        quartiles_of(isort(s, u32_le())) == quartiles_of(s),
{
    lemma_isort_of_sorted(s, u32_le());
}

/// The five quartile values are themselves non-decreasing.
pub proof fn lemma_quartiles_nondecreasing(s: Seq<u32>)
    ensures
        quartiles_of(s).len() == 5,
        sorted_by_le(quartiles_of(s), u32_le()),
{
    lemma_u32_le_props();
    lemma_isort_sorted(s, u32_le());
    lemma_isort_multiset(s, u32_le());
    let t = isort(s, u32_le());
    let n = t.len() as int;
    let q = quartiles_of(s);
    if n > 0 {
        assert(0 <= n / 4 < n);
        assert(n / 4 <= n / 2 < n);
        assert(n / 2 <= 3 * n / 4 < n);
        assert(3 * n / 4 <= n - 1);
        assert(u32_le()(q[0], q[1]));
        assert(u32_le()(q[1], q[2]));
        assert(u32_le()(q[2], q[3]));
        assert(u32_le()(q[3], q[4]));
        assert forall|i: int, j: int| 0 <= i <= j < q.len() implies u32_le()(q[i], q[j]) by {
            assert(q[i] <= q[j]);
        }
    } else {
        assert forall|i: int, j: int| 0 <= i <= j < q.len() implies u32_le()(q[i], q[j]) by {
            assert(q[i] == 0 && q[j] == 0);
        }
    }
}

/// Copy the counts out of a record sequence.
pub fn counts_vec(daily: &Vec<(String, u32, String)>) -> (r: Vec<u32>)
    ensures
        r@ == counts_of(rec_views(daily@)),
{
    let mut r: Vec<u32> = Vec::new();
    let n = daily.len();
    let mut i: usize = 0;
    while i < n
        invariant
            i <= n,
            n == daily@.len(),
            r@ =~= counts_of(rec_views(daily@)).take(i as int),
        decreases n - i,
    {
        r.push(daily[i].1);
        proof {
            assert(r@ =~= counts_of(rec_views(daily@)).take(i + 1));
        }
        i = i + 1;
    }
    proof {
        assert(r@ =~= counts_of(rec_views(daily@)));
    }
    r
}

/// Ascending sort of a count vector.
fn sort_counts(v: &Vec<u32>) -> (r: Vec<u32>)
    ensures
        r@ == isort(v@, u32_le()),
{
    let mut out: Vec<u32> = Vec::new();
    let n = v.len();
    let mut i: usize = 0;
    proof {
        assert(v@.take(0) =~= Seq::<u32>::empty());
    }
    while i < n
        invariant
            i <= n,
            n == v@.len(),
            out@ == isort(v@.take(i as int), u32_le()),
        decreases n - i,
    {
        let x = v[i];
        let mut k: usize = out.len();
        while k > 0 && out[k - 1] > x
            invariant
                k <= out@.len(),
                forall|j: int| k <= j < out@.len() ==> !u32_le()(#[trigger] out@[j], x),
            decreases k,
        {
            k = k - 1;
        }
        let ghost pre = out@;
        out.insert(k, x);
        proof {
            lemma_insert_sorted_split(pre, x, u32_le(), k as int);
            assert(out@ =~= pre.take(k as int) + seq![x] + pre.skip(k as int));
            assert(out@ == insert_sorted(pre, x, u32_le()));
            assert(v@.take(i + 1).drop_last() =~= v@.take(i as int));
            assert(v@.take(i + 1).last() == x);
            assert(out@ == isort(v@.take(i + 1), u32_le()));
        }
        i = i + 1;
    }
    proof {
        assert(v@.take(n as int) =~= v@);
    }
    out
}

/// Quartiles of a count vector: `[min, Q1, Q2, Q3, max]` by nearest-rank
/// indexing into the ascending sort, 0 for indices of an empty vector.
pub fn compute_quartiles(counts: &Vec<u32>) -> (q: [u32; 5])
    ensures
        q@ == quartiles_of(counts@),
{
    let sorted = sort_counts(counts);
    let n = sorted.len();
    let q0 = if n > 0 { sorted[0] } else { 0 };
    let q1 = if n / 4 < n { sorted[n / 4] } else { 0 };
    let q2 = if n / 2 < n { sorted[n / 2] } else { 0 };
    // 3n/4 computed without overflowing: 3n/4 == 3(n/4) + 3(n%4)/4
    let q3i = 3 * (n / 4) + (3 * (n % 4)) / 4;
    proof {
        vstd::arithmetic::div_mod::lemma_fundamental_div_mod(n as int, 4);
        let qq = n as int / 4;
        let rr = n as int % 4;
        if rr == 0 {
            assert((3 * (n as int)) / 4 == 3 * qq + (3 * rr) / 4);
        } else if rr == 1 {
            assert((3 * (n as int)) / 4 == 3 * qq + (3 * rr) / 4);
        } else if rr == 2 {
            assert((3 * (n as int)) / 4 == 3 * qq + (3 * rr) / 4);
        } else {
            assert((3 * (n as int)) / 4 == 3 * qq + (3 * rr) / 4);
        }
        assert(q3i == (3 * (n as int)) / 4);
    }
    let q3 = if q3i < n { sorted[q3i] } else { 0 };
    let q4 = if n > 0 { sorted[n - 1] } else { 0 };
    let q: [u32; 5] = [q0, q1, q2, q3, q4];
    proof {
        assert(q@ =~= quartiles_of(counts@));
    }
    q
}

/// Current and longest streak of a chronologically ordered count sequence,
/// scanned most-recent first.
pub fn compute_streaks(counts: &Vec<u32>) -> (r: (u32, u32))
    requires
        counts@.len() <= u32::MAX,
    ensures
        r.0 == current_streak_of(counts@),
        r.1 == longest_streak_of(counts@),
{
    let n = counts.len();
    let mut i: usize = n;
    let mut streak: u32 = 0;
    let mut longest: u32 = 0;
    let mut current: u32 = 0;
    let mut captured: bool = false;
    proof {
        assert(counts@.skip(n as int) =~= Seq::<u32>::empty());
    }
    while i > 0
        invariant
            i <= n,
            n == counts@.len(),
            n <= u32::MAX,
            streak == leading_active(counts@.skip(i as int)),
            streak <= n - i,
            longest == longest_streak_of(counts@.skip(i as int)),
            longest <= n - i,
            captured <==> exists|j: int| i <= j < n && counts@[j] == 0,
            captured ==> current == current_streak_of(counts@),
            !captured ==> current == 0,
        decreases i,
    {
        i = i - 1;
        let c = counts[i];
        proof {
            assert(counts@.skip(i as int).drop_first() =~= counts@.skip(i + 1));
            assert(counts@.skip(i as int)[0] == counts@[i as int]);
        }
        if c > 0 {
            streak = streak + 1;
            if streak > longest {
                longest = streak;
            }
            proof {
                assert(leading_active(counts@.skip(i as int)) == 1 + leading_active(
                    counts@.skip(i + 1),
                ));
                if captured {
                    assert(exists|j: int| i <= j < n && counts@[j] == 0);
                    let j = choose|j: int| i <= j < n && counts@[j] == 0;
                    assert(i + 1 <= j < n);
                }
            }
        } else {
            proof {
                assert(counts@[i as int] == 0);
                if !captured {
                    assert(forall|j: int| i < j < n ==> #[trigger] counts@[j] > 0) by {
                        assert(forall|j: int| i + 1 <= j < n ==> counts@[j] != 0);
                    }
                    lemma_current_streak_after_zero(counts@, i as int);
                    assert(forall|j: int|
                        0 <= j < counts@.skip(i + 1).len() ==> #[trigger] counts@.skip(i + 1)[j]
                            > 0);
                    lemma_all_positive_streak(counts@.skip(i + 1));
                    assert(streak == n - 1 - i);
                }
                assert(leading_active(counts@.skip(i as int)) == 0);
            }
            if !captured {
                current = streak;
                captured = true;
            }
            streak = 0;
        }
        proof {
            assert(longest_streak_of(counts@.skip(i as int)) == if leading_active(
                counts@.skip(i as int),
            ) >= longest_streak_of(counts@.skip(i + 1)) {
                leading_active(counts@.skip(i as int))
            } else {
                longest_streak_of(counts@.skip(i + 1))
            });
            lemma_leading_active_bound(counts@.skip(i as int));
            lemma_longest_streak_bound(counts@.skip(i as int));
        }
    }
    proof {
        assert(counts@.skip(0) =~= counts@);
        if !captured {
            assert(forall|j: int| 0 <= j < n ==> #[trigger] counts@[j] > 0) by {
                assert(forall|j: int| 0 <= j < n ==> counts@[j] != 0);
            }
            lemma_all_positive_streak(counts@);
        }
    }
    if !captured {
        current = streak;
    }
    (current, longest)
}

/// Stable ascending sort of records by their date string; equal dates keep
/// their relative order.
pub fn sort_records(v: Vec<(String, u32, String)>) -> (r: Vec<(String, u32, String)>)
    ensures
        rec_views(r@) == isort(rec_views(v@), crate::date_le()),
{
    let ghost le = crate::date_le();
    let mut out: Vec<(String, u32, String)> = Vec::new();
    let n = v.len();
    let mut i: usize = 0;
    proof {
        assert(rec_views(out@) =~= Seq::<RecView>::empty());
        assert(rec_views(v@).take(0) =~= Seq::<RecView>::empty());
    }
    while i < n
        invariant
            i <= n,
            n == v@.len(),
            le == crate::date_le(),
            out@.len() == i,
            rec_views(out@) == isort(rec_views(v@).take(i as int), le),
        decreases n - i,
    {
        let x = (v[i].0.clone(), v[i].1, v[i].2.clone());
        let ghost xv = rec_views(v@)[i as int];
        proof {
            assert((x.0@, x.1, x.2@) == xv);
        }
        let mut k: usize = out.len();
        while k > 0 && !crate::text::str_le(out[k - 1].0.as_str(), x.0.as_str())
            invariant
                k <= out@.len(),
                le == crate::date_le(),
                (x.0@, x.1, x.2@) == xv,
                forall|j: int|
                    k <= j < out@.len() ==> !le(#[trigger] rec_views(out@)[j], xv),
            decreases k,
        {
            proof {
                assert(rec_views(out@)[k - 1].0 == out@[k - 1].0@);
            }
            k = k - 1;
        }
        let ghost pre = rec_views(out@);
        proof {
            if k > 0 {
                assert(le(pre[k - 1], xv));
            }
        }
        out.insert(k, x);
        proof {
            lemma_insert_sorted_split(pre, xv, le, k as int);
            assert(rec_views(out@) =~~= pre.take(k as int) + seq![xv] + pre.skip(k as int));
            assert(rec_views(out@) == insert_sorted(pre, xv, le));
            assert(rec_views(v@).take(i + 1).drop_last() =~= rec_views(v@).take(i as int));
            assert(rec_views(v@).take(i + 1).last() == xv);
            assert(rec_views(out@) == isort(rec_views(v@).take(i + 1), le));
        }
        i = i + 1;
    }
    proof {
        assert(rec_views(v@).take(n as int) =~= rec_views(v@));
    }
    out
}

/// The largest count in a vector, 0 when it is empty.
pub fn compute_max_count(counts: &Vec<u32>) -> (r: u32)
    ensures
        r == max_count_of(counts@),
{
    let mut r: u32 = 0;
    let n = counts.len();
    let mut i: usize = 0;
    proof {
        assert(counts@.take(0) =~= Seq::<u32>::empty());
    }
    while i < n
        invariant
            i <= n,
            n == counts@.len(),
            r == max_count_of(counts@.take(i as int)),
        decreases n - i,
    {
        let c = counts[i];
        proof {
            assert(counts@.take(i + 1).drop_last() =~= counts@.take(i as int));
            assert(counts@.take(i + 1).last() == counts@[i as int]);
        }
        if c > r {
            r = c;
        }
        i = i + 1;
    }
    proof {
        assert(counts@.take(n as int) =~= counts@);
    }
    r
}

} // verus!
