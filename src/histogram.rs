//! Cumulative histogram of escape times, the basis of histogram equalisation.
//!
//! Entry `k` counts the cells whose escape time is at most `k`; divided by the
//! number of cells it is the fraction of the image at or below `k`.

use vstd::prelude::*;

verus! {

/// Number of values of `s` equal to `k`.
pub open spec fn count_eq(s: Seq<usize>, k: int) -> nat
    decreases s.len(),
{
    if s.len() == 0 {
        0
    } else {
        count_eq(s.drop_last(), k) + if s.last() as int == k {
            1nat
        } else {
            0nat
        }
    }
}

/// Number of values of `s` at most `k`.
pub open spec fn count_le(s: Seq<usize>, k: int) -> nat
    decreases s.len(),
{
    if s.len() == 0 {
        0
    } else {
        count_le(s.drop_last(), k) + if s.last() as int <= k {
            1nat
        } else {
            0nat
        }
    }
}

pub open spec fn all_at_most(s: Seq<usize>, max: int) -> bool {
    forall|i: int| 0 <= i < s.len() ==> s[i] as int <= max
}

proof fn lemma_counts_bounded(s: Seq<usize>, k: int)
    ensures
        count_eq(s, k) <= s.len(),
        count_le(s, k) <= s.len(),
    decreases s.len(),
{
    if s.len() > 0 {
        lemma_counts_bounded(s.drop_last(), k);
    }
}

proof fn lemma_count_le_step(s: Seq<usize>, k: int)
    ensures
        count_le(s, k) == count_le(s, k - 1) + count_eq(s, k),
    decreases s.len(),
{
    if s.len() > 0 {
        lemma_count_le_step(s.drop_last(), k);
    }
}

proof fn lemma_count_le_below_zero(s: Seq<usize>)
    ensures
        count_le(s, -1) == 0,
    decreases s.len(),
{
    if s.len() > 0 {
        lemma_count_le_below_zero(s.drop_last());
    }
}

proof fn lemma_count_le_monotonic(s: Seq<usize>, j: int, k: int)
    requires
        j <= k,
    ensures
        count_le(s, j) <= count_le(s, k),
    decreases s.len(),
{
    if s.len() > 0 {
        lemma_count_le_monotonic(s.drop_last(), j, k);
    }
}

proof fn lemma_count_le_all(s: Seq<usize>, max: int)
    requires
        all_at_most(s, max),
    ensures
        count_le(s, max) == s.len(),
    decreases s.len(),
{
    if s.len() > 0 {
        lemma_count_le_all(s.drop_last(), max);
    }
}

/// The cumulative histogram of values that are all at most `max` never
/// decreases, and its entry at `max` counts every value: normalised by the
/// number of values, it ends at exactly one.
pub proof fn lemma_cumulative_histogram(s: Seq<usize>, max: int)
    requires
        all_at_most(s, max),
    ensures
        forall|j: int, k: int| j <= k ==> count_le(s, j) <= count_le(s, k),
        count_le(s, max) == s.len(),
{
    assert forall|j: int, k: int| j <= k implies count_le(s, j) <= count_le(s, k) by {
        lemma_count_le_monotonic(s, j, k);
    }
    lemma_count_le_all(s, max);
}

/// Cumulative histogram of `values`: entry `k` (for `k` in `0..=max_iterations`)
/// counts the values at most `k`.
pub fn gen_histogram(values: &Vec<usize>, max_iterations: usize) -> (r: Vec<usize>)
    requires
        all_at_most(values@, max_iterations as int),
        max_iterations < usize::MAX,
    ensures
        r@.len() == max_iterations + 1,
        forall|k: int| 0 <= k <= max_iterations ==> r@[k] as nat == #[trigger] count_le(values@, k),
{
    let mut out: Vec<usize> = Vec::new();
    let mut k: usize = 0;
    while k <= max_iterations
        invariant
            k <= max_iterations + 1,
            max_iterations < usize::MAX,
            out@.len() == k,
            forall|j: int| 0 <= j < k ==> out@[j] == 0,
        decreases max_iterations + 1 - k,
    {
        out.push(0);
        k = k + 1;
    }
    let mut i: usize = 0;
    while i < values.len()
        invariant
            i <= values@.len(),
            all_at_most(values@, max_iterations as int),
            out@.len() == max_iterations + 1,
            forall|j: int|
                0 <= j <= max_iterations ==> out@[j] as nat == #[trigger] count_eq(
                    values@.take(i as int),
                    j,
                ),
        decreases values@.len() - i,
    {
        let v = values[i];
        proof {
            assert(values@.take(i as int + 1).drop_last() == values@.take(i as int));
            lemma_counts_bounded(values@.take(i as int), v as int);
        }
        let c = out[v];
        assert(c as nat == count_eq(values@.take(i as int), v as int));
        out.set(v, c + 1);
        proof {
            let prefix = values@.take(i as int + 1);
            assert(prefix.drop_last() == values@.take(i as int));
            assert(prefix.last() == v);
            assert forall|j: int| 0 <= j <= max_iterations implies out@[j] as nat == #[trigger] count_eq(
                prefix,
                j,
            ) by {
                assert(count_eq(prefix, j) == count_eq(values@.take(i as int), j) + if v as int == j {
                    1nat
                } else {
                    0nat
                });
            }
        }
        i = i + 1;
    }
    assert(values@.take(values@.len() as int) == values@);
    proof {
        lemma_count_le_below_zero(values@);
        lemma_count_le_step(values@, 0);
        assert forall|j: int| 0 <= j <= max_iterations implies out@[j] as nat == #[trigger] count_eq(
            values@,
            j,
        ) by {
            assert(out@[j] as nat == count_eq(values@.take(values@.len() as int), j));
        }
    }
    let n: usize = values.len();
    let mut k: usize = 1;
    while k <= max_iterations
        invariant
            1 <= k <= max_iterations + 1,
            n == values@.len(),
            max_iterations < usize::MAX,
            out@.len() == max_iterations + 1,
            forall|j: int| 0 <= j < k ==> out@[j] as nat == #[trigger] count_le(values@, j),
            forall|j: int| k <= j <= max_iterations ==> out@[j] as nat == #[trigger] count_eq(values@, j),
        decreases max_iterations + 1 - k,
    {
        proof {
            lemma_count_le_step(values@, k as int);
            lemma_counts_bounded(values@, k as int);
        }
        let prev = out[k - 1];
        let cur = out[k];
        assert(prev as nat == count_le(values@, k - 1));
        assert(cur as nat == count_eq(values@, k as int));
        out.set(k, prev + cur);
        k = k + 1;
    }
    out
}

} // verus!
