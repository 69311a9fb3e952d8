//! Coin selection: pick a subset of UTXO values that covers a payment.
//!
//! An exact match (no change output) is searched with a 0/1 knapsack table;
//! when none exists, or the target is too large for the table, the coins are
//! spent largest first until the target is covered.
use vstd::prelude::*;

verus! {

/// 10 million satoshis (0.1 BTC). The knapsack table has one `i32` cell per
/// satoshi up to the target; above this target the table is not built.
pub const MAX_DP_TARGET: u64 = 10_000_000;

/// Sum of all values.
pub open spec fn total(values: Seq<u64>) -> nat
    decreases values.len(),
{
    if values.len() == 0 {
        0
    } else {
        total(values.drop_last()) + values.last() as nat
    }
}

/// Sum of the values that the indices in `sel` pick out of `values`.
pub open spec fn picked_sum(values: Seq<u64>, sel: Seq<usize>) -> nat
    decreases sel.len(),
{
    if sel.len() == 0 {
        0
    } else {
        picked_sum(values, sel.drop_last()) + values[sel.last() as int] as nat
    }
}

/// `sel` names coins of `values`, each at most once.
pub open spec fn is_selection(values: Seq<u64>, sel: Seq<usize>) -> bool {
    &&& forall|j: int| 0 <= j < sel.len() ==> #[trigger] sel[j] < values.len()
    &&& sel.no_duplicates()
}

/// Some set of coins sums to exactly `target`.
pub open spec fn exact_selection_exists(values: Seq<u64>, target: u64) -> bool {
    exists|sel: Seq<usize>| is_selection(values, sel) && #[trigger] picked_sum(values, sel) == target
}

/// Coin `x` is spent before coin `y` in largest-first order: larger value
/// first, equal values in the order they came in.
pub open spec fn ranks_before(values: Seq<u64>, x: usize, y: usize) -> bool {
    values[x as int] > values[y as int] || (values[x as int] == values[y as int] && x < y)
}

/// `order` lists every coin index exactly once, largest value first, equal
/// values by ascending index (a stable sort by descending value).
pub open spec fn is_largest_first_order(values: Seq<u64>, order: Seq<usize>) -> bool {
    &&& order.len() == values.len()
    &&& is_selection(values, order)
    &&& forall|a: int, b: int|
        0 <= a < b < order.len() ==> ranks_before(values, #[trigger] order[a], #[trigger] order[b])
}

/// Number of leading values that are taken until their running sum reaches
/// `target` (all of them if it never does). At least one value is taken
/// from a non-empty sequence.
pub open spec fn cover_len(s: Seq<u64>, target: int) -> nat
    decreases s.len(),
{
    if s.len() == 0 {
        0
    } else if s[0] >= target {
        1
    } else {
        1 + cover_len(s.drop_first(), target - s[0])
    }
}

/// The values that `order` visits, in that order.
pub open spec fn values_in_order(values: Seq<u64>, order: Seq<usize>) -> Seq<u64> {
    order.map_values(|i: usize| values[i as int])
}

// ---------------------------------------------------------------------------
// Lemmas on sums of picked coins
// ---------------------------------------------------------------------------

/// Two selections that pick equal values position by position have equal sums.
proof fn lemma_picked_sum_pointwise(a: Seq<u64>, s1: Seq<usize>, b: Seq<u64>, s2: Seq<usize>)
    requires
        s1.len() == s2.len(),
        forall|j: int| 0 <= j < s1.len() ==> a[#[trigger] s1[j] as int] == b[s2[j] as int],
    ensures
        picked_sum(a, s1) == picked_sum(b, s2),
    decreases s1.len(),
{
    if s1.len() > 0 {
        lemma_picked_sum_pointwise(a, s1.drop_last(), b, s2.drop_last());
    }
}

/// The sum of a sequence equals the sum of what a selection picks, when the
/// sequence lists exactly the picked values.
proof fn lemma_total_is_picked_sum(s: Seq<u64>, values: Seq<u64>, sel: Seq<usize>)
    requires
        s.len() == sel.len(),
        forall|j: int| 0 <= j < s.len() ==> s[j] == values[#[trigger] sel[j] as int],
    ensures
        total(s) == picked_sum(values, sel),
    decreases s.len(),
{
    if s.len() > 0 {
        lemma_total_is_picked_sum(s.drop_last(), values, sel.drop_last());
    }
}

/// Removing one entry of a selection removes its value from the sum.
proof fn lemma_picked_sum_remove(values: Seq<u64>, sel: Seq<usize>, j: int)
    requires
        0 <= j < sel.len(),
    ensures
        picked_sum(values, sel) == picked_sum(values, sel.remove(j)) + values[sel[j] as int] as nat,
    decreases sel.len(),
{
    if j == sel.len() - 1 {
        assert(sel.remove(j) =~= sel.drop_last());
    } else {
        lemma_picked_sum_remove(values, sel.drop_last(), j);
        assert(sel.remove(j).drop_last() =~= sel.drop_last().remove(j));
        assert(sel.remove(j).last() == sel.last());
    }
}

/// The sum of a prefix never exceeds the sum of the whole sequence.
proof fn lemma_total_prefix(s: Seq<u64>, k: int)
    requires
        0 <= k <= s.len(),
    ensures
        total(s.take(k)) <= total(s),
    decreases s.len(),
{
    if k < s.len() {
        assert(s.drop_last().take(k) =~= s.take(k));
        lemma_total_prefix(s.drop_last(), k);
    } else {
        assert(s.take(k) =~= s);
    }
}

/// Summing a sequence front to back: the first value plus the rest.
proof fn lemma_total_first(s: Seq<u64>)
    requires
        s.len() > 0,
    ensures
        total(s) == s[0] as nat + total(s.drop_first()),
    decreases s.len(),
{
    if s.len() > 1 {
        lemma_total_first(s.drop_last());
        assert(s.drop_last().drop_first() =~= s.drop_first().drop_last());
        assert(s.drop_first().last() == s.last());
        assert(total(s.drop_first()) == total(s.drop_first().drop_last()) + s.last() as nat);
    } else {
        assert(s.drop_first().len() == 0);
        assert(s.drop_last().len() == 0);
        assert(total(s) == total(s.drop_last()) + s.last() as nat);
    }
}

/// Taking one more value adds it to the prefix sum.
proof fn lemma_total_take_next(s: Seq<u64>, i: int)
    requires
        0 <= i < s.len(),
    ensures
        total(s.take(i + 1)) == total(s.take(i)) + s[i] as nat,
{
    assert(s.take(i + 1).drop_last() =~= s.take(i));
}

/// The values taken by `cover_len` reach the target whenever all values do.
proof fn lemma_cover_len_reaches(s: Seq<u64>, target: int)
    requires
        total(s) >= target,
        target > 0,
    ensures
        cover_len(s, target) <= s.len(),
        total(s.take(cover_len(s, target) as int)) >= target,
    decreases s.len(),
{
    lemma_total_first(s);
    if s[0] >= target {
        assert(s.take(1).drop_last() =~= Seq::<u64>::empty());
    } else {
        let rest = s.drop_first();
        lemma_cover_len_reaches(rest, target - s[0]);
        let k = cover_len(rest, target - s[0]) as int;
        lemma_total_first(s.take(k + 1));
        assert(s.take(k + 1).drop_first() =~= rest.take(k));
    }
}

/// Largest-first selection takes the shortest prefix that covers the
/// target: it takes at least one value when there is one, it stops early
/// only once the taken values reach the target, and the values before the
/// last one taken fall short of it (so no value is spent once the target
/// is covered).
pub proof fn lemma_cover_len_shortest_covering(s: Seq<u64>, target: int)
    ensures
        cover_len(s, target) <= s.len(),
        s.len() > 0 ==> cover_len(s, target) >= 1,
        cover_len(s, target) < s.len() ==> total(s.take(cover_len(s, target) as int)) >= target,
        cover_len(s, target) >= 2 ==> total(s.take(cover_len(s, target) - 1)) < target,
    decreases s.len(),
{
    if s.len() > 0 {
        lemma_total_take_next(s, 0);
        assert(s.take(0) =~= Seq::<u64>::empty());
        if s[0] < target {
            let rest = s.drop_first();
            let t = target - s[0];
            lemma_cover_len_shortest_covering(rest, t);
            let k = cover_len(rest, t) as int;
            if k >= 1 {
                lemma_total_first(s.take(k + 1));
                assert(s.take(k + 1).drop_first() =~= rest.take(k));
                assert(s.take(k + 1)[0] == s[0]);
                if k >= 2 {
                    lemma_total_first(s.take(k));
                    assert(s.take(k).drop_first() =~= rest.take(k - 1));
                    assert(s.take(k)[0] == s[0]);
                }
            }
        }
    }
}

// ---------------------------------------------------------------------------
// Permutations
// ---------------------------------------------------------------------------

/// Every index below `n` occurs in `order`.
pub open spec fn covers(order: Seq<usize>, n: int) -> bool {
    forall|v: usize| (v as int) < n ==> #[trigger] order.contains(v)
}

/// Position of coin `x` in `order`.
spec fn position(order: Seq<usize>, x: usize) -> int {
    choose|p: int| 0 <= p < order.len() && order[p] == x
}

/// Visiting every coin once, in any order, sums to the total.
proof fn lemma_permutation_total(values: Seq<u64>, order: Seq<usize>)
    requires
        order.len() == values.len(),
        values.len() <= usize::MAX,
        is_selection(values, order),
        covers(order, values.len() as int),
    ensures
        picked_sum(values, order) == total(values),
    decreases values.len(),
{
    let n = values.len() as int;
    if n > 0 {
        assert(order.contains((n - 1) as usize));
        let p = choose|p: int| 0 <= p < order.len() && order[p] == (n - 1) as usize;
        let rest = order.remove(p);
        let shorter = values.drop_last();
        lemma_picked_sum_remove(values, order, p);
        assert forall|a: int| 0 <= a < rest.len() implies #[trigger] rest[a] < n - 1 by {
            let a2 = if a < p { a } else { a + 1 };
            assert(rest[a] == order[a2]);
            assert(order[a2] != order[p]);
        }
        assert(rest.no_duplicates()) by {
            assert forall|a: int, b: int|
                0 <= a < rest.len() && 0 <= b < rest.len() && a != b implies rest[a] != rest[b] by {
                let a2 = if a < p { a } else { a + 1 };
                let b2 = if b < p { b } else { b + 1 };
                assert(rest[a] == order[a2]);
                assert(rest[b] == order[b2]);
            }
        }
        assert forall|v: usize| (v as int) < n - 1 implies #[trigger] rest.contains(v) by {
            assert(order.contains(v));
            let q = choose|q: int| 0 <= q < order.len() && order[q] == v;
            if q < p {
                assert(rest[q] == v);
            } else {
                assert(q != p);
                assert(rest[q - 1] == v);
            }
        }
        lemma_picked_sum_pointwise(values, rest, shorter, rest);
        lemma_permutation_total(shorter, rest);
    }
}

// ---------------------------------------------------------------------------
// Largest first
// ---------------------------------------------------------------------------

/// Picks values one by one from largest to smallest until `target` is covered.
/// Always terminates with a valid selection; may include more value than needed.
fn largest_first(sorted_values: &[u64], target: u64) -> (result: Vec<usize>)
    requires
        total(sorted_values@) <= u64::MAX,
    ensures
        result@ == Seq::new(cover_len(sorted_values@, target as int), |i: int| i as usize),
        cover_len(sorted_values@, target as int) <= sorted_values@.len(),
{
    let ghost s = sorted_values@;
    let mut result: Vec<usize> = Vec::new();
    let mut accumulated: u64 = 0;
    let mut i: usize = 0;
    proof {
        assert(s.skip(0) =~= s);
    }
    while i < sorted_values.len()
        invariant_except_break
            0 <= i <= s.len(),
            s == sorted_values@,
            total(s) <= u64::MAX,
            result@ == Seq::new(i as nat, |k: int| k as usize),
            accumulated == total(s.take(i as int)),
            cover_len(s, target as int) == i + cover_len(s.skip(i as int), target - accumulated),
        ensures
            result@ == Seq::new(cover_len(s, target as int), |k: int| k as usize),
            cover_len(s, target as int) <= s.len(),
        decreases s.len() - i,
    {
        let val = sorted_values[i];
        proof {
            lemma_total_take_next(s, i as int);
            lemma_total_prefix(s, i + 1);
            assert(s.skip(i as int)[0] == val);
            assert(s.skip(i as int).drop_first() =~= s.skip(i + 1));
        }
        result.push(i);
        accumulated = accumulated + val;
        i = i + 1;
        if accumulated >= target {
            break;
        }
    }
    proof {
        if i == s.len() {
            assert(s.skip(i as int).len() == 0);
        }
    }
    result
}


// ---------------------------------------------------------------------------
// Knapsack
// ---------------------------------------------------------------------------

/// Sum `v` can be formed from some of the first `k` values (each used at most once).
pub open spec fn subset_sum(values: Seq<u64>, k: nat, v: int) -> bool
    decreases k,
{
    if k == 0 {
        v == 0
    } else {
        subset_sum(values, (k - 1) as nat, v) || (v >= values[k - 1] && subset_sum(
            values,
            (k - 1) as nat,
            v - values[k - 1],
        ))
    }
}

/// Any selection among the first `k` coins forms its sum.
proof fn lemma_selection_is_subset_sum(values: Seq<u64>, sel: Seq<usize>, k: nat)
    requires
        k <= values.len(),
        sel.no_duplicates(),
        forall|j: int| 0 <= j < sel.len() ==> #[trigger] sel[j] < k,
    ensures
        subset_sum(values, k, picked_sum(values, sel) as int),
    decreases k,
{
    if k == 0 {
        if sel.len() > 0 {
            assert(sel[0] < 0);
        }
    } else {
        if exists|j: int| 0 <= j < sel.len() && sel[j] == k - 1 {
            let j = choose|j: int| 0 <= j < sel.len() && sel[j] == k - 1;
            let rest = sel.remove(j);
            lemma_picked_sum_remove(values, sel, j);
            assert forall|a: int| 0 <= a < rest.len() implies #[trigger] rest[a] < k - 1 by {
                if a < j {
                    assert(rest[a] == sel[a]);
                } else {
                    assert(rest[a] == sel[a + 1]);
                }
            }
            assert(rest.no_duplicates()) by {
                assert forall|a: int, b: int|
                    0 <= a < rest.len() && 0 <= b < rest.len() && a != b implies rest[a]
                    != rest[b] by {
                    let a2 = if a < j { a } else { a + 1 };
                    let b2 = if b < j { b } else { b + 1 };
                    assert(rest[a] == sel[a2]);
                    assert(rest[b] == sel[b2]);
                }
            }
            lemma_selection_is_subset_sum(values, rest, (k - 1) as nat);
        } else {
            assert forall|a: int| 0 <= a < sel.len() implies #[trigger] sel[a] < k - 1 by {
                assert(sel[a] != k - 1);
            }
            lemma_selection_is_subset_sum(values, sel, (k - 1) as nat);
        }
    }
}

/// Table cell `v` is well formed: either unreachable (-1), the base case
/// (sum 0), or it records a coin below `bound` whose removal leads to a
/// reachable cell that was recorded by an earlier coin.
spec fn cell_ok(values: Seq<u64>, dp: Seq<i32>, v: int, bound: int) -> bool {
    dp[v] == -1 || {
        let c = dp[v] as int;
        &&& 0 <= c < bound
        &&& c < values.len()
        &&& 0 < values[c] <= v
        &&& dp[v - values[c]] != -1
        &&& (v - values[c] == 0 || (0 <= dp[v - values[c]] < c))
    }
}

/// The whole table is well formed and, after `k` coins, marks exactly the
/// sums that the first `k` coins can form.
spec fn table_ok(values: Seq<u64>, dp: Seq<i32>, target: int, k: nat) -> bool {
    &&& dp.len() == target + 1
    &&& dp[0] == i32::MAX
    &&& forall|v: int| 1 <= v < dp.len() ==> #[trigger] cell_ok(values, dp, v, k as int)
    &&& forall|v: int| 0 <= v < dp.len() ==> (#[trigger] dp[v] != -1 <==> subset_sum(values, k, v))
}

/// Searches for a subset of coin values that sums to *exactly* `target` using
/// the 0/1 Knapsack dynamic programming algorithm.
///
/// A DP table is built with one cell per satoshi value from 0 up to `target`.
/// Each cell records which coin was last added to reach that sum, enabling
/// exact reconstruction of the chosen set at the end. Above `MAX_DP_TARGET`
/// the solver returns `None` to keep memory bounded.
pub struct KnapsackSolver {
    pub values: Vec<u64>,
    pub target: u64,
}

impl KnapsackSolver {
    pub fn new(values: &[u64], target: u64) -> (solver: Self)
        ensures
            solver.values@ == values@,
            solver.target == target,
    {
        Self { values: vstd::slice::slice_to_vec(values), target }
    }

    /// `Some` with coins that sum to exactly the target when such coins exist
    /// and the target is at most `MAX_DP_TARGET`; `None` otherwise.
    pub fn solve(&self) -> (result: Option<Vec<usize>>)
        requires
            self.values.len() < i32::MAX,
        ensures
            result is Some <==> (self.target <= MAX_DP_TARGET && exact_selection_exists(
                self.values@,
                self.target,
            )),
            result matches Some(sel) ==> is_selection(self.values@, sel@) && picked_sum(
                self.values@,
                sel@,
            ) == self.target,
    {
        if self.target > MAX_DP_TARGET {
            return None;
        }
        let ghost vals = self.values@;
        let target = self.target;
        let size = target as usize + 1;

        // dp[v] = the index of the coin most recently added to reach sum v;
        // -1 means sum v is not yet reachable; i32::MAX marks the base case.
        let mut dp: Vec<i32> = Vec::new();
        while dp.len() < size
            invariant
                dp.len() <= size,
                forall|v: int| 0 <= v < dp.len() ==> dp[v] == -1,
            decreases size - dp.len(),
        {
            dp.push(-1);
        }
        dp.set(0, i32::MAX);

        let mut i: usize = 0;
        while i < self.values.len()
            invariant
                i <= vals.len(),
                vals == self.values@,
                vals.len() < i32::MAX,
                size == target + 1,
                target <= MAX_DP_TARGET,
                table_ok(vals, dp@, target as int, i as nat),
            decreases vals.len() - i,
        {
            let val = self.values[i];
            let ghost before = dp@;
            // A coin larger than the target can never contribute to an exact sum.
            if val <= target {
                let val = val as usize;
                let mut v = size;
                proof {
                    assert forall|w: int| 1 <= w < size implies #[trigger] cell_ok(
                        vals,
                        dp@,
                        w,
                        i + 1,
                    ) by {
                        assert(cell_ok(vals, before, w, i as int));
                    }
                }
                // Walk from high sums down to `val`, so that the cell dp[v - val]
                // read below was set by an earlier coin, never by this one.
                while v > val
                    invariant
                        val <= v <= size,
                        size == dp.len(),
                        val == vals[i as int],
                        i < vals.len() < i32::MAX,
                        before.len() == size,
                        before[0] == i32::MAX,
                        forall|w: int| 1 <= w < size ==> #[trigger] cell_ok(vals, before, w, i as int),
                        forall|w: int| 0 <= w < v ==> dp@[w] == before[w],
                        forall|w: int|
                            v <= w < size ==> (#[trigger] dp@[w] != -1 <==> (before[w] != -1 || (
                            w >= val && before[w - val] != -1))),
                        forall|w: int| v <= w < size ==> (dp@[w] == before[w] || (before[w] == -1 && dp@[w] == i)),
                        forall|w: int| 1 <= w < size ==> #[trigger] cell_ok(vals, dp@, w, i + 1),
                        dp@[0] == i32::MAX,
                    decreases v,
                {
                    v = v - 1;
                    if dp[v] == -1 && dp[v - val] != -1 {
                        let ghost old_dp = dp@;
                        // Coin i extends a previously reachable sum (v - val) to v.
                        dp.set(v, i as i32);
                        proof {
                            assert(old_dp[v - val as int] == before[v - val as int]);
                            assert forall|w: int| 1 <= w < size implies #[trigger] cell_ok(
                                vals,
                                dp@,
                                w,
                                i + 1,
                            ) by {
                                if w != v {
                                    assert(cell_ok(vals, old_dp, w, i + 1));
                                    if old_dp[w] != -1 {
                                        let c = old_dp[w] as int;
                                        assert(old_dp[w - vals[c]] != -1);
                                    }
                                } else {
                                    if v - val > 0 {
                                        assert(cell_ok(vals, before, v - val as int, i as int));
                                    }
                                }
                            }
                        }
                    }
                }
                proof {
                    assert forall|w: int| 0 <= w < size implies (#[trigger] dp@[w] != -1
                        <==> subset_sum(vals, (i + 1) as nat, w)) by {
                        assert(before[w] != -1 <==> subset_sum(vals, i as nat, w));
                        if w >= val {
                            assert(before[w - val] != -1 <==> subset_sum(vals, i as nat, w - val));
                        } else if w > 0 {
                            assert(dp@[w] == before[w]);
                        }
                    }
                }
            } else {
                proof {
                    assert forall|w: int| 1 <= w < size implies #[trigger] cell_ok(
                        vals,
                        dp@,
                        w,
                        i + 1,
                    ) by {
                        assert(cell_ok(vals, dp@, w, i as int));
                    }
                    assert forall|w: int| 0 <= w < size implies (#[trigger] dp@[w] != -1
                        <==> subset_sum(vals, (i + 1) as nat, w)) by {
                        assert(dp@[w] != -1 <==> subset_sum(vals, i as nat, w));
                    }
                }
            }
            i = i + 1;
        }

        // If the target cell is still -1, no exact combination exists.
        if dp[target as usize] == -1 {
            proof {
                if exact_selection_exists(vals, target) {
                    let sel = choose|sel: Seq<usize>|
                        is_selection(vals, sel) && #[trigger] picked_sum(vals, sel) == target;
                    lemma_selection_is_subset_sum(vals, sel, vals.len());
                }
            }
            return None;
        }

        // Reconstruct the solution by walking backwards through the table:
        // each cell names the coin last added to reach that sum.
        let mut selected: Vec<usize> = Vec::new();
        let mut remaining: usize = target as usize;
        while remaining > 0
            invariant
                remaining <= target,
                dp@.len() == target + 1,
                vals == self.values@,
                table_ok(vals, dp@, target as int, vals.len()),
                dp@[remaining as int] != -1,
                picked_sum(vals, selected@) + remaining == target,
                is_selection(vals, selected@),
                remaining > 0 ==> forall|j: int|
                    0 <= j < selected@.len() ==> #[trigger] selected@[j] > dp@[remaining as int],
            decreases remaining,
        {
            assert(cell_ok(vals, dp@, remaining as int, vals.len() as int));
            let i = dp[remaining] as usize;
            let ghost prev = selected@;
            selected.push(i);
            remaining = remaining - self.values[i] as usize;
            proof {
                assert(selected@.drop_last() =~= prev);
                assert forall|a: int, b: int|
                    0 <= a < selected@.len() && 0 <= b < selected@.len() && a != b implies selected@[a]
                    != selected@[b] by {
                    if a < prev.len() && b < prev.len() {
                        assert(prev[a] != prev[b]);
                    } else if a < prev.len() {
                        assert(prev[a] > i);
                    } else {
                        assert(prev[b] > i);
                    }
                }
            }
        }

        Some(selected)
    }
}


// ---------------------------------------------------------------------------
// Selection
// ---------------------------------------------------------------------------

/// Orders the coin indices largest value first, equal values by index.
pub(crate) fn largest_first_order(values: &[u64]) -> (order: Vec<usize>)
    ensures
        is_largest_first_order(values@, order@),
        covers(order@, values@.len() as int),
{
    let ghost vals = values@;
    let mut order: Vec<usize> = Vec::new();
    let mut i: usize = 0;
    while i < values.len()
        invariant
            i <= vals.len(),
            vals == values@,
            order@.len() == i,
            forall|j: int| 0 <= j < order@.len() ==> #[trigger] order@[j] < i,
            order@.no_duplicates(),
            covers(order@, i as int),
            forall|a: int, b: int|
                0 <= a < b < order@.len() ==> ranks_before(vals, #[trigger] order@[a], #[trigger] order@[b]),
        decreases vals.len() - i,
    {
        let value = values[i];
        let mut p: usize = 0;
        while p < order.len() && values[order[p]] >= value
            invariant
                p <= order@.len(),
                vals == values@,
                i < vals.len(),
                value == vals[i as int],
                forall|j: int| 0 <= j < order@.len() ==> #[trigger] order@[j] < i,
                forall|q: int| 0 <= q < p ==> vals[#[trigger] order@[q] as int] >= value,
            decreases order@.len() - p,
        {
            p = p + 1;
        }
        let ghost prev = order@;
        proof {
            assert forall|q: int| p <= q < prev.len() implies vals[#[trigger] prev[q] as int] < value by {
                if q > p {
                    assert(ranks_before(vals, prev[p as int], prev[q]));
                }
            }
        }
        order.insert(p, i);
        proof {
            let now = order@;
            assert forall|j: int| 0 <= j < now.len() implies #[trigger] now[j] < i + 1 by {
                if j < p {
                    assert(now[j] == prev[j]);
                } else if j > p {
                    assert(now[j] == prev[j - 1]);
                }
            }
            assert forall|a: int, b: int|
                0 <= a < now.len() && 0 <= b < now.len() && a != b implies now[a] != now[b] by {
                if a != p && b != p {
                    let a2 = if a < p { a } else { a - 1 };
                    let b2 = if b < p { b } else { b - 1 };
                    assert(now[a] == prev[a2]);
                    assert(now[b] == prev[b2]);
                } else if a == p {
                    let b2 = if b < p { b } else { b - 1 };
                    assert(now[b] == prev[b2]);
                    assert(prev[b2] < i);
                } else {
                    let a2 = if a < p { a } else { a - 1 };
                    assert(now[a] == prev[a2]);
                    assert(prev[a2] < i);
                }
            }
            assert forall|v: usize| (v as int) < i + 1 implies #[trigger] now.contains(v) by {
                if v == i {
                    assert(now[p as int] == v);
                } else {
                    assert(prev.contains(v));
                    let q = choose|q: int| 0 <= q < prev.len() && prev[q] == v;
                    if q < p {
                        assert(now[q] == v);
                    } else {
                        assert(now[q + 1] == v);
                    }
                }
            }
            assert forall|a: int, b: int|
                0 <= a < b < now.len() implies ranks_before(vals, #[trigger] now[a], #[trigger] now[b]) by {
                if b < p {
                    assert(now[a] == prev[a] && now[b] == prev[b]);
                } else if b == p {
                    assert(now[a] == prev[a]);
                } else if a < p {
                    assert(now[a] == prev[a] && now[b] == prev[b - 1]);
                } else if a == p {
                    assert(now[b] == prev[b - 1]);
                } else {
                    assert(now[a] == prev[a - 1] && now[b] == prev[b - 1]);
                }
            }
        }
        i = i + 1;
    }
    order
}

/// What `select` picks for a target: nothing when the target is 0, there
/// are no coins, or all of them fall short; otherwise coins (each at most
/// once) that cover the target, summing to it exactly whenever the knapsack
/// can match it, else the shortest largest-first prefix that covers it.
pub open spec fn selection_for(values: Seq<u64>, target: u64, sel: Seq<usize>) -> bool {
    &&& (target == 0 || values.len() == 0 || total(values) < target) ==> sel.len() == 0
    &&& !(target == 0 || values.len() == 0 || total(values) < target) ==> {
        &&& is_selection(values, sel)
        &&& picked_sum(values, sel) >= target
        &&& (target <= MAX_DP_TARGET && exact_selection_exists(values, target)) ==> picked_sum(values, sel)
            == target
        &&& !(target <= MAX_DP_TARGET && exact_selection_exists(values, target)) ==> exists|
            order: Seq<usize>,
        |
            is_largest_first_order(values, order) && sel == order.take(
                cover_len(values_in_order(values, order), target as int) as int,
            )
    }
}

/// Coins picked at most once each are no more than the coins.
pub(crate) proof fn lemma_selection_len(values: Seq<u64>, sel: Seq<usize>)
    requires
        is_selection(values, sel),
        values.len() <= usize::MAX,
    ensures
        sel.len() <= values.len(),
    decreases values.len(),
{
    let n = values.len() as int;
    if n == 0 {
        if sel.len() > 0 {
            assert(sel[0] < values.len());
        }
        return;
    }
    let rest = values.drop_last();
    if sel.contains((n - 1) as usize) {
        let j = sel.index_of((n - 1) as usize);
        let s2 = sel.remove(j);
        assert forall|a: int| 0 <= a < s2.len() implies #[trigger] s2[a] < rest.len() by {
            let b = if a < j { a } else { a + 1 };
            assert(s2[a] == sel[b]);
            assert(sel[b] != sel[j]);
        }
        assert forall|a: int, b: int| 0 <= a < s2.len() && 0 <= b < s2.len() && a != b implies s2[a] != s2[b] by {
            let a2 = if a < j { a } else { a + 1 };
            let b2 = if b < j { b } else { b + 1 };
            assert(s2[a] == sel[a2]);
            assert(s2[b] == sel[b2]);
        }
        lemma_selection_len(rest, s2);
    } else {
        assert forall|a: int| 0 <= a < sel.len() implies #[trigger] sel[a] < rest.len() by {
            if sel[a] == (n - 1) as usize {
                assert(sel.contains((n - 1) as usize));
            }
        }
        lemma_selection_len(rest, sel);
    }
}

/// Coins picked at most once each never add up to more than all the coins.
pub(crate) proof fn lemma_picked_le_total(values: Seq<u64>, sel: Seq<usize>)
    requires
        is_selection(values, sel),
        values.len() <= usize::MAX,
    ensures
        picked_sum(values, sel) <= total(values),
    decreases values.len(),
{
    let n = values.len() as int;
    if n == 0 {
        if sel.len() > 0 {
            assert(sel[0] < values.len());
        }
        return;
    }
    let rest = values.drop_last();
    if sel.contains((n - 1) as usize) {
        let j = sel.index_of((n - 1) as usize);
        let s2 = sel.remove(j);
        lemma_picked_sum_remove(values, sel, j);
        assert forall|a: int| 0 <= a < s2.len() implies #[trigger] s2[a] < rest.len() by {
            let b = if a < j { a } else { a + 1 };
            assert(s2[a] == sel[b]);
            assert(sel[b] != sel[j]);
        }
        assert forall|a: int, b: int| 0 <= a < s2.len() && 0 <= b < s2.len() && a != b implies s2[a] != s2[b] by {
            let a2 = if a < j { a } else { a + 1 };
            let b2 = if b < j { b } else { b + 1 };
            assert(s2[a] == sel[a2]);
            assert(s2[b] == sel[b2]);
        }
        assert(is_selection(rest, s2));
        lemma_picked_sum_pointwise(values, s2, rest, s2);
        lemma_picked_le_total(rest, s2);
        assert(sel[j] == (n - 1) as usize);
        assert(values[n - 1] == values.last());
        assert(total(values) == total(rest) + values.last() as nat);
    } else {
        assert forall|a: int| 0 <= a < sel.len() implies #[trigger] sel[a] < rest.len() by {
            if sel[a] == (n - 1) as usize {
                assert(sel.contains((n - 1) as usize));
            }
        }
        assert(is_selection(rest, sel));
        lemma_picked_sum_pointwise(values, sel, rest, sel);
        lemma_picked_le_total(rest, sel);
        assert(total(values) == total(rest) + values.last() as nat);
    }
}

/// Selects a subset of `values` whose sum meets `target`.
///
/// Tries the Knapsack DP solver first to find an exact match (no change
/// output). Falls back to largest-first when no exact solution exists or the
/// target is too large for the DP table.
///
/// Returns the indices, in the input, of the chosen values, or an empty Vec if the
/// total available funds are insufficient.
pub fn select(values: &[u64], target: u64) -> (result: Vec<usize>)
    requires
        values@.len() < i32::MAX,
        total(values@) <= u64::MAX,
    ensures
        (target == 0 || values@.len() == 0 || total(values@) < target) ==> result@.len() == 0,
        !(target == 0 || values@.len() == 0 || total(values@) < target) ==> {
            &&& is_selection(values@, result@)
            &&& picked_sum(values@, result@) >= target
            &&& (target <= MAX_DP_TARGET && exact_selection_exists(values@, target))
                ==> picked_sum(values@, result@) == target
            &&& !(target <= MAX_DP_TARGET && exact_selection_exists(values@, target))
                ==> exists|order: Seq<usize>|
                is_largest_first_order(values@, order) && result@ == order.take(
                    cover_len(values_in_order(values@, order), target as int) as int,
                )
        },
        selection_for(values@, target, result@),
{
    if target == 0 || values.len() == 0 {
        return Vec::new();
    }
    let ghost vals = values@;

    // Sort largest-first. The knapsack result is order-independent, but
    // sorting means the largest-first fallback picks the fewest inputs.
    let order = largest_first_order(values);
    let mut sorted: Vec<u64> = Vec::new();
    let mut j: usize = 0;
    while j < order.len()
        invariant
            j <= order@.len(),
            vals == values@,
            is_largest_first_order(vals, order@),
            sorted@.len() == j,
            forall|k: int| 0 <= k < j ==> sorted@[k] == vals[#[trigger] order@[k] as int],
        decreases order@.len() - j,
    {
        sorted.push(values[order[j]]);
        j = j + 1;
    }
    proof {
        assert(sorted@ =~= values_in_order(vals, order@));
        lemma_total_is_picked_sum(sorted@, vals, order@);
        lemma_permutation_total(vals, order@);
    }

    // Bail out early if even spending every coin falls short.
    let mut sum: u64 = 0;
    let mut k: usize = 0;
    while k < sorted.len()
        invariant
            k <= sorted@.len(),
            total(sorted@) == total(vals),
            total(vals) <= u64::MAX,
            sum == total(sorted@.take(k as int)),
        decreases sorted@.len() - k,
    {
        proof {
            lemma_total_take_next(sorted@, k as int);
            lemma_total_prefix(sorted@, k + 1);
        }
        sum = sum + sorted[k];
        k = k + 1;
    }
    proof {
        assert(sorted@.take(k as int) =~= sorted@);
    }
    if sum < target {
        return Vec::new();
    }

    // Try to find a combination that sums to exactly `target` (Knapsack DP).
    // If that search is skipped or finds no solution, fall back to the simpler
    // largest-first strategy, which always succeeds but may overshoot
    // (producing a change output).
    let solver = KnapsackSolver::new(sorted.as_slice(), target);
    let sorted_indices = match solver.solve() {
        Some(found) => found,
        None => largest_first(sorted.as_slice(), target),
    };
    let ghost exact = target <= MAX_DP_TARGET && exact_selection_exists(sorted@, target);

    // Translate sorted-array indices back to the indices in the input.
    let mut result: Vec<usize> = Vec::new();
    let mut m: usize = 0;
    while m < sorted_indices.len()
        invariant
            m <= sorted_indices@.len(),
            forall|q: int| 0 <= q < sorted_indices@.len() ==> #[trigger] sorted_indices@[q] < order@.len(),
            result@.len() == m,
            forall|q: int| 0 <= q < m ==> #[trigger] result@[q] == order@[sorted_indices@[q] as int],
        decreases sorted_indices@.len() - m,
    {
        result.push(order[sorted_indices[m]]);
        m = m + 1;
    }
    proof {
        let sel = sorted_indices@;
        let out = result@;
        assert forall|q: int| 0 <= q < out.len() implies vals[#[trigger] out[q] as int] == sorted@[sel[q] as int] by {
        }
        lemma_picked_sum_pointwise(vals, out, sorted@, sel);
        assert forall|q: int| 0 <= q < out.len() implies #[trigger] out[q] < vals.len() by {}
        if exact {
            assert forall|a: int, b: int|
                0 <= a < out.len() && 0 <= b < out.len() && a != b implies out[a] != out[b] by {
                assert(sel[a] != sel[b]);
            }
        } else {
            lemma_cover_len_reaches(sorted@, target as int);
            let c = cover_len(sorted@, target as int) as int;
            assert(out =~= order@.take(c));
            assert forall|a: int, b: int|
                0 <= a < out.len() && 0 <= b < out.len() && a != b implies out[a] != out[b] by {
                assert(out[a] == order@[a]);
                assert(out[b] == order@[b]);
            }
            lemma_total_is_picked_sum(sorted@.take(c), vals, out);
            // No exact selection of the caller's coins exists either: it would
            // carry over to the sorted coins.
            if target <= MAX_DP_TARGET && exact_selection_exists(vals, target) {
                let orig = choose|s: Seq<usize>| is_selection(vals, s) && #[trigger] picked_sum(vals, s) == target;
                let moved = orig.map_values(|x: usize| position(order@, x) as usize);
                assert forall|q: int| 0 <= q < orig.len() implies #[trigger] order@[position(order@, orig[q]) as int] == orig[q] && 0 <= position(order@, orig[q]) < order@.len() by {
                    assert(order@.contains(orig[q]));
                }
                assert forall|q: int| 0 <= q < moved.len() implies #[trigger] moved[q] < sorted@.len() by {
                    assert(order@[position(order@, orig[q]) as int] == orig[q]);
                }
                assert forall|a: int, b: int|
                    0 <= a < moved.len() && 0 <= b < moved.len() && a != b implies moved[a] != moved[b] by {
                    assert(order@[position(order@, orig[a]) as int] == orig[a]);
                    assert(order@[position(order@, orig[b]) as int] == orig[b]);
                }
                assert forall|q: int| 0 <= q < orig.len() implies vals[#[trigger] orig[q] as int] == sorted@[moved[q] as int] by {
                    assert(order@[position(order@, orig[q]) as int] == orig[q]);
                }
                lemma_picked_sum_pointwise(vals, orig, sorted@, moved);
                assert(is_selection(sorted@, moved));
                assert(picked_sum(sorted@, moved) == target);
                assert(false);
            }
        }
    }
    result
}

} // verus!
