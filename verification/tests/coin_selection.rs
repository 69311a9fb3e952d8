use satellion::chain::btc::coin_selection::{select, KnapsackSolver, MAX_DP_TARGET};

fn total(values: &[u64], indices: &[usize]) -> u64 {
    indices.iter().map(|&i| values[i]).sum()
}

#[test]
fn zero_target_returns_empty() {
    assert!(select(&[1, 2, 3], 0).is_empty());
}

#[test]
fn insufficient_funds_returns_empty() {
    assert!(select(&[1, 2], 10).is_empty());
}

#[test]
fn exact_match_via_knapsack() {
    let values = [3, 5, 7];
    let indices = select(&values, 8);
    assert_eq!(total(&values, &indices), 8);
    assert_eq!(indices.len(), 2);
}

#[test]
fn fallback_when_no_exact_match() {
    let values = [6, 9];
    let indices = select(&values, 7);
    assert_eq!(indices.len(), 1);
    assert!(total(&values, &indices) >= 7);
}

#[test]
fn single_utxo_exact() {
    let values = [10];
    let indices = select(&values, 10);
    assert_eq!(indices, vec![0]);
}

#[test]
fn single_utxo_overshoot_fallback() {
    let values = [10];
    let indices = select(&values, 5);
    assert_eq!(indices, vec![0]);
    assert!(total(&values, &indices) >= 5);
}

#[test]
fn knapsack_preferred_over_greedy() {
    let values = [3, 5, 10];
    let indices = select(&values, 8);
    assert_eq!(total(&values, &indices), 8);
    assert_eq!(indices.len(), 2);
}

#[test]
fn empty_values_select_nothing() {
    assert!(select(&[], 5).is_empty());
}

#[test]
fn fallback_takes_largest_first_until_covered() {
    // No subset of these sums to 12; largest first: 10, then 4.
    let values = [4, 10, 4];
    let indices = select(&values, 12);
    assert_eq!(total(&values, &indices), 14);
    assert_eq!(indices[0], 1);
    assert_eq!(indices.len(), 2);
}

#[test]
fn target_above_table_limit_uses_largest_first() {
    let values = [MAX_DP_TARGET, 1, MAX_DP_TARGET];
    let indices = select(&values, MAX_DP_TARGET + 1);
    assert_eq!(indices.len(), 2);
    assert_eq!(total(&values, &indices), 2 * MAX_DP_TARGET);
}

#[test]
fn selection_indices_are_distinct_and_in_range() {
    let values = [2, 2, 2, 2, 3];
    let indices = select(&values, 7);
    assert_eq!(total(&values, &indices), 7);
    let mut seen = indices.clone();
    seen.sort();
    seen.dedup();
    assert_eq!(seen.len(), indices.len());
    assert!(indices.iter().all(|&i| i < values.len()));
}

#[test]
fn knapsack_solver_finds_exact_subset() {
    let solver = KnapsackSolver::new(&[3, 5, 7], 12);
    let picked = solver.solve().unwrap();
    let values = [3, 5, 7];
    assert_eq!(total(&values, &picked), 12);
}

#[test]
fn knapsack_solver_reports_no_subset() {
    let solver = KnapsackSolver::new(&[6, 9], 7);
    assert!(solver.solve().is_none());
}
