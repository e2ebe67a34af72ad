use ore_miner::round::{
    get_cutoff, plan_submission, should_reset, BASE_COMPUTE_BUDGET, RESET_COMPUTE_BUDGET,
};

#[test]
fn cutoff_formula_on_spec_values() {
    // last hash at 1000, a 60 second window, 5 seconds of buffer, now 1010:
    // max(0, 1000 + 60 - 5 - 1010) = 45 seconds left.
    assert_eq!(get_cutoff(1000, 5, 1010), 45);
}

#[test]
fn cutoff_floors_at_zero() {
    assert_eq!(get_cutoff(1000, 5, 2000), 0);
    assert_eq!(get_cutoff(i64::MIN, 0, 0), 0);
}

#[test]
fn cutoff_saturates_instead_of_wrapping() {
    assert_eq!(get_cutoff(i64::MAX, 0, 0), i64::MAX as u64);
    assert_eq!(get_cutoff(i64::MAX, 5, 10), (i64::MAX - 15) as u64);
}

#[test]
fn reset_due_inside_safety_margin() {
    let t = 1000i64;
    let e = 60i64;
    assert!(should_reset(t, e, t + e - 4));
    assert!(!should_reset(t, e, t + e - 6));
    assert!(should_reset(t, e, t + e - 5));
}

#[test]
fn reset_gate_and_budget() {
    let p = plan_submission(true, 0, 3);
    assert!(p.include_reset);
    assert_eq!(p.compute_budget, BASE_COMPUTE_BUDGET + RESET_COMPUTE_BUDGET);
    assert_eq!(p.bus_index, 3);

    let p = plan_submission(true, 55, 9);
    assert!(!p.include_reset);
    assert_eq!(p.compute_budget, BASE_COMPUTE_BUDGET);
    assert_eq!(p.bus_index, 1);

    let p = plan_submission(false, 0, 15);
    assert!(!p.include_reset);
    assert_eq!(p.compute_budget, BASE_COMPUTE_BUDGET);
    assert_eq!(p.bus_index, 7);
}

#[test]
fn bus_index_always_inside_pool() {
    for roll in 0..32u64 {
        assert!(plan_submission(false, roll, roll).bus_index < 8);
    }
}
