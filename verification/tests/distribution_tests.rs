use card_battler::distribution::Distribution;

#[test]
fn from_value_is_certain() {
    let d = Distribution::from_value(6);
    assert_eq!(d.outcome_count(), 1);
    assert_eq!(d.entry_at(0), (1, 6));
    assert_eq!(d.weight_for(6), 1);
    assert_eq!(d.weight_for(7), 0);
}

#[test]
fn mul_scales_every_weight() {
    let d = Distribution::from_value(3).mul(4);
    assert_eq!(d.outcome_count(), 1);
    assert_eq!(d.weight_for(3), 4);
}

#[test]
fn add_assign_merges_by_summing_weights() {
    let mut a = Distribution::from_value(1).mul(3);
    let b = Distribution::from_value(1);
    a.add_assign(b);
    assert_eq!(a.outcome_count(), 1);
    assert_eq!(a.weight_for(1), 4);

    let mut c = Distribution::from_value(2);
    c.add_assign(Distribution::from_value(5));
    assert_eq!(c.outcome_count(), 2);
    assert_eq!(c.weight_for(2), 1);
    assert_eq!(c.weight_for(5), 1);
}

#[test]
fn split_scales_then_and_else_branches() {
    // probability 1/3: "then" weighted 1, "else" weighted 2
    let d = Distribution::split(1, 3, Distribution::from_value(5), Distribution::from_value(7));
    assert_eq!(d.outcome_count(), 2);
    assert_eq!(d.weight_for(5), 1);
    assert_eq!(d.weight_for(7), 2);
}

#[test]
fn split_merges_equal_outcomes() {
    let d = Distribution::split(1, 3, Distribution::from_value(4), Distribution::from_value(4));
    assert_eq!(d.outcome_count(), 1);
    assert_eq!(d.weight_for(4), 3);
}

#[test]
fn nested_splits_sum_branch_weights() {
    // split(1/2, 9, split(1/2, 9, 10)): outcome 9 gets weight from both branches
    let inner = Distribution::split(1, 2, Distribution::from_value(9), Distribution::from_value(10));
    let d = Distribution::split(1, 2, Distribution::from_value(9), inner);
    assert_eq!(d.weight_for(9), 1 + 1);
    assert_eq!(d.weight_for(10), 1);
}

#[test]
fn empty_distribution_has_no_outcomes() {
    let d = Distribution::new();
    assert_eq!(d.outcome_count(), 0);
    assert_eq!(d.weight_for(0), 0);
}

#[test]
fn zero_probability_branch_keeps_a_zero_weight_entry() {
    let d = Distribution::split(0, 4, Distribution::from_value(1), Distribution::from_value(2));
    assert_eq!(d.outcome_count(), 2);
    assert_eq!(d.weight_for(1), 0);
    assert_eq!(d.weight_for(2), 4);
}
