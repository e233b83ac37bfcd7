//! Checks of the bracket merge: separator union, rate sums, additivity,
//! identity, the shared-boundary path and the failure case.

use tax_brackets::brackets::TaxBrackets;
use tax_brackets::errors::TaxError;
use tax_brackets::rational::Rational;

fn rat(n: u64, d: u64) -> Rational {
    Rational::new(n, d)
}

fn schedule_a() -> TaxBrackets {
    TaxBrackets::new(vec![rat(10_000, 1)], vec![rat(10, 100), rat(20, 100)]).unwrap()
}

fn schedule_b() -> TaxBrackets {
    TaxBrackets::new(vec![rat(5_000, 1)], vec![rat(5, 100), rat(15, 100)]).unwrap()
}

#[test]
fn merge_of_non_aligned_schedules() {
    let merged = TaxBrackets::merge(schedule_a(), schedule_b()).unwrap();
    assert_eq!(merged.bracket_count(), 3);
    assert!(merged.separator_at(0).eq_rat(&rat(5_000, 1)));
    assert!(merged.separator_at(1).eq_rat(&rat(10_000, 1)));
    assert!(merged.rate_at(0).eq_rat(&rat(15, 100)));
    assert!(merged.rate_at(1).eq_rat(&rat(25, 100)));
    assert!(merged.rate_at(2).eq_rat(&rat(35, 100)));
    let g = rat(12_000, 1);
    let sum = schedule_a().calc_taxes(&g).add(&schedule_b().calc_taxes(&g));
    assert!(merged.calc_taxes(&g).eq_rat(&sum));
}

#[test]
fn merge_is_additive_at_many_points() {
    let merged = TaxBrackets::merge(schedule_a(), schedule_b()).unwrap();
    for g in [0u64, 1, 4_999, 5_000, 5_001, 10_000, 10_001, 99_999] {
        let gross = rat(g, 1);
        let sum = schedule_a().calc_taxes(&gross).add(&schedule_b().calc_taxes(&gross));
        assert!(merged.calc_taxes(&gross).eq_rat(&sum));
    }
}

#[test]
fn merge_with_zero_flat_schedule_is_identity() {
    let zero_flat = TaxBrackets::new(Vec::new(), vec![Rational::zero()]).unwrap();
    let merged = TaxBrackets::merge(schedule_a(), zero_flat).unwrap();
    assert_eq!(merged.bracket_count(), 2);
    for g in [0u64, 9_999, 10_000, 10_001, 500_000] {
        let gross = rat(g, 1);
        assert!(merged.calc_taxes(&gross).eq_rat(&schedule_a().calc_taxes(&gross)));
        assert!(merged.calc_net(&gross).eq_rat(&schedule_a().calc_net(&gross)));
    }
}

#[test]
fn shared_boundary_is_consumed_once() {
    let other = TaxBrackets::new(vec![rat(10_000, 1)], vec![rat(1, 100), rat(2, 100)]).unwrap();
    let merged = TaxBrackets::merge(schedule_a(), other).unwrap();
    // no zero-width bracket: one separator, two brackets
    assert_eq!(merged.bracket_count(), 2);
    assert!(merged.separator_at(0).eq_rat(&rat(10_000, 1)));
    assert!(merged.rate_at(0).eq_rat(&rat(11, 100)));
    assert!(merged.rate_at(1).eq_rat(&rat(22, 100)));
}

#[test]
fn merge_order_does_not_change_the_tax() {
    let ab = TaxBrackets::merge(schedule_a(), schedule_b()).unwrap();
    let ba = TaxBrackets::merge(schedule_b(), schedule_a()).unwrap();
    for g in [0u64, 4_999, 5_000, 7_500, 10_000, 20_000] {
        let gross = rat(g, 1);
        assert!(ab.calc_taxes(&gross).eq_rat(&ba.calc_taxes(&gross)));
    }
}

#[test]
fn merge_fails_when_summed_rates_reach_one() {
    let high_a = TaxBrackets::new(Vec::new(), vec![rat(60, 100)]).unwrap();
    let high_b = TaxBrackets::new(Vec::new(), vec![rat(40, 100)]).unwrap();
    let merged = TaxBrackets::merge(high_a, high_b);
    assert_eq!(merged.err(), Some(TaxError::RateOutOfRange));
}

#[test]
fn merged_schedule_still_round_trips() {
    let merged = TaxBrackets::merge(schedule_a(), schedule_b()).unwrap();
    for g in [0u64, 4_999, 5_000, 5_001, 10_000, 10_001, 77_777] {
        let gross = rat(g, 1);
        let back = merged.calc_gross(&merged.calc_net(&gross));
        assert!(back.eq_rat(&gross));
    }
}

#[test]
fn merge_grouping_does_not_change_the_tax() {
    let c = TaxBrackets::new(vec![rat(7_500, 1)], vec![rat(1, 100), rat(3, 100)]).unwrap();
    let c2 = TaxBrackets::new(vec![rat(7_500, 1)], vec![rat(1, 100), rat(3, 100)]).unwrap();
    let ab_c = TaxBrackets::merge(TaxBrackets::merge(schedule_a(), schedule_b()).unwrap(), c)
        .unwrap();
    let a_bc = TaxBrackets::merge(schedule_a(), TaxBrackets::merge(schedule_b(), c2).unwrap())
        .unwrap();
    for g in [0u64, 5_000, 7_499, 7_500, 7_501, 10_000, 42_000] {
        let gross = rat(g, 1);
        assert!(ab_c.calc_taxes(&gross).eq_rat(&a_bc.calc_taxes(&gross)));
    }
}
