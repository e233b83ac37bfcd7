//! Concrete checks of the bracket engine: exact values, round trips,
//! bounds, monotonicity and boundary selection.

use tax_brackets::brackets::TaxBrackets;
use tax_brackets::errors::TaxError;
use tax_brackets::rational::Rational;

fn rat(n: u64, d: u64) -> Rational {
    Rational::new(n, d)
}

fn two_bracket_schedule() -> TaxBrackets {
    TaxBrackets::new(vec![rat(10_000, 1)], vec![rat(10, 100), rat(20, 100)]).unwrap()
}

#[test]
fn rational_arithmetic_is_exact() {
    let half = rat(1, 2);
    let two_quarters = rat(2, 4);
    assert!(half.eq_rat(&two_quarters));
    let sum = half.add(&rat(1, 3));
    assert!(sum.eq_rat(&rat(5, 6)));
    let diff = rat(5, 6).sub(&rat(1, 2));
    assert!(diff.eq_rat(&rat(1, 3)));
    let prod = rat(3, 4).mul(&rat(2, 3));
    assert!(prod.eq_rat(&rat(1, 2)));
    let quot = rat(3, 4).div(&rat(3, 2));
    assert!(quot.eq_rat(&rat(1, 2)));
    assert!(rat(1, 3).lt(&rat(1, 2)));
    assert!(rat(1, 2).le(&rat(1, 2)));
    assert!(!rat(1, 2).lt(&rat(1, 2)));
    assert!(!rat(1, 2).eq_rat(&rat(1, 3)));
}

#[test]
fn flat_schedule_scenario() {
    let flat = TaxBrackets::new(Vec::new(), vec![rat(15, 100)]).unwrap();
    let gross = rat(100_000, 1);
    assert!(flat.calc_taxes(&gross).eq_rat(&rat(15_000, 1)));
    assert!(flat.calc_net(&gross).eq_rat(&rat(85_000, 1)));
    assert!(flat.calc_gross(&rat(85_000, 1)).eq_rat(&rat(100_000, 1)));
}

#[test]
fn two_bracket_scenario() {
    let sched = two_bracket_schedule();
    assert_eq!(sched.bracket_count(), 2);
    assert!(sched.separator_at(0).eq_rat(&rat(10_000, 1)));
    assert!(sched.rate_at(0).eq_rat(&rat(10, 100)));
    assert!(sched.rate_at(1).eq_rat(&rat(20, 100)));
    assert!(sched.flat_deduction_at(0).eq_rat(&Rational::zero()));
    assert!(sched.flat_deduction_at(1).eq_rat(&rat(1_000, 1)));
    assert!(sched.calc_taxes(&rat(15_000, 1)).eq_rat(&rat(2_000, 1)));
    assert!(sched.calc_net(&rat(15_000, 1)).eq_rat(&rat(13_000, 1)));
    assert!(sched.calc_gross(&rat(13_000, 1)).eq_rat(&rat(15_000, 1)));
}

#[test]
fn boundary_income_taxed_in_lower_bracket() {
    let sched = two_bracket_schedule();
    // income exactly at the separator pays the lower rate on all of it
    assert!(sched.calc_taxes(&rat(10_000, 1)).eq_rat(&rat(1_000, 1)));
    // one unit above the separator starts the higher rate
    assert!(sched.calc_taxes(&rat(10_001, 1)).eq_rat(&rat(1_000, 1).add(&rat(20, 100))));
}

#[test]
fn round_trip_at_many_points() {
    let sched = TaxBrackets::new(
        vec![rat(5_000, 1), rat(10_000, 1), rat(50_000, 1)],
        vec![rat(5, 100), rat(12, 100), rat(30, 100), rat(45, 100)],
    )
    .unwrap();
    for g in [0u64, 1, 4_999, 5_000, 5_001, 9_999, 10_000, 31_337, 50_000, 123_456] {
        let gross = rat(g, 1);
        let net = sched.calc_net(&gross);
        let back = sched.calc_gross(&net);
        assert!(back.eq_rat(&gross));
    }
    // fractional income round-trips exactly too
    let gross = rat(10_000_5, 10);
    let back = sched.calc_gross(&sched.calc_net(&gross));
    assert!(back.eq_rat(&gross));
}

#[test]
fn taxes_and_net_are_monotone_and_bounded() {
    let sched = two_bracket_schedule();
    let mut prev_tax = sched.calc_taxes(&Rational::zero());
    let mut prev_net = sched.calc_net(&Rational::zero());
    for g in [1u64, 100, 9_999, 10_000, 10_001, 20_000, 1_000_000] {
        let gross = rat(g, 1);
        let tax = sched.calc_taxes(&gross);
        let net = sched.calc_net(&gross);
        assert!(prev_tax.le(&tax));
        assert!(prev_net.le(&net));
        assert!(Rational::zero().le(&tax));
        assert!(tax.le(&gross));
        assert!(net.le(&gross));
        prev_tax = tax;
        prev_net = net;
    }
}

#[test]
fn construction_errors_are_reported() {
    let wrong_count = TaxBrackets::new(vec![rat(1, 1), rat(2, 1)], vec![rat(1, 10), rat(2, 10)]);
    assert_eq!(wrong_count.err(), Some(TaxError::WrongRateCount));
    let no_rates = TaxBrackets::new(Vec::new(), Vec::new());
    assert_eq!(no_rates.err(), Some(TaxError::WrongRateCount));
    let rate_too_high = TaxBrackets::new(vec![rat(1, 1)], vec![rat(1, 10), rat(1, 1)]);
    assert_eq!(rate_too_high.err(), Some(TaxError::RateOutOfRange));
    let out_of_order = TaxBrackets::new(
        vec![rat(2, 1), rat(1, 1)],
        vec![rat(1, 10), rat(2, 10), rat(3, 10)],
    );
    assert_eq!(out_of_order.err(), Some(TaxError::SeparatorsOutOfOrder));
    let equal_separators = TaxBrackets::new(
        vec![rat(1, 1), rat(1, 1)],
        vec![rat(1, 10), rat(2, 10), rat(3, 10)],
    );
    assert_eq!(equal_separators.err(), Some(TaxError::SeparatorsOutOfOrder));
}

#[test]
fn zero_rate_schedule_charges_nothing() {
    let sched = TaxBrackets::new(Vec::new(), vec![Rational::zero()]).unwrap();
    let gross = rat(42_000, 1);
    assert!(sched.calc_taxes(&gross).eq_rat(&Rational::zero()));
    assert!(sched.calc_net(&gross).eq_rat(&gross));
    assert!(sched.calc_gross(&gross).eq_rat(&gross));
}
