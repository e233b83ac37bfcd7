//! Checks of the equivalent-income estimator.

use tax_brackets::cfg::AnalysisMode;
use tax_brackets::citizen::{estimate_equivalent_income, Citizen};
use tax_brackets::errors::TaxError;
use tax_brackets::loc::{Country, Location, State};
use tax_brackets::rational::Rational;
use tax_brackets::system::{MaritalStatus, TaxSystem};

fn rat(n: u64, d: u64) -> Rational {
    Rational::new(n, d)
}

fn austin() -> Location {
    Location { country: Country::UnitedStates, state: State::TX, city: "Austin".to_string() }
}

fn san_francisco() -> Location {
    Location { country: Country::UnitedStates, state: State::CA, city: "SF".to_string() }
}

#[test]
fn same_place_post_tax_estimate_returns_the_income() {
    let person = Citizen {
        income: rat(100_000, 1),
        monthly_expenses: rat(2_000, 1),
        status: MaritalStatus::Single,
        home: austin(),
    };
    let equivalent = person
        .estimate_equivalent_income_at(&austin(), AnalysisMode::PostTax)
        .unwrap();
    assert!(equivalent.eq_rat(&person.income));
}

#[test]
fn moving_to_higher_taxes_needs_higher_income() {
    let person = Citizen {
        income: rat(100_000, 1),
        monthly_expenses: rat(2_000, 1),
        status: MaritalStatus::Single,
        home: austin(),
    };
    let equivalent = person
        .estimate_equivalent_income_at(&san_francisco(), AnalysisMode::PostTax)
        .unwrap();
    assert!(person.income.lt(&equivalent));
    // the target income nets at the target what the income netted at home
    let home_net = person.home.calc_net(&person.income, person.status).unwrap();
    let target_net = san_francisco().calc_net(&equivalent, person.status).unwrap();
    assert!(home_net.eq_rat(&target_net));
}

#[test]
fn flat_systems_estimate_exactly() {
    // home taxes 20 %, target taxes 50 %: keeping net 80 needs gross 160
    let home = TaxSystem::flat(rat(20, 100)).unwrap();
    let target = TaxSystem::flat(rat(50, 100)).unwrap();
    let one = rat(1, 1);
    let equivalent = estimate_equivalent_income(
        &home,
        &target,
        &rat(100, 1),
        &Rational::zero(),
        MaritalStatus::Single,
        AnalysisMode::PostTax,
        &one,
        &one,
    )
    .unwrap();
    assert!(equivalent.eq_rat(&rat(160, 1)));
}

#[test]
fn disposable_mode_scales_expenses_by_living_costs() {
    // no taxes on either side isolates the living-cost arithmetic:
    // net 100, annual expenses 12 * 5 = 60, factor ratio 2: target net
    // is 40 + 120 = 160
    let no_tax = TaxSystem::new(None, None, None, None);
    let no_tax_target = TaxSystem::new(None, None, None, None);
    let equivalent = estimate_equivalent_income(
        &no_tax,
        &no_tax_target,
        &rat(100, 1),
        &rat(5, 1),
        MaritalStatus::Single,
        AnalysisMode::Disposable,
        &rat(1, 1),
        &rat(2, 1),
    )
    .unwrap();
    assert!(equivalent.eq_rat(&rat(160, 1)));
}

#[test]
fn expenses_above_net_income_are_an_error() {
    let no_tax = TaxSystem::new(None, None, None, None);
    let target = TaxSystem::new(None, None, None, None);
    let r = estimate_equivalent_income(
        &no_tax,
        &target,
        &rat(100, 1),
        &rat(10, 1),
        MaritalStatus::Single,
        AnalysisMode::Disposable,
        &rat(1, 1),
        &rat(1, 1),
    );
    assert_eq!(r.err(), Some(TaxError::ExpensesExceedIncome));
}

#[test]
fn citizen_taxes_match_location_taxes() {
    let person = Citizen {
        income: rat(50_000, 1),
        monthly_expenses: rat(1_000, 1),
        status: MaritalStatus::Joint,
        home: austin(),
    };
    let at_home = person.calc_taxes().unwrap();
    let direct = austin().calc_taxes(&person.income, person.status).unwrap();
    assert!(at_home.eq_rat(&direct));
    let elsewhere = person.calc_taxes_at(&san_francisco()).unwrap();
    assert!(at_home.lt(&elsewhere));
}
