//! Checks of the per-status profiles, the jurisdiction tables and the
//! location stacking.

use tax_brackets::brackets::TaxBrackets;
use tax_brackets::errors::TaxError;
use tax_brackets::loc::{country_tax_system, Country, Location, State};
use tax_brackets::rational::Rational;
use tax_brackets::system::{MaritalStatus, TaxSystem};

fn rat(n: u64, d: u64) -> Rational {
    Rational::new(n, d)
}

fn all_statuses() -> Vec<MaritalStatus> {
    vec![
        MaritalStatus::Single,
        MaritalStatus::Joint,
        MaritalStatus::Separate,
        MaritalStatus::HeadOfHousehold,
    ]
}

#[test]
fn flat_profile_taxes_every_status() {
    let sys = TaxSystem::flat(rat(15, 1_000)).unwrap();
    for status in all_statuses() {
        let tax = sys.calc_taxes(&rat(10_000, 1), status);
        assert!(tax.eq_rat(&rat(150, 1)));
    }
}

#[test]
fn flat_profile_rejects_rate_of_one() {
    assert_eq!(TaxSystem::flat(rat(1, 1)).err(), Some(TaxError::RateOutOfRange));
}

#[test]
fn absent_status_means_zero_tax() {
    let sched = TaxBrackets::new(Vec::new(), vec![rat(15, 100)]).unwrap();
    let sys = TaxSystem::new(Some(sched), None, None, None);
    let gross = rat(1_000, 1);
    // the single schedule is on file; every other status passes through
    assert!(sys.calc_taxes(&gross, MaritalStatus::Single).eq_rat(&rat(150, 1)));
    assert!(sys.calc_taxes(&gross, MaritalStatus::Joint).eq_rat(&Rational::zero()));
    assert!(sys.calc_net(&gross, MaritalStatus::Joint).eq_rat(&gross));
    assert!(sys.calc_gross(&gross, MaritalStatus::Separate).eq_rat(&gross));
}

#[test]
fn system_merge_carries_lone_statuses() {
    let a = TaxSystem::new(
        Some(TaxBrackets::new(Vec::new(), vec![rat(10, 100)]).unwrap()),
        None,
        None,
        None,
    );
    let b = TaxSystem::new(
        Some(TaxBrackets::new(Vec::new(), vec![rat(5, 100)]).unwrap()),
        Some(TaxBrackets::new(Vec::new(), vec![rat(7, 100)]).unwrap()),
        None,
        None,
    );
    let merged = TaxSystem::merge(a, b).unwrap();
    let gross = rat(100, 1);
    // both sides for single: 15 %, one side for joint: 7 %, none else
    assert!(merged.calc_taxes(&gross, MaritalStatus::Single).eq_rat(&rat(15, 1)));
    assert!(merged.calc_taxes(&gross, MaritalStatus::Joint).eq_rat(&rat(7, 1)));
    assert!(merged.calc_taxes(&gross, MaritalStatus::Separate).eq_rat(&Rational::zero()));
}

#[test]
fn usa_table_has_every_status() {
    let sys = country_tax_system(&Country::UnitedStates);
    let gross = rat(9_875, 1);
    // income at the first federal separator is taxed wholly at 10 %
    assert!(sys.calc_taxes(&gross, MaritalStatus::Single).eq_rat(&rat(9_875, 10)));
    for status in all_statuses() {
        let tax = sys.calc_taxes(&rat(100_000, 1), status);
        assert!(Rational::zero().le(&tax));
        assert!(!tax.eq_rat(&Rational::zero()));
    }
}

#[test]
fn austin_pays_federal_tax_only() {
    let austin = Location {
        country: Country::UnitedStates,
        state: State::TX,
        city: "Austin".to_string(),
    };
    let federal = country_tax_system(&Country::UnitedStates);
    let gross = rat(100_000, 1);
    let at_location = austin.calc_taxes(&gross, MaritalStatus::Single).unwrap();
    let federal_only = federal.calc_taxes(&gross, MaritalStatus::Single);
    assert!(at_location.eq_rat(&federal_only));
    // income at the first federal separator is taxed wholly at 10 %
    let at_separator = austin.calc_taxes(&rat(9_875, 1), MaritalStatus::Single).unwrap();
    assert!(at_separator.eq_rat(&rat(98_75, 10)));
}

#[test]
fn san_francisco_adds_state_and_city_layers() {
    let sf = Location {
        country: Country::UnitedStates,
        state: State::CA,
        city: "San Francisco".to_string(),
    };
    let austin = Location {
        country: Country::UnitedStates,
        state: State::TX,
        city: "Austin".to_string(),
    };
    let gross = rat(100_000, 1);
    let sf_tax = sf.calc_taxes(&gross, MaritalStatus::Single).unwrap();
    let austin_tax = austin.calc_taxes(&gross, MaritalStatus::Single).unwrap();
    // the CA and SF layers charge strictly more than federal alone
    assert!(austin_tax.lt(&sf_tax));
    let net = sf.calc_net(&gross, MaritalStatus::Single).unwrap();
    assert!(net.le(&gross));
    let back = sf.calc_gross(&net, MaritalStatus::Single).unwrap();
    assert!(back.eq_rat(&gross));
}

#[test]
fn unknown_city_is_reported() {
    let nowhere = Location {
        country: Country::UnitedStates,
        state: State::TX,
        city: "Nowhere".to_string(),
    };
    let r = nowhere.calc_taxes(&rat(1, 1), MaritalStatus::Single);
    assert_eq!(r.err(), Some(TaxError::UnsupportedLocation));
}

#[test]
fn living_costs_factor_is_positive() {
    let sf = Location {
        country: Country::UnitedStates,
        state: State::CA,
        city: "SF".to_string(),
    };
    let austin = Location {
        country: Country::UnitedStates,
        state: State::TX,
        city: "Austin".to_string(),
    };
    assert!(Rational::zero().lt(&sf.get_living_costs_factor()));
    assert!(Rational::zero().lt(&austin.get_living_costs_factor()));
    assert!(austin.get_living_costs_factor().lt(&sf.get_living_costs_factor()));
}
