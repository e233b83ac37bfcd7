//! Checks of the small name parsers.

use tax_brackets::cfg::AnalysisMode;
use tax_brackets::errors::ParseError;
use tax_brackets::loc::{Country, State};
use tax_brackets::system::MaritalStatus;

#[test]
fn marital_status_parses_ignoring_case() {
    assert_eq!(MaritalStatus::from_str("single"), Ok(MaritalStatus::Single));
    assert_eq!(MaritalStatus::from_str("SiNgLe"), Ok(MaritalStatus::Single));
    assert_eq!(MaritalStatus::from_str("JOINT"), Ok(MaritalStatus::Joint));
    assert_eq!(MaritalStatus::from_str("separate"), Ok(MaritalStatus::Separate));
    assert_eq!(MaritalStatus::from_str("Head"), Ok(MaritalStatus::HeadOfHousehold));
    assert_eq!(MaritalStatus::from_str("widowed"), Err(ParseError::UnknownStatus));
    assert_eq!(MaritalStatus::from_str(""), Err(ParseError::UnknownStatus));
}

#[test]
fn analysis_mode_parses_exactly() {
    assert_eq!(AnalysisMode::from_str("post_tax"), Ok(AnalysisMode::PostTax));
    assert_eq!(AnalysisMode::from_str("disposable"), Ok(AnalysisMode::Disposable));
    assert_eq!(AnalysisMode::from_str("Post_Tax"), Err(ParseError::UnknownMode));
    assert_eq!(AnalysisMode::from_str("other"), Err(ParseError::UnknownMode));
}

#[test]
fn analysis_mode_text_round_trips() {
    assert_eq!(AnalysisMode::PostTax.as_text(), "post_tax");
    assert_eq!(AnalysisMode::Disposable.as_text(), "disposable");
    assert_eq!(AnalysisMode::default(), AnalysisMode::Disposable);
    assert_eq!(
        AnalysisMode::from_str(&AnalysisMode::PostTax.as_text()),
        Ok(AnalysisMode::PostTax)
    );
}

#[test]
fn state_parses_name_or_abbreviation() {
    assert_eq!(State::from_str("CA"), Ok(State::CA));
    assert_eq!(State::from_str("California"), Ok(State::CA));
    assert_eq!(State::from_str("TX"), Ok(State::TX));
    assert_eq!(State::from_str("Texas"), Ok(State::TX));
    assert_eq!(State::from_str("NY"), Err(ParseError::UnknownState));
    assert_eq!(State::from_str("ca"), Err(ParseError::UnknownState));
}

#[test]
fn country_parses_its_aliases() {
    for name in ["USA", "United States", "America", "US"] {
        assert_eq!(Country::from_str(name), Ok(Country::UnitedStates));
    }
    assert_eq!(Country::from_str("Canada"), Err(ParseError::UnknownCountry));
}
