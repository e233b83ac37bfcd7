//! The analysis modes the estimator can run in.

use vstd::prelude::*;

use crate::errors::ParseError;
use crate::text::str_eq;

verus! {

/// How an equivalent income is estimated: inverting taxes alone, or
/// additionally normalising disposable income by living costs.
#[derive(Debug, Clone, Copy, PartialEq, Eq, Hash, Structural)]
pub enum AnalysisMode {
    PostTax,
    Disposable,
}

impl Default for AnalysisMode {
    /// The default analysis covers living costs as well as taxes.
    fn default() -> (r: AnalysisMode)
        ensures
            r == AnalysisMode::Disposable,
    {
        AnalysisMode::Disposable
    }
}

impl AnalysisMode {
    /// Parses an analysis mode name, exactly as written.
    pub fn from_str(s: &str) -> (r: Result<AnalysisMode, ParseError>)
        ensures
            r == Ok::<AnalysisMode, ParseError>(AnalysisMode::PostTax) <==> s@ == "post_tax"@,
            r == Ok::<AnalysisMode, ParseError>(AnalysisMode::Disposable) <==> s@
                == "disposable"@,
            r is Err ==> r == Err::<AnalysisMode, ParseError>(ParseError::UnknownMode),
    {
        proof {
            reveal_strlit("post_tax");
            reveal_strlit("disposable");
        }
        if str_eq(s, "post_tax") {
            proof {
                assert("post_tax"@.len() == 8);
                assert("disposable"@.len() == 10);
            }
            Ok(AnalysisMode::PostTax)
        } else if str_eq(s, "disposable") {
            Ok(AnalysisMode::Disposable)
        } else {
            Err(ParseError::UnknownMode)
        }
    }

    /// The mode's name, as `from_str` accepts it.
    pub fn as_text(&self) -> (r: String)
        ensures
            *self == AnalysisMode::PostTax ==> r@ == "post_tax"@,
            *self == AnalysisMode::Disposable ==> r@ == "disposable"@,
    {
        match self {
            AnalysisMode::PostTax => "post_tax".to_owned(),
            AnalysisMode::Disposable => "disposable".to_owned(),
        }
    }
}

} // verus!
