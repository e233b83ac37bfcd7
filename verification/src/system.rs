//! Filing statuses and the per-status tax profile of a jurisdiction.
//!
//! A `TaxSystem` maps each filing status to an optional bracket
//! schedule.  A status with no schedule on file means zero tax there:
//! taxes come out as zero and net and gross pass through unchanged.

use vstd::prelude::*;

use crate::brackets::{SchedV, TaxBrackets};
use crate::errors::{ParseError, TaxError};
use crate::rational::Rational;
use crate::ratspec::{eqv, ltv, onev, zerov, RatV};
use crate::sched_spec::{merge_spec, net_of, rates_below_one, tax_of};
use crate::text::{eq_ignore_case, eq_lowered};

verus! {

#[derive(Debug, Clone, Copy, Hash, PartialEq, Eq, Structural)]
pub enum MaritalStatus {
    Single,
    Joint,
    Separate,
    HeadOfHousehold,
}

impl MaritalStatus {
    /// Parses a filing status name, ignoring ASCII case.
    pub fn from_str(s: &str) -> (r: Result<MaritalStatus, ParseError>)
        ensures
            r == Ok::<MaritalStatus, ParseError>(MaritalStatus::Single) <==> eq_lowered(
                s@,
                "single"@,
            ),
            r == Ok::<MaritalStatus, ParseError>(MaritalStatus::Joint) <==> eq_lowered(
                s@,
                "joint"@,
            ),
            r == Ok::<MaritalStatus, ParseError>(MaritalStatus::Separate) <==> eq_lowered(
                s@,
                "separate"@,
            ),
            r == Ok::<MaritalStatus, ParseError>(MaritalStatus::HeadOfHousehold) <==> eq_lowered(
                s@,
                "head"@,
            ),
            r is Err ==> r == Err::<MaritalStatus, ParseError>(ParseError::UnknownStatus),
    {
        proof {
            reveal_strlit("single");
            reveal_strlit("joint");
            reveal_strlit("separate");
            reveal_strlit("head");
        }
        if eq_ignore_case(s, "single") {
            Ok(MaritalStatus::Single)
        } else if eq_ignore_case(s, "joint") {
            Ok(MaritalStatus::Joint)
        } else if eq_ignore_case(s, "separate") {
            Ok(MaritalStatus::Separate)
        } else if eq_ignore_case(s, "head") {
            Ok(MaritalStatus::HeadOfHousehold)
        } else {
            Err(ParseError::UnknownStatus)
        }
    }
}

/// The schedule a stored option denotes.
pub open spec fn opt_sched(o: Option<TaxBrackets>) -> Option<SchedV> {
    match o {
        Some(b) => Some(b@),
        None => None,
    }
}

/// Whether merging the schedules of one status can succeed: a status
/// present on both sides needs every summed rate below one.
pub open spec fn merged_status_ok(a: Option<SchedV>, b: Option<SchedV>) -> bool {
    match (a, b) {
        (Some(x), Some(y)) => rates_below_one(merge_spec(x.seps, x.rates, y.seps, y.rates).1),
        _ => true,
    }
}

/// The schedule of one status after a merge: a side alone is carried
/// through, two sides are merged bracket by bracket.
pub open spec fn merged_status(a: Option<SchedV>, b: Option<SchedV>) -> Option<SchedV> {
    match (a, b) {
        (Some(x), Some(y)) => Some(
            SchedV {
                seps: merge_spec(x.seps, x.rates, y.seps, y.rates).0,
                rates: merge_spec(x.seps, x.rates, y.seps, y.rates).1,
            },
        ),
        (Some(x), None) => Some(x),
        (None, Some(y)) => Some(y),
        (None, None) => None,
    }
}

/// One jurisdiction's tax profile: a schedule per filing status, with
/// absence meaning no tax regime for that status.
pub struct TaxSystem {
    single: Option<TaxBrackets>,
    joint: Option<TaxBrackets>,
    separate: Option<TaxBrackets>,
    head_of_household: Option<TaxBrackets>,
}

impl TaxSystem {
    /// The schedule in force for a status, if one is on file.
    pub closed spec fn spec_get(&self, status: MaritalStatus) -> Option<SchedV> {
        match status {
            MaritalStatus::Single => opt_sched(self.single),
            MaritalStatus::Joint => opt_sched(self.joint),
            MaritalStatus::Separate => opt_sched(self.separate),
            MaritalStatus::HeadOfHousehold => opt_sched(self.head_of_household),
        }
    }

    /// Assembles a profile from one optional schedule per status.
    pub fn new(
        single: Option<TaxBrackets>,
        joint: Option<TaxBrackets>,
        separate: Option<TaxBrackets>,
        head_of_household: Option<TaxBrackets>,
    ) -> (r: TaxSystem)
        ensures
            r.spec_get(MaritalStatus::Single) == opt_sched(single),
            r.spec_get(MaritalStatus::Joint) == opt_sched(joint),
            r.spec_get(MaritalStatus::Separate) == opt_sched(separate),
            r.spec_get(MaritalStatus::HeadOfHousehold) == opt_sched(head_of_household),
    {
        TaxSystem { single, joint, separate, head_of_household }
    }

    /// The profile that taxes every status at one flat rate.
    pub fn flat(rate: Rational) -> (r: Result<TaxSystem, TaxError>)
        ensures
            r is Ok <==> ltv(rate@, onev()),
            r matches Ok(sys) ==> forall|status: MaritalStatus|
                #[trigger] sys.spec_get(status) == Some(
                    SchedV { seps: Seq::<RatV>::empty(), rates: seq![rate@] },
                ),
            r matches Err(e) ==> e == TaxError::RateOutOfRange,
    {
        let b1 = match flat_bracket(&rate) {
            Ok(b) => b,
            Err(e) => { return Err(e) },
        };
        let b2 = match flat_bracket(&rate) {
            Ok(b) => b,
            Err(e) => { return Err(e) },
        };
        let b3 = match flat_bracket(&rate) {
            Ok(b) => b,
            Err(e) => { return Err(e) },
        };
        let b4 = match flat_bracket(&rate) {
            Ok(b) => b,
            Err(e) => { return Err(e) },
        };
        Ok(TaxSystem { single: Some(b1), separate: Some(b2), joint: Some(b3),
            head_of_household: Some(b4) })
    }

    /// The tax a status owes on a gross income; zero where no schedule
    /// is on file.
    pub fn calc_taxes(&self, gross: &Rational, status: MaritalStatus) -> (r: Rational)
        ensures
            match self.spec_get(status) {
                Some(sch) => crate::sched_spec::sched_wf(sch.seps, sch.rates) && eqv(
                    r@,
                    tax_of(sch.seps, sch.rates, gross@),
                ),
                None => r@ == zerov(),
            },
    {
        match self.get_for(status) {
            Some(b) => b.calc_taxes(gross),
            None => Rational::zero(),
        }
    }

    /// The net income a status keeps from a gross income; unchanged
    /// where no schedule is on file.
    pub fn calc_net(&self, gross: &Rational, status: MaritalStatus) -> (r: Rational)
        ensures
            match self.spec_get(status) {
                Some(sch) => crate::sched_spec::sched_wf(sch.seps, sch.rates) && eqv(
                    r@,
                    net_of(sch.seps, sch.rates, gross@),
                ),
                None => r@ == gross@,
            },
    {
        match self.get_for(status) {
            Some(b) => b.calc_net(gross),
            None => gross.dup(),
        }
    }

    /// The gross income a status needs to keep the given net income;
    /// unchanged where no schedule is on file.
    pub fn calc_gross(&self, net: &Rational, status: MaritalStatus) -> (r: Rational)
        ensures
            match self.spec_get(status) {
                Some(sch) => crate::sched_spec::sched_wf(sch.seps, sch.rates) && eqv(
                    net_of(sch.seps, sch.rates, r@),
                    net@,
                ),
                None => r@ == net@,
            },
    {
        match self.get_for(status) {
            Some(b) => b.calc_gross(net),
            None => net.dup(),
        }
    }

    fn get_for(&self, status: MaritalStatus) -> (r: Option<&TaxBrackets>)
        ensures
            match r {
                Some(b) => self.spec_get(status) == Some(b@),
                None => self.spec_get(status) is None,
            },
    {
        match status {
            MaritalStatus::Single => self.single.as_ref(),
            MaritalStatus::Joint => self.joint.as_ref(),
            MaritalStatus::Separate => self.separate.as_ref(),
            MaritalStatus::HeadOfHousehold => self.head_of_household.as_ref(),
        }
    }

    /// Combines two profiles status by status: a status present on one
    /// side alone is carried through; one present on both sides gets
    /// the bracket merge of its two schedules.
    pub fn merge(lhs: TaxSystem, rhs: TaxSystem) -> (r: Result<TaxSystem, TaxError>)
        ensures
            r is Ok <==> (merged_status_ok(
                lhs.spec_get(MaritalStatus::Single),
                rhs.spec_get(MaritalStatus::Single),
            ) && merged_status_ok(
                lhs.spec_get(MaritalStatus::Separate),
                rhs.spec_get(MaritalStatus::Separate),
            ) && merged_status_ok(
                lhs.spec_get(MaritalStatus::Joint),
                rhs.spec_get(MaritalStatus::Joint),
            ) && merged_status_ok(
                lhs.spec_get(MaritalStatus::HeadOfHousehold),
                rhs.spec_get(MaritalStatus::HeadOfHousehold),
            )),
            r matches Ok(m) ==> {
                &&& m.spec_get(MaritalStatus::Single) == merged_status(
                    lhs.spec_get(MaritalStatus::Single),
                    rhs.spec_get(MaritalStatus::Single),
                )
                &&& m.spec_get(MaritalStatus::Joint) == merged_status(
                    lhs.spec_get(MaritalStatus::Joint),
                    rhs.spec_get(MaritalStatus::Joint),
                )
                &&& m.spec_get(MaritalStatus::Separate) == merged_status(
                    lhs.spec_get(MaritalStatus::Separate),
                    rhs.spec_get(MaritalStatus::Separate),
                )
                &&& m.spec_get(MaritalStatus::HeadOfHousehold) == merged_status(
                    lhs.spec_get(MaritalStatus::HeadOfHousehold),
                    rhs.spec_get(MaritalStatus::HeadOfHousehold),
                )
            },
            r matches Err(e) ==> e == TaxError::RateOutOfRange,
    {
        let TaxSystem { single: ls, joint: lj, separate: lp, head_of_household: lh } = lhs;
        let TaxSystem { single: rs, joint: rj, separate: rp, head_of_household: rh } = rhs;
        let single = match merge_status(ls, rs) {
            Ok(o) => o,
            Err(e) => { return Err(e) },
        };
        let separate = match merge_status(lp, rp) {
            Ok(o) => o,
            Err(e) => { return Err(e) },
        };
        let joint = match merge_status(lj, rj) {
            Ok(o) => o,
            Err(e) => { return Err(e) },
        };
        let head_of_household = match merge_status(lh, rh) {
            Ok(o) => o,
            Err(e) => { return Err(e) },
        };
        Ok(TaxSystem { single, joint, separate, head_of_household })
    }
}

/// A single-bracket schedule at the given rate.
fn flat_bracket(rate: &Rational) -> (r: Result<TaxBrackets, TaxError>)
    ensures
        r is Ok <==> ltv(rate@, onev()),
        r matches Ok(b) ==> b@ == (SchedV { seps: Seq::<RatV>::empty(), rates: seq![rate@] }),
        r matches Err(e) ==> e == TaxError::RateOutOfRange,
{
    let seps: Vec<Rational> = Vec::new();
    let mut rates: Vec<Rational> = Vec::new();
    rates.push(rate.dup());
    proof {
        assert(crate::brackets::rats_of(seps@) =~= Seq::<RatV>::empty());
        assert(crate::brackets::rats_of(rates@) =~= seq![rate@]);
        let rv = crate::brackets::rats_of(rates@);
        assert(rv[0] == rate@);
        if ltv(rate@, onev()) {
            assert(forall|i: int| 0 <= i < rv.len() ==> ltv(#[trigger] rv[i], onev()));
        }
    }
    TaxBrackets::new(seps, rates)
}

/// Merges the optional schedules of one status.
fn merge_status(a: Option<TaxBrackets>, b: Option<TaxBrackets>) -> (r: Result<
    Option<TaxBrackets>,
    TaxError,
>)
    ensures
        r is Ok <==> merged_status_ok(opt_sched(a), opt_sched(b)),
        r matches Ok(o) ==> opt_sched(o) == merged_status(opt_sched(a), opt_sched(b)),
        r matches Err(e) ==> e == TaxError::RateOutOfRange,
{
    match (a, b) {
        (None, None) => Ok(None),
        (Some(x), None) => Ok(Some(x)),
        (None, Some(y)) => Ok(Some(y)),
        (Some(x), Some(y)) => match TaxBrackets::merge(x, y) {
            Ok(m) => Ok(Some(m)),
            Err(e) => Err(e),
        },
    }
}

} // verus!
