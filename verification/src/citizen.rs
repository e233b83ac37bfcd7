//! A tax payer and the equivalent-income estimation.
//!
//! The engine-level estimator works on two resolved tax profiles: it
//! nets the income at the source, optionally re-normalises recurring
//! expenses by the two places' living costs, and inverts the target
//! profile to find the gross income that preserves the position.  The
//! `Citizen` methods resolve locations to profiles and delegate.

use vstd::prelude::*;

use crate::brackets::SchedV;
use crate::cfg::AnalysisMode;
use crate::errors::TaxError;
use crate::loc::Location;
use crate::rational::Rational;
use crate::ratspec::{
    addv, divv, eqv, intv, lemma_add_congr, lemma_eqv_trans, lemma_sub_congr, lev, ltv, mulv,
    subv, wfv, zerov, RatV,
};
use crate::sched_spec::lemma_lt_congr;
use crate::sched_spec::{
    lemma_pos_mul_ints, lemma_tax_wf, lemma_wf_sub, lemma_zero_le_wf, net_of, tax_of,
};
use crate::system::{MaritalStatus, TaxSystem};

verus! {

/// The net income a profile leaves from a gross income: the schedule's
/// net where one is on file, the gross itself where none is.
pub open spec fn net_under(o: Option<SchedV>, g: RatV) -> RatV {
    match o {
        Some(s) => net_of(s.seps, s.rates, g),
        None => g,
    }
}

/// The amount `r` is a gross income that nets to `n` under the
/// profile: through the schedule where one is on file, as the amount
/// itself where none is.
pub open spec fn inverts_to(o: Option<SchedV>, r: RatV, n: RatV) -> bool {
    match o {
        Some(s) => eqv(net_of(s.seps, s.rates, r), n),
        None => eqv(r, n),
    }
}

/// A year of the given monthly expenses.
pub open spec fn annualized(monthly: RatV) -> RatV {
    mulv(intv(12), monthly)
}

/// The net income to target under the disposable analysis: what is
/// left after a year of expenses, plus those expenses scaled by the
/// ratio of the two places' living costs.
pub open spec fn disposable_target(
    source: Option<SchedV>,
    income: RatV,
    monthly: RatV,
    source_factor: RatV,
    target_factor: RatV,
) -> RatV {
    let n = net_under(source, income);
    let annual = annualized(monthly);
    addv(subv(n, annual), mulv(annual, divv(target_factor, source_factor)))
}

/// Round trip through a profile: a gross income that inverts to the
/// net of `g` under the same profile is `g` itself.  In particular,
/// estimating between two places with the same resolved schedule
/// returns the income unchanged.
pub proof fn lemma_profile_round_trip(o: Option<SchedV>, v: RatV, g: RatV)
    requires
        match o {
            Some(s) => crate::sched_spec::sched_wf(s.seps, s.rates),
            None => true,
        },
        wfv(v),
        wfv(g),
        inverts_to(o, v, net_under(o, g)),
    ensures
        eqv(v, g),
{
    match o {
        Some(s) => {
            crate::laws::lemma_round_trip(s.seps, s.rates, g, v);
        },
        None => {},
    }
}

/// The net income under a profile is well formed.
proof fn lemma_net_under_wf(o: Option<SchedV>, g: RatV)
    requires
        wfv(g),
        match o {
            Some(s) => crate::sched_spec::sched_wf(s.seps, s.rates),
            None => true,
        },
    ensures
        wfv(net_under(o, g)),
{
    match o {
        Some(s) => {
            crate::laws::lemma_zero_frame(s.seps, s.rates);
            lemma_zero_le_wf(g);
            lemma_tax_wf(s.seps, s.rates, zerov(), g);
            crate::laws::lemma_tax_bounds(s.seps, s.rates, g);
            lemma_wf_sub(g, tax_of(s.seps, s.rates, g));
        },
        None => {},
    }
}

/// Estimates the gross income needed under the target profile to
/// preserve the financial position held under the source profile.
///
/// In the post-tax mode the target gross nets to exactly the source
/// net.  In the disposable mode a year of recurring expenses is set
/// aside first, re-priced by the ratio of the living-cost factors, and
/// the target gross nets to what covers the rest; expenses higher than
/// the source net income are reported as an error.
pub fn estimate_equivalent_income(
    source: &TaxSystem,
    target: &TaxSystem,
    income: &Rational,
    monthly_expenses: &Rational,
    status: MaritalStatus,
    mode: AnalysisMode,
    source_factor: &Rational,
    target_factor: &Rational,
) -> (r: Result<Rational, TaxError>)
    requires
        ltv(zerov(), source_factor@),
        ltv(zerov(), target_factor@),
    ensures
        mode == AnalysisMode::PostTax ==> (r matches Ok(v) && inverts_to(
            target.spec_get(status),
            v@,
            net_under(source.spec_get(status), income@),
        )),
        mode == AnalysisMode::Disposable ==> (r is Err <==> ltv(
            net_under(source.spec_get(status), income@),
            annualized(monthly_expenses@),
        )),
        mode == AnalysisMode::Disposable ==> (r matches Err(e) ==> e
            == TaxError::ExpensesExceedIncome),
        mode == AnalysisMode::Disposable ==> (r matches Ok(v) ==> inverts_to(
            target.spec_get(status),
            v@,
            disposable_target(
                source.spec_get(status),
                income@,
                monthly_expenses@,
                source_factor@,
                target_factor@,
            ),
        )),
{
    proof {
        use_type_invariant(income);
        use_type_invariant(monthly_expenses);
    }
    let ghost nspec = net_under(source.spec_get(status), income@);
    let net = source.calc_net(income, status);
    proof {
        use_type_invariant(&net);
        lemma_net_under_wf(source.spec_get(status), income@);
        assert(eqv(net@, nspec));
    }
    match mode {
        AnalysisMode::PostTax => {
            let g = target.calc_gross(&net, status);
            proof {
                use_type_invariant(&g);
                match target.spec_get(status) {
                    Some(sch) => {
                        crate::laws::lemma_zero_frame(sch.seps, sch.rates);
                        lemma_zero_le_wf(g@);
                        lemma_tax_wf(sch.seps, sch.rates, zerov(), g@);
                        lemma_pos_mul_ints(g@.d, tax_of(sch.seps, sch.rates, g@).d);
                        lemma_eqv_trans(net_of(sch.seps, sch.rates, g@), net@, nspec);
                    },
                    None => {
                        lemma_eqv_trans(g@, net@, nspec);
                    },
                }
            }
            Ok(g)
        },
        AnalysisMode::Disposable => {
            let twelve = Rational::from_u64(12);
            let annual = twelve.mul(monthly_expenses);
            proof {
                use_type_invariant(&annual);
                assert(annual@ == annualized(monthly_expenses@));
            }
            if net.lt(&annual) {
                proof {
                    lemma_lt_congr(net@, annual@, nspec, annual@);
                }
                return Err(TaxError::ExpensesExceedIncome);
            }
            proof {
                // the spec-side comparison agrees with the runtime one
                if ltv(nspec, annual@) {
                    lemma_lt_congr(nspec, annual@, net@, annual@);
                }
            }
            let disposable = net.sub(&annual);
            let ratio = target_factor.div(source_factor);
            let boosted = annual.mul(&ratio);
            let target_net = disposable.add(&boosted);
            let ghost gspec = disposable_target(
                source.spec_get(status),
                income@,
                monthly_expenses@,
                source_factor@,
                target_factor@,
            );
            proof {
                use_type_invariant(&target_net);
                use_type_invariant(&boosted);
                lemma_pos_mul_ints(nspec.d, annual@.d);
                lemma_pos_mul_ints(net@.d, annual@.d);
                lemma_pos_mul_ints(subv(nspec, annual@).d, boosted@.d);
                lemma_sub_congr(net@, annual@, nspec, annual@);
                lemma_add_congr(subv(net@, annual@), boosted@, subv(nspec, annual@), boosted@);
                assert(target_net@ == addv(subv(net@, annual@), boosted@));
                assert(gspec == addv(subv(nspec, annual@), boosted@));
                assert(eqv(target_net@, gspec));
            }
            let g = target.calc_gross(&target_net, status);
            proof {
                use_type_invariant(&g);
                match target.spec_get(status) {
                    Some(sch) => {
                        crate::laws::lemma_zero_frame(sch.seps, sch.rates);
                        lemma_zero_le_wf(g@);
                        lemma_tax_wf(sch.seps, sch.rates, zerov(), g@);
                        lemma_pos_mul_ints(g@.d, tax_of(sch.seps, sch.rates, g@).d);
                        lemma_eqv_trans(net_of(sch.seps, sch.rates, g@), target_net@, gspec);
                    },
                    None => {
                        lemma_eqv_trans(g@, target_net@, gspec);
                    },
                }
            }
            Ok(g)
        },
    }
}

/// A tax payer: income and recurring expenses, filing status, and the
/// place they pay taxes at.
#[derive(Debug)]
pub struct Citizen {
    pub income: Rational,
    pub monthly_expenses: Rational,
    pub status: MaritalStatus,
    pub home: Location,
}

impl Citizen {
    /// The tax owed at home on the citizen's income, under home's
    /// resolved schedule; never negative.
    pub fn calc_taxes(&self) -> (r: Result<Rational, TaxError>)
        ensures
            r is Ok <==> crate::loc::resolvable(self.home.state, self.home.city@),
            r matches Ok(v) ==> eqv(
                v@,
                tax_of(
                    crate::loc::resolved_sched(self.home.state, self.home.city@, self.status).seps,
                    crate::loc::resolved_sched(
                        self.home.state,
                        self.home.city@,
                        self.status,
                    ).rates,
                    self.income@,
                ),
            ) && lev(zerov(), v@),
    {
        self.home.calc_taxes(&self.income, self.status)
    }

    /// The tax the citizen's income would owe at another place, under
    /// that place's resolved schedule; never negative.
    pub fn calc_taxes_at(&self, loc: &Location) -> (r: Result<Rational, TaxError>)
        ensures
            r is Ok <==> crate::loc::resolvable(loc.state, loc.city@),
            r matches Ok(v) ==> eqv(
                v@,
                tax_of(
                    crate::loc::resolved_sched(loc.state, loc.city@, self.status).seps,
                    crate::loc::resolved_sched(loc.state, loc.city@, self.status).rates,
                    self.income@,
                ),
            ) && lev(zerov(), v@),
    {
        loc.calc_taxes(&self.income, self.status)
    }

    /// The income the citizen would need at the target place to
    /// preserve their position: both places' tables are resolved, the
    /// income is netted under home's schedule, and the target's
    /// schedule is inverted — directly in the post-tax mode, after the
    /// living-cost adjustment of expenses in the disposable mode.
    pub fn estimate_equivalent_income_at(&self, target: &Location, mode: AnalysisMode) -> (r:
        Result<Rational, TaxError>)
        ensures
            r is Ok <==> (crate::loc::resolvable(self.home.state, self.home.city@)
                && crate::loc::resolvable(target.state, target.city@) && (mode
                == AnalysisMode::Disposable ==> !ltv(
                net_under(
                    Some(
                        crate::loc::resolved_sched(
                            self.home.state,
                            self.home.city@,
                            self.status,
                        ),
                    ),
                    self.income@,
                ),
                annualized(self.monthly_expenses@),
            ))),
            mode == AnalysisMode::PostTax ==> (r matches Ok(v) ==> inverts_to(
                Some(crate::loc::resolved_sched(target.state, target.city@, self.status)),
                v@,
                net_under(
                    Some(
                        crate::loc::resolved_sched(
                            self.home.state,
                            self.home.city@,
                            self.status,
                        ),
                    ),
                    self.income@,
                ),
            )),
            mode == AnalysisMode::Disposable ==> (r matches Ok(v) ==> inverts_to(
                Some(crate::loc::resolved_sched(target.state, target.city@, self.status)),
                v@,
                disposable_target(
                    Some(
                        crate::loc::resolved_sched(
                            self.home.state,
                            self.home.city@,
                            self.status,
                        ),
                    ),
                    self.income@,
                    self.monthly_expenses@,
                    crate::loc::living_costs_v(self.home.city@),
                    crate::loc::living_costs_v(target.city@),
                ),
            )),
            r matches Err(e) ==> (e == TaxError::UnsupportedLocation || e
                == TaxError::RateOutOfRange || e == TaxError::ExpensesExceedIncome),
    {
        let home_sys = match self.home.resolved_tax_system() {
            Ok(sys) => sys,
            Err(e) => { return Err(e) },
        };
        let target_sys = match target.resolved_tax_system() {
            Ok(sys) => sys,
            Err(e) => { return Err(e) },
        };
        let home_factor = self.home.get_living_costs_factor();
        let target_factor = target.get_living_costs_factor();
        estimate_equivalent_income(
            &home_sys,
            &target_sys,
            &self.income,
            &self.monthly_expenses,
            self.status,
            mode,
            &home_factor,
            &target_factor,
        )
    }
}

} // verus!
