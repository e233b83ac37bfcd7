//! Jurisdictions and their static tax tables.
//!
//! The tables here are data, not engine logic: bracket separators and
//! marginal rates for the supported country, states and cities, plus a
//! living-cost factor per place.  A location stacks its country, state
//! and city layers into one effective profile by merging them in order.

use vstd::prelude::*;

use crate::brackets::{rats_of, SchedV, TaxBrackets};
use crate::errors::{ParseError, TaxError};
use crate::rational::Rational;
use crate::ratspec::{eqv, lev, ltv, wfv, zerov, RatV};
use crate::sched_spec::{merge_spec, net_of, rates_below_one, sched_wf, tax_of};
use crate::system::{MaritalStatus, TaxSystem};
use crate::text::str_eq;
use vstd::pervasive::unreached;

verus! {

/// The countries with tax tables on file.
#[non_exhaustive]
#[derive(Debug, Clone, Copy, Hash, PartialEq, Eq, Structural)]
pub enum Country {
    UnitedStates,
}

impl Country {
    /// Parses a country name.
    pub fn from_str(s: &str) -> (r: Result<Country, ParseError>)
        ensures
            r is Ok <==> (s@ == "USA"@ || s@ == "United States"@ || s@ == "America"@ || s@
                == "US"@),
            r is Ok ==> r == Ok::<Country, ParseError>(Country::UnitedStates),
            r is Err ==> r == Err::<Country, ParseError>(ParseError::UnknownCountry),
    {
        if str_eq(s, "USA") || str_eq(s, "United States") || str_eq(s, "America") || str_eq(
            s,
            "US",
        ) {
            Ok(Country::UnitedStates)
        } else {
            Err(ParseError::UnknownCountry)
        }
    }
}

/// The states with tax tables on file.
#[non_exhaustive]
#[derive(Debug, Clone, Copy, Hash, PartialEq, Eq, Structural)]
pub enum State {
    CA,
    TX,
}

impl State {
    /// Parses a state name or abbreviation.
    pub fn from_str(s: &str) -> (r: Result<State, ParseError>)
        ensures
            r == Ok::<State, ParseError>(State::CA) <==> (s@ == "CA"@ || s@ == "California"@),
            r == Ok::<State, ParseError>(State::TX) <==> (s@ == "TX"@ || s@ == "Texas"@),
            r is Err ==> r == Err::<State, ParseError>(ParseError::UnknownState),
    {
        proof {
            reveal_strlit("CA");
            reveal_strlit("California");
            reveal_strlit("TX");
            reveal_strlit("Texas");
            assert(("CA"@).len() == 2);
            assert(("TX"@).len() == 2);
            assert(("California"@).len() == 10);
            assert(("Texas"@).len() == 5);
            assert(("CA"@)[0] == 'C');
            assert(("TX"@)[0] == 'T');
        }
        if str_eq(s, "CA") || str_eq(s, "California") {
            Ok(State::CA)
        } else if str_eq(s, "TX") || str_eq(s, "Texas") {
            Ok(State::TX)
        } else {
            Err(ParseError::UnknownState)
        }
    }
}

/// A whole-number amount as a rational value.
pub open spec fn whole(n: int) -> RatV {
    RatV { n: n, d: 1 }
}

/// A fractional rate as a rational value.
pub open spec fn frac(n: int, d: int) -> RatV {
    RatV { n: n, d: d }
}

/// The federal marginal rates.
pub open spec fn usa_rates_v() -> Seq<RatV> {
    seq![
        frac(10, 100),
        frac(12, 100),
        frac(22, 100),
        frac(24, 100),
        frac(32, 100),
        frac(35, 100),
        frac(37, 100),
    ]
}

/// The federal bracket separators of one filing status.
pub open spec fn usa_seps_v(status: MaritalStatus) -> Seq<RatV> {
    match status {
        MaritalStatus::Single => seq![
            whole(9_875),
            whole(40_125),
            whole(85_525),
            whole(163_300),
            whole(207_350),
            whole(518_400),
        ],
        MaritalStatus::Joint => seq![
            whole(19_750),
            whole(80_250),
            whole(171_050),
            whole(326_600),
            whole(414_700),
            whole(622_050),
        ],
        MaritalStatus::Separate => seq![
            whole(9_875),
            whole(40_125),
            whole(85_525),
            whole(163_300),
            whole(207_350),
            whole(518_400),
        ],
        MaritalStatus::HeadOfHousehold => seq![
            whole(14_100),
            whole(53_700),
            whole(85_500),
            whole(163_300),
            whole(207_350),
            whole(518_400),
        ],
    }
}

/// The federal schedule of one filing status.
pub open spec fn usa_sched(status: MaritalStatus) -> SchedV {
    SchedV { seps: usa_seps_v(status), rates: usa_rates_v() }
}

/// The California marginal rates.
pub open spec fn ca_rates_v() -> Seq<RatV> {
    seq![
        frac(110, 10_000),
        frac(220, 10_000),
        frac(440, 10_000),
        frac(660, 10_000),
        frac(880, 10_000),
        frac(1_023, 10_000),
        frac(1_133, 10_000),
        frac(1_243, 10_000),
        frac(1_353, 10_000),
        frac(1_463, 10_000),
    ]
}

/// The California bracket separators of one filing status.
pub open spec fn ca_seps_v(status: MaritalStatus) -> Seq<RatV> {
    match status {
        MaritalStatus::Single => seq![
            whole(8_809),
            whole(20_883),
            whole(32_960),
            whole(45_753),
            whole(57_824),
            whole(295_373),
            whole(354_445),
            whole(590_742),
            whole(1_000_000),
        ],
        MaritalStatus::Joint => seq![
            whole(17_618),
            whole(41_766),
            whole(65_920),
            whole(91_506),
            whole(115_648),
            whole(590_746),
            whole(708_890),
            whole(1_000_000),
            whole(1_181_484),
        ],
        MaritalStatus::Separate => seq![
            whole(8_809),
            whole(20_883),
            whole(32_960),
            whole(45_753),
            whole(57_824),
            whole(295_373),
            whole(354_445),
            whole(590_742),
            whole(1_000_000),
        ],
        MaritalStatus::HeadOfHousehold => seq![
            whole(17_629),
            whole(41_768),
            whole(53_843),
            whole(66_636),
            whole(78_710),
            whole(401_705),
            whole(482_047),
            whole(803_410),
            whole(1_000_000),
        ],
    }
}

/// The California schedule of one filing status.
pub open spec fn ca_sched(status: MaritalStatus) -> SchedV {
    SchedV { seps: ca_seps_v(status), rates: ca_rates_v() }
}

/// The San Francisco city schedule: one flat levy.
pub open spec fn sf_city_sched() -> SchedV {
    SchedV { seps: Seq::<RatV>::empty(), rates: seq![frac(15, 1_000)] }
}

/// Every federal schedule is a valid schedule.
pub proof fn lemma_usa_sched_wf(status: MaritalStatus)
    ensures
        sched_wf(usa_sched(status).seps, usa_sched(status).rates),
{
    let seps = usa_seps_v(status);
    let rates = usa_rates_v();
    assert(forall|i: int| 0 <= i < rates.len() ==> wfv(#[trigger] rates[i]));
    assert(forall|i: int| 0 <= i < rates.len() ==> ltv(#[trigger] rates[i], crate::ratspec::onev()));
    match status {
        MaritalStatus::Single => {
            assert(forall|i: int| 0 <= i < seps.len() ==> wfv(#[trigger] seps[i]));
            assert(forall|i: int| 1 <= i < seps.len() ==> ltv(seps[i - 1], #[trigger] seps[i]));
        },
        MaritalStatus::Joint => {
            assert(forall|i: int| 0 <= i < seps.len() ==> wfv(#[trigger] seps[i]));
            assert(forall|i: int| 1 <= i < seps.len() ==> ltv(seps[i - 1], #[trigger] seps[i]));
        },
        MaritalStatus::Separate => {
            assert(forall|i: int| 0 <= i < seps.len() ==> wfv(#[trigger] seps[i]));
            assert(forall|i: int| 1 <= i < seps.len() ==> ltv(seps[i - 1], #[trigger] seps[i]));
        },
        MaritalStatus::HeadOfHousehold => {
            assert(forall|i: int| 0 <= i < seps.len() ==> wfv(#[trigger] seps[i]));
            assert(forall|i: int| 1 <= i < seps.len() ==> ltv(seps[i - 1], #[trigger] seps[i]));
        },
    }
}

/// Every California schedule is a valid schedule.
pub proof fn lemma_ca_sched_wf(status: MaritalStatus)
    ensures
        sched_wf(ca_sched(status).seps, ca_sched(status).rates),
{
    let seps = ca_seps_v(status);
    let rates = ca_rates_v();
    assert(forall|i: int| 0 <= i < rates.len() ==> wfv(#[trigger] rates[i]));
    assert(forall|i: int| 0 <= i < rates.len() ==> ltv(#[trigger] rates[i], crate::ratspec::onev()));
    match status {
        MaritalStatus::Single => {
            assert(forall|i: int| 0 <= i < seps.len() ==> wfv(#[trigger] seps[i]));
            assert(forall|i: int| 1 <= i < seps.len() ==> ltv(seps[i - 1], #[trigger] seps[i]));
        },
        MaritalStatus::Joint => {
            assert(forall|i: int| 0 <= i < seps.len() ==> wfv(#[trigger] seps[i]));
            assert(forall|i: int| 1 <= i < seps.len() ==> ltv(seps[i - 1], #[trigger] seps[i]));
        },
        MaritalStatus::Separate => {
            assert(forall|i: int| 0 <= i < seps.len() ==> wfv(#[trigger] seps[i]));
            assert(forall|i: int| 1 <= i < seps.len() ==> ltv(seps[i - 1], #[trigger] seps[i]));
        },
        MaritalStatus::HeadOfHousehold => {
            assert(forall|i: int| 0 <= i < seps.len() ==> wfv(#[trigger] seps[i]));
            assert(forall|i: int| 1 <= i < seps.len() ==> ltv(seps[i - 1], #[trigger] seps[i]));
        },
    }
}

/// Whole-number separators as exact rationals.
fn whole_separators(values: &Vec<u64>) -> (r: Vec<Rational>)
    ensures
        r@.len() == values@.len(),
        forall|i: int| 0 <= i < r@.len() ==> rats_of(r@)[i] == whole(values@[i] as int),
{
    let mut out: Vec<Rational> = Vec::new();
    let mut i: usize = 0;
    while i < values.len()
        invariant
            i <= values@.len(),
            out@.len() == i,
            forall|j: int| 0 <= j < i ==> rats_of(out@)[j] == whole(values@[j] as int),
        decreases values@.len() - i,
    {
        let ghost old_out = out@;
        out.push(Rational::from_u64(values[i]));
        proof {
            assert(rats_of(out@) =~= rats_of(old_out).push(whole(values@[i as int] as int)));
        }
        i += 1;
    }
    out
}

/// Marginal rates over a common denominator, as exact rationals.
fn rate_list(numerators: &Vec<u64>, denominator: u64) -> (r: Vec<Rational>)
    requires
        denominator != 0,
    ensures
        r@.len() == numerators@.len(),
        forall|i: int|
            0 <= i < r@.len() ==> rats_of(r@)[i] == frac(
                numerators@[i] as int,
                denominator as int,
            ),
{
    let mut out: Vec<Rational> = Vec::new();
    let mut i: usize = 0;
    while i < numerators.len()
        invariant
            i <= numerators@.len(),
            denominator != 0,
            out@.len() == i,
            forall|j: int|
                0 <= j < i ==> rats_of(out@)[j] == frac(
                    numerators@[j] as int,
                    denominator as int,
                ),
        decreases numerators@.len() - i,
    {
        let ghost old_out = out@;
        out.push(Rational::new(numerators[i], denominator));
        proof {
            assert(rats_of(out@) =~= rats_of(old_out).push(
                frac(numerators@[i as int] as int, denominator as int),
            ));
        }
        i += 1;
    }
    out
}

/// Builds the schedule a static table promises.  The table values must
/// spell out exactly the expected valid schedule, so construction
/// cannot fail.
fn checked_brackets(
    sep_values: &Vec<u64>,
    rate_numerators: &Vec<u64>,
    rate_denominator: u64,
    Ghost(expected): Ghost<SchedV>,
) -> (r: TaxBrackets)
    requires
        rate_denominator != 0,
        expected.seps.len() == sep_values@.len(),
        expected.rates.len() == rate_numerators@.len(),
        forall|i: int|
            0 <= i < sep_values@.len() ==> expected.seps[i] == whole(sep_values@[i] as int),
        forall|i: int|
            0 <= i < rate_numerators@.len() ==> expected.rates[i] == frac(
                rate_numerators@[i] as int,
                rate_denominator as int,
            ),
        sched_wf(expected.seps, expected.rates),
    ensures
        r@ == expected,
{
    let seps = whole_separators(sep_values);
    let rates = rate_list(rate_numerators, rate_denominator);
    proof {
        assert(rats_of(seps@) =~= expected.seps);
        assert(rats_of(rates@) =~= expected.rates);
    }
    match TaxBrackets::new(seps, rates) {
        Ok(b) => b,
        Err(_) => unreached(),
    }
}

/// The federal schedules of the United States, by filing status.
fn usa_tax_system() -> (r: TaxSystem)
    ensures
        forall|status: MaritalStatus| #[trigger] r.spec_get(status) == Some(usa_sched(status)),
{
    let rate_nums: Vec<u64> = vec![10, 12, 22, 24, 32, 35, 37];
    proof {
        lemma_usa_sched_wf(MaritalStatus::Single);
        lemma_usa_sched_wf(MaritalStatus::Joint);
        lemma_usa_sched_wf(MaritalStatus::Separate);
        lemma_usa_sched_wf(MaritalStatus::HeadOfHousehold);
    }
    let single = checked_brackets(
        &vec![9_875u64, 40_125, 85_525, 163_300, 207_350, 518_400],
        &rate_nums,
        100,
        Ghost(usa_sched(MaritalStatus::Single)),
    );
    let joint = checked_brackets(
        &vec![19_750u64, 80_250, 171_050, 326_600, 414_700, 622_050],
        &rate_nums,
        100,
        Ghost(usa_sched(MaritalStatus::Joint)),
    );
    let separate = checked_brackets(
        &vec![9_875u64, 40_125, 85_525, 163_300, 207_350, 518_400],
        &rate_nums,
        100,
        Ghost(usa_sched(MaritalStatus::Separate)),
    );
    let head = checked_brackets(
        &vec![14_100u64, 53_700, 85_500, 163_300, 207_350, 518_400],
        &rate_nums,
        100,
        Ghost(usa_sched(MaritalStatus::HeadOfHousehold)),
    );
    let r = TaxSystem::new(Some(single), Some(joint), Some(separate), Some(head));
    proof {
        assert forall|status: MaritalStatus| #[trigger] r.spec_get(status) == Some(
            usa_sched(status),
        ) by {
            match status {
                MaritalStatus::Single => {},
                MaritalStatus::Joint => {},
                MaritalStatus::Separate => {},
                MaritalStatus::HeadOfHousehold => {},
            }
        }
    }
    r
}

/// The country's tax profile, from its static table.
pub fn country_tax_system(country: &Country) -> (r: TaxSystem)
    ensures
        forall|status: MaritalStatus| #[trigger] r.spec_get(status) == Some(usa_sched(status)),
{
    match country {
        Country::UnitedStates => usa_tax_system(),
    }
}

/// The California schedules, by filing status.
fn california_tax_system() -> (r: TaxSystem)
    ensures
        forall|status: MaritalStatus| #[trigger] r.spec_get(status) == Some(ca_sched(status)),
{
    let rate_nums: Vec<u64> = vec![110, 220, 440, 660, 880, 1_023, 1_133, 1_243, 1_353, 1_463];
    proof {
        lemma_ca_sched_wf(MaritalStatus::Single);
        lemma_ca_sched_wf(MaritalStatus::Joint);
        lemma_ca_sched_wf(MaritalStatus::Separate);
        lemma_ca_sched_wf(MaritalStatus::HeadOfHousehold);
    }
    let single = checked_brackets(
        &vec![8_809u64, 20_883, 32_960, 45_753, 57_824, 295_373, 354_445, 590_742, 1_000_000],
        &rate_nums,
        10_000,
        Ghost(ca_sched(MaritalStatus::Single)),
    );
    let joint = checked_brackets(
        &vec![
            17_618u64,
            41_766,
            65_920,
            91_506,
            115_648,
            590_746,
            708_890,
            1_000_000,
            1_181_484,
        ],
        &rate_nums,
        10_000,
        Ghost(ca_sched(MaritalStatus::Joint)),
    );
    let separate = checked_brackets(
        &vec![8_809u64, 20_883, 32_960, 45_753, 57_824, 295_373, 354_445, 590_742, 1_000_000],
        &rate_nums,
        10_000,
        Ghost(ca_sched(MaritalStatus::Separate)),
    );
    let head = checked_brackets(
        &vec![17_629u64, 41_768, 53_843, 66_636, 78_710, 401_705, 482_047, 803_410, 1_000_000],
        &rate_nums,
        10_000,
        Ghost(ca_sched(MaritalStatus::HeadOfHousehold)),
    );
    let r = TaxSystem::new(Some(single), Some(joint), Some(separate), Some(head));
    proof {
        assert forall|status: MaritalStatus| #[trigger] r.spec_get(status) == Some(
            ca_sched(status),
        ) by {
            match status {
                MaritalStatus::Single => {},
                MaritalStatus::Joint => {},
                MaritalStatus::Separate => {},
                MaritalStatus::HeadOfHousehold => {},
            }
        }
    }
    r
}

/// The schedule a state's own layer adds, if the state levies an
/// income tax.
pub open spec fn state_layer(state: State, status: MaritalStatus) -> Option<SchedV> {
    match state {
        State::CA => Some(ca_sched(status)),
        State::TX => None,
    }
}

impl State {
    /// The state's tax profile, if the state levies an income tax.
    fn tax_system(self) -> (r: Option<TaxSystem>)
        ensures
            match r {
                Some(sys) => forall|status: MaritalStatus| #[trigger] sys.spec_get(status)
                    == state_layer(self, status),
                None => forall|status: MaritalStatus| #[trigger] state_layer(self, status)
                    is None,
            },
    {
        match self {
            State::CA => Some(california_tax_system()),
            State::TX => None,
        }
    }
}

/// The city names that carry the San Francisco levy.
pub open spec fn is_sf(city: Seq<char>) -> bool {
    city == "San Francisco"@ || city == "SF"@
}

/// The city names known to levy no tax of their own.
pub open spec fn is_austin(city: Seq<char>) -> bool {
    city == "Austin"@ || city == "AUS"@
}

/// The cities whose tax status is on file at all.
pub open spec fn city_known(city: Seq<char>) -> bool {
    is_sf(city) || is_austin(city)
}

/// The lengths of the four city names on file; they are all different,
/// so no name can fall in both groups.
proof fn lemma_city_names()
    ensures
        ("San Francisco"@).len() == 13,
        ("SF"@).len() == 2,
        ("Austin"@).len() == 6,
        ("AUS"@).len() == 3,
{
    reveal_strlit("San Francisco");
    reveal_strlit("SF");
    reveal_strlit("Austin");
    reveal_strlit("AUS");
}

/// The city's tax profile: the flat San Francisco levy, nothing for a
/// city known to levy none, and an error for an unknown city.
fn city_tax_system(city: &str) -> (r: Result<Option<TaxSystem>, TaxError>)
    ensures
        is_sf(city@) ==> (r matches Ok(o) && o matches Some(sys) && forall|status: MaritalStatus|
            #[trigger] sys.spec_get(status) == Some(sf_city_sched())),
        is_austin(city@) ==> r == Result::<Option<TaxSystem>, TaxError>::Ok(None),
        !city_known(city@) ==> r == Result::<Option<TaxSystem>, TaxError>::Err(
            TaxError::UnsupportedLocation,
        ),
{
    proof {
        lemma_city_names();
    }
    if str_eq(city, "San Francisco") || str_eq(city, "SF") {
        match TaxSystem::flat(Rational::new(15, 1_000)) {
            Ok(sys) => {
                proof {
                    assert forall|status: MaritalStatus| #[trigger] sys.spec_get(status) == Some(
                        sf_city_sched(),
                    ) by {
                        assert(sys.spec_get(status) == Some(
                            SchedV {
                                seps: Seq::<RatV>::empty(),
                                rates: seq![frac(15, 1_000)],
                            },
                        ));
                    }
                }
                Ok(Some(sys))
            },
            Err(_) => unreached(),
        }
    } else if str_eq(city, "Austin") || str_eq(city, "AUS") {
        Ok(None)
    } else {
        Err(TaxError::UnsupportedLocation)
    }
}

/// Two schedules merged into one.
pub open spec fn merge2(a: SchedV, b: SchedV) -> SchedV {
    SchedV {
        seps: merge_spec(a.seps, a.rates, b.seps, b.rates).0,
        rates: merge_spec(a.seps, a.rates, b.seps, b.rates).1,
    }
}

/// The country and state layers of one status, merged.
pub open spec fn with_state(state: State, status: MaritalStatus) -> SchedV {
    match state_layer(state, status) {
        Some(s) => merge2(usa_sched(status), s),
        None => usa_sched(status),
    }
}

/// The fully resolved schedule of one status at a place: the country,
/// state and city layers merged in order.
pub open spec fn resolved_sched(state: State, city: Seq<char>, status: MaritalStatus) -> SchedV {
    if is_sf(city) {
        merge2(with_state(state, status), sf_city_sched())
    } else {
        with_state(state, status)
    }
}

/// Whether the state layer of one status merges cleanly onto the
/// country layer: every summed rate stays below one.
pub open spec fn state_merge_ok(state: State, status: MaritalStatus) -> bool {
    match state_layer(state, status) {
        Some(s) => rates_below_one(merge2(usa_sched(status), s).rates),
        None => true,
    }
}

/// Whether the city layer of one status merges cleanly onto the
/// layers below it.
pub open spec fn city_merge_ok(state: State, city: Seq<char>, status: MaritalStatus) -> bool {
    is_sf(city) ==> rates_below_one(merge2(with_state(state, status), sf_city_sched()).rates)
}

/// Whether a place resolves to an effective profile: its city is on
/// file and every layer merge keeps every summed rate below one.
pub open spec fn resolvable(state: State, city: Seq<char>) -> bool {
    &&& city_known(city)
    &&& state_merge_ok(state, MaritalStatus::Single)
    &&& state_merge_ok(state, MaritalStatus::Joint)
    &&& state_merge_ok(state, MaritalStatus::Separate)
    &&& state_merge_ok(state, MaritalStatus::HeadOfHousehold)
    &&& city_merge_ok(state, city, MaritalStatus::Single)
    &&& city_merge_ok(state, city, MaritalStatus::Joint)
    &&& city_merge_ok(state, city, MaritalStatus::Separate)
    &&& city_merge_ok(state, city, MaritalStatus::HeadOfHousehold)
}

/// The living-cost factor of a place, by city.
pub open spec fn living_costs_v(city: Seq<char>) -> RatV {
    if is_sf(city) {
        frac(17, 10)
    } else {
        frac(1, 1)
    }
}

/// A place whose layered jurisdictions tax an income: country, state
/// and city.
#[derive(Debug)]
pub struct Location {
    pub country: Country,
    pub state: State,
    pub city: String,
}

impl Location {
    /// The place's living-cost factor, from the static table; always
    /// positive.
    pub fn get_living_costs_factor(&self) -> (r: Rational)
        ensures
            r@ == living_costs_v(self.city@),
            ltv(zerov(), r@),
    {
        proof {
            lemma_city_names();
        }
        if str_eq(self.city.as_str(), "San Francisco") || str_eq(self.city.as_str(), "SF") {
            Rational::new(17, 10)
        } else {
            Rational::new(1, 1)
        }
    }

    /// The effective tax profile of the place: its country, state and
    /// city layers merged in order.  Succeeds exactly when the place
    /// resolves, and then carries the resolved schedule of every
    /// status.
    fn tax_system(&self) -> (r: Result<Option<TaxSystem>, TaxError>)
        ensures
            r is Ok <==> resolvable(self.state, self.city@),
            r matches Ok(o) ==> (o matches Some(sys) && forall|status: MaritalStatus|
                #[trigger] sys.spec_get(status) == Some(
                    resolved_sched(self.state, self.city@, status),
                )),
            r matches Err(e) ==> (e == TaxError::UnsupportedLocation || e
                == TaxError::RateOutOfRange),
    {
        proof {
            lemma_city_names();
        }
        let country_sys = country_tax_system(&self.country);
        let staged = match self.state.tax_system() {
            Some(sys) => {
                match TaxSystem::merge(country_sys, sys) {
                    Ok(m) => {
                        proof {
                            assert forall|status: MaritalStatus| #[trigger] m.spec_get(status)
                                == Some(with_state(self.state, status)) by {
                                match status {
                                    MaritalStatus::Single => {},
                                    MaritalStatus::Joint => {},
                                    MaritalStatus::Separate => {},
                                    MaritalStatus::HeadOfHousehold => {},
                                }
                            }
                        }
                        m
                    },
                    Err(e) => {
                        proof {
                            assert(!(state_merge_ok(self.state, MaritalStatus::Single)
                                && state_merge_ok(self.state, MaritalStatus::Joint)
                                && state_merge_ok(self.state, MaritalStatus::Separate)
                                && state_merge_ok(self.state, MaritalStatus::HeadOfHousehold)));
                        }
                        return Err(e);
                    },
                }
            },
            None => {
                proof {
                    assert forall|status: MaritalStatus| #[trigger] country_sys.spec_get(status)
                        == Some(with_state(self.state, status)) by {
                        assert(state_layer(self.state, status) is None);
                    }
                }
                country_sys
            },
        };
        let merged = match city_tax_system(self.city.as_str()) {
            Ok(Some(sys)) => {
                match TaxSystem::merge(staged, sys) {
                    Ok(m) => {
                        proof {
                            assert forall|status: MaritalStatus| #[trigger] m.spec_get(status)
                                == Some(resolved_sched(self.state, self.city@, status)) by {
                                match status {
                                    MaritalStatus::Single => {},
                                    MaritalStatus::Joint => {},
                                    MaritalStatus::Separate => {},
                                    MaritalStatus::HeadOfHousehold => {},
                                }
                            }
                        }
                        m
                    },
                    Err(e) => {
                        proof {
                            assert(!(city_merge_ok(self.state, self.city@, MaritalStatus::Single)
                                && city_merge_ok(self.state, self.city@, MaritalStatus::Joint)
                                && city_merge_ok(
                                self.state,
                                self.city@,
                                MaritalStatus::Separate,
                            ) && city_merge_ok(
                                self.state,
                                self.city@,
                                MaritalStatus::HeadOfHousehold,
                            )));
                        }
                        return Err(e);
                    },
                }
            },
            Ok(None) => {
                proof {
                    assert(!is_sf(self.city@));
                    assert forall|status: MaritalStatus| #[trigger] staged.spec_get(status)
                        == Some(resolved_sched(self.state, self.city@, status)) by {}
                }
                staged
            },
            Err(e) => {
                return Err(e);
            },
        };
        Ok(Some(merged))
    }
}

impl Location {
    /// The effective tax profile as one value, succeeding exactly when
    /// the place resolves.
    pub fn resolved_tax_system(&self) -> (r: Result<TaxSystem, TaxError>)
        ensures
            r is Ok <==> resolvable(self.state, self.city@),
            r matches Ok(sys) ==> forall|status: MaritalStatus| #[trigger] sys.spec_get(status)
                == Some(resolved_sched(self.state, self.city@, status)),
            r matches Err(e) ==> (e == TaxError::UnsupportedLocation || e
                == TaxError::RateOutOfRange),
    {
        match self.tax_system() {
            Ok(Some(sys)) => Ok(sys),
            Ok(None) => unreached(),
            Err(e) => Err(e),
        }
    }

    /// The tax the place charges a status on a gross income, under the
    /// place's resolved schedule; never negative.
    pub fn calc_taxes(&self, gross: &Rational, status: MaritalStatus) -> (r: Result<
        Rational,
        TaxError,
    >)
        ensures
            r is Ok <==> resolvable(self.state, self.city@),
            r matches Ok(v) ==> eqv(
                v@,
                tax_of(
                    resolved_sched(self.state, self.city@, status).seps,
                    resolved_sched(self.state, self.city@, status).rates,
                    gross@,
                ),
            ) && lev(zerov(), v@),
            r matches Err(e) ==> (e == TaxError::UnsupportedLocation || e
                == TaxError::RateOutOfRange),
    {
        proof {
            use_type_invariant(gross);
        }
        let sys = match self.resolved_tax_system() {
            Ok(sys) => sys,
            Err(e) => { return Err(e) },
        };
        let t = sys.calc_taxes(gross, status);
        proof {
            use_type_invariant(&t);
            crate::sched_spec::lemma_zero_le_wf(t@);
        }
        Ok(t)
    }

    /// The net income the place leaves a status from a gross income,
    /// under the place's resolved schedule; never more than the gross.
    pub fn calc_net(&self, gross: &Rational, status: MaritalStatus) -> (r: Result<
        Rational,
        TaxError,
    >)
        ensures
            r is Ok <==> resolvable(self.state, self.city@),
            r matches Ok(v) ==> eqv(
                v@,
                net_of(
                    resolved_sched(self.state, self.city@, status).seps,
                    resolved_sched(self.state, self.city@, status).rates,
                    gross@,
                ),
            ) && lev(v@, gross@),
            r matches Err(e) ==> (e == TaxError::UnsupportedLocation || e
                == TaxError::RateOutOfRange),
    {
        proof {
            use_type_invariant(gross);
        }
        let sys = match self.resolved_tax_system() {
            Ok(sys) => sys,
            Err(e) => { return Err(e) },
        };
        let v = sys.calc_net(gross, status);
        proof {
            use_type_invariant(&v);
            let sch = resolved_sched(self.state, self.city@, status);
            crate::laws::lemma_zero_frame(sch.seps, sch.rates);
            crate::sched_spec::lemma_zero_le_wf(gross@);
            crate::sched_spec::lemma_tax_wf(sch.seps, sch.rates, zerov(), gross@);
            crate::sched_spec::lemma_pos_mul_ints(
                gross@.d,
                tax_of(sch.seps, sch.rates, gross@).d,
            );
            crate::laws::lemma_tax_bounds(sch.seps, sch.rates, gross@);
            crate::ratspec::lemma_le_congr(
                net_of(sch.seps, sch.rates, gross@),
                gross@,
                v@,
                gross@,
            );
        }
        Ok(v)
    }

    /// The gross income a status needs at the place to keep the given
    /// net income, under the place's resolved schedule; never less
    /// than that net income.
    pub fn calc_gross(&self, net: &Rational, status: MaritalStatus) -> (r: Result<
        Rational,
        TaxError,
    >)
        ensures
            r is Ok <==> resolvable(self.state, self.city@),
            r matches Ok(v) ==> eqv(
                net_of(
                    resolved_sched(self.state, self.city@, status).seps,
                    resolved_sched(self.state, self.city@, status).rates,
                    v@,
                ),
                net@,
            ) && lev(net@, v@),
            r matches Err(e) ==> (e == TaxError::UnsupportedLocation || e
                == TaxError::RateOutOfRange),
    {
        proof {
            use_type_invariant(net);
        }
        let sys = match self.resolved_tax_system() {
            Ok(sys) => sys,
            Err(e) => { return Err(e) },
        };
        let v = sys.calc_gross(net, status);
        proof {
            use_type_invariant(&v);
            let sch = resolved_sched(self.state, self.city@, status);
            crate::laws::lemma_zero_frame(sch.seps, sch.rates);
            crate::sched_spec::lemma_zero_le_wf(v@);
            crate::sched_spec::lemma_tax_wf(sch.seps, sch.rates, zerov(), v@);
            crate::sched_spec::lemma_pos_mul_ints(v@.d, tax_of(sch.seps, sch.rates, v@).d);
            crate::laws::lemma_tax_bounds(sch.seps, sch.rates, v@);
            crate::ratspec::lemma_le_congr(net_of(sch.seps, sch.rates, v@), v@, net@, v@);
        }
        Ok(v)
    }
}

} // verus!
