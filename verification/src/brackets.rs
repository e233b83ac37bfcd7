//! The progressive tax bracket schedule and its calculations.
//!
//! A `TaxBrackets` value holds strictly increasing separators, one
//! marginal rate per bracket, and the derived flat deductions: the tax
//! owed on everything below each bracket, kept so that one multiply and
//! one add answer any query.  Its contracts speak of `tax_of` and
//! `net_of` from the schedule model; the flat deductions stay internal,
//! characterised by the type invariant as the tax at each separator.

use vstd::prelude::*;

use crate::errors::TaxError;
use crate::rational::Rational;
use crate::ratspec::{addv, eqv, lemma_add_congr, lemma_eqv_trans, lemma_le_congr, lemma_sub_congr, lev, ltv, mulv, onev, subv, wfv, zerov, RatV};
use crate::sched_spec::{
    all_wf, bracket_floor, in_bracket, lemma_invert_at_bracket, lemma_merge_frame,
    lemma_mul_comm, lemma_tax_at_bracket, lemma_tax_le, lemma_tax_wf, lemma_tax_zero,
    lemma_wf_add, lemma_wf_mul, merge_spec, net_of, rates_below_one, sched_frame, sched_wf,
    sorted_strict, tax_above, tax_of,
};

verus! {

/// The mathematical content of a schedule: its separators and rates.
pub ghost struct SchedV {
    pub seps: Seq<RatV>,
    pub rates: Seq<RatV>,
}

/// The rational values denoted by a sequence of exact rationals.
pub open spec fn rats_of(s: Seq<Rational>) -> Seq<RatV> {
    s.map_values(|r: Rational| r@)
}

pub struct TaxBrackets {
    separators: Vec<Rational>,
    rates: Vec<Rational>,
    flats: Vec<Rational>,
}

impl View for TaxBrackets {
    type V = SchedV;

    closed spec fn view(&self) -> SchedV {
        SchedV { seps: rats_of(self.separators@), rates: rats_of(self.rates@) }
    }
}

impl TaxBrackets {
    spec fn flats_v(&self) -> Seq<RatV> {
        rats_of(self.flats@)
    }

    /// Every schedule is valid: one more rate than separators, all
    /// values well formed, separators strictly increasing, rates in
    /// `[0, 1)`, and each flat deduction denotes the tax at the
    /// separator that opens its bracket.
    #[verifier::type_invariant]
    closed spec fn inv(&self) -> bool {
        &&& sched_wf(self@.seps, self@.rates)
        &&& self.flats_v().len() == self@.rates.len()
        &&& all_wf(self.flats_v())
        &&& eqv(self.flats_v()[0], zerov())
        &&& forall|i: int|
            1 <= i < self.flats_v().len() ==> eqv(
                #[trigger] self.flats_v()[i],
                tax_of(self@.seps, self@.rates, self@.seps[i - 1]),
            )
    }

    /// Builds a schedule from separators and marginal rates.  There
    /// must be exactly one more rate than separators, every rate must
    /// lie in `[0, 1)`, and the separators must be strictly
    /// increasing; each violation is reported as its own error, checked
    /// in that order.
    pub fn new(separators: Vec<Rational>, rates: Vec<Rational>) -> (r: Result<
        TaxBrackets,
        TaxError,
    >)
        ensures
            r is Ok <==> (rates@.len() == separators@.len() + 1 && rates_below_one(
                rats_of(rates@),
            ) && sorted_strict(rats_of(separators@))),
            r matches Ok(tb) ==> tb@.seps == rats_of(separators@) && tb@.rates == rats_of(
                rates@,
            ),
            r == Result::<TaxBrackets, TaxError>::Err(TaxError::WrongRateCount) <==> rates@.len()
                != separators@.len() + 1,
            r == Result::<TaxBrackets, TaxError>::Err(TaxError::RateOutOfRange) <==> (rates@.len()
                == separators@.len() + 1 && !rates_below_one(rats_of(rates@))),
            r == Result::<TaxBrackets, TaxError>::Err(TaxError::SeparatorsOutOfOrder) <==> (
            rates@.len() == separators@.len() + 1 && rates_below_one(rats_of(rates@))
                && !sorted_strict(rats_of(separators@))),
    {
        let ghost sv = rats_of(separators@);
        let ghost rv = rats_of(rates@);
        if rates.len() == 0 || rates.len() - 1 != separators.len() {
            return Err(TaxError::WrongRateCount);
        }
        let one = Rational::one();
        let mut i: usize = 0;
        while i < rates.len()
            invariant
                i <= rates@.len(),
                one@ == onev(),
                rv == rats_of(rates@),
                rates@.len() == separators@.len() + 1,
                forall|j: int| 0 <= j < i ==> wfv(#[trigger] rv[j]) && ltv(rv[j], onev()),
            decreases rates@.len() - i,
        {
            let rt = &rates[i];
            proof {
                use_type_invariant(rt);
            }
            if !rt.lt(&one) {
                proof {
                    assert(rv[i as int] == rates@[i as int]@);
                    assert(!ltv(rv[i as int], onev()));
                    assert(!rates_below_one(rv));
                }
                return Err(TaxError::RateOutOfRange);
            }
            i += 1;
        }
        let mut i: usize = 0;
        while i < separators.len()
            invariant
                i <= separators@.len(),
                sv == rats_of(separators@),
                forall|j: int| 0 <= j < i ==> wfv(#[trigger] sv[j]),
            decreases separators@.len() - i,
        {
            let sp = &separators[i];
            proof {
                use_type_invariant(sp);
            }
            assert(wfv(sv[i as int]));
            i += 1;
        }
        if separators.len() > 1 {
            let mut i: usize = 1;
            while i < separators.len()
                invariant
                    1 <= i <= separators@.len(),
                    sv == rats_of(separators@),
                    rv == rats_of(rates@),
                    rates@.len() == separators@.len() + 1,
                    rates_below_one(rv),
                    all_wf(sv),
                    forall|j: int| 1 <= j < i ==> ltv(sv[j - 1], #[trigger] sv[j]),
                decreases separators@.len() - i,
            {
                if !separators[i - 1].lt(&separators[i]) {
                    proof {
                        assert(!ltv(sv[i - 1], sv[i as int]));
                        assert(!sorted_strict(sv));
                    }
                    return Err(TaxError::SeparatorsOutOfOrder);
                }
                i += 1;
            }
        }
        let mut flats: Vec<Rational> = Vec::new();
        flats.push(Rational::zero());
        let mut b: usize = 1;
        while b < rates.len()
            invariant
                1 <= b <= rates@.len(),
                flats@.len() == b,
                sv == rats_of(separators@),
                rv == rats_of(rates@),
                rates@.len() == separators@.len() + 1,
                all_wf(sv),
                all_wf(rv),
                sorted_strict(sv),
                rates_below_one(rv),
                all_wf(rats_of(flats@)),
                eqv(rats_of(flats@)[0], zerov()),
                forall|i2: int|
                    1 <= i2 < b ==> eqv(
                        #[trigger] rats_of(flats@)[i2],
                        tax_of(sv, rv, sv[i2 - 1]),
                    ),
            decreases rates@.len() - b,
        {
            let ghost fv = rats_of(flats@);
            let ghost k = b - 1;
            let ghost g = sv[b - 1];
            proof {
                assert(sched_frame(sv, rv, zerov()));
                assert(in_bracket(sv, k as int, g));
                lemma_tax_at_bracket(sv, rv, zerov(), k as int, g);
            }
            let diff = if b == 1 {
                separators[0].dup()
            } else {
                separators[b - 1].sub(&separators[b - 2])
            };
            let prod = diff.mul(&rates[b - 1]);
            let f = flats[b - 1].add(&prod);
            proof {
                use_type_invariant(&prod);
                use_type_invariant(&f);
                let bnd = bracket_floor(sv, zerov(), k as int);
                let tbnd = tax_above(sv, rv, zerov(), bnd);
                lemma_mul_comm(diff@, rv[k as int]);
                assert(subv(g, zerov()) == g);
                assert(prod@ == mulv(rv[k as int], subv(g, bnd)));
                lemma_wf_mul(rv[k as int], subv(g, bnd));
                if b == 1 {
                    lemma_tax_zero(sv, rv, zerov());
                    lemma_tax_wf(sv, rv, zerov(), zerov());
                    lemma_eqv_trans(fv[0], zerov(), tbnd);
                } else {
                    lemma_tax_wf(sv, rv, zerov(), bnd);
                }
                lemma_add_congr(fv[k as int], prod@, tbnd, prod@);
                lemma_wf_add(tbnd, prod@);
                lemma_tax_wf(sv, rv, zerov(), g);
                lemma_eqv_trans(f@, addv(tbnd, prod@), tax_of(sv, rv, g));
            }
            flats.push(f);
            proof {
                assert(rats_of(flats@) =~= fv.push(f@));
            }
            b += 1;
        }
        Ok(TaxBrackets { separators, rates, flats })
    }

    /// The number of brackets in the schedule.
    pub fn bracket_count(&self) -> (r: usize)
        ensures
            r == self@.rates.len(),
    {
        self.rates.len()
    }

    /// The separator closing bracket `i`.
    pub fn separator_at(&self, i: usize) -> (r: Rational)
        requires
            i < self@.seps.len(),
        ensures
            r@ == self@.seps[i as int],
    {
        self.separators[i].dup()
    }

    /// The marginal rate of bracket `i`.
    pub fn rate_at(&self, i: usize) -> (r: Rational)
        requires
            i < self@.rates.len(),
        ensures
            r@ == self@.rates[i as int],
    {
        self.rates[i].dup()
    }

    /// The flat deduction entering bracket `i`: the total tax owed on
    /// all income below that bracket.
    pub fn flat_deduction_at(&self, i: usize) -> (r: Rational)
        requires
            i < self@.rates.len(),
        ensures
            i == 0 ==> eqv(r@, zerov()),
            i >= 1 ==> eqv(r@, tax_of(self@.seps, self@.rates, self@.seps[i - 1])),
    {
        proof {
            use_type_invariant(&*self);
        }
        let r = self.flats[i].dup();
        proof {
            assert(r@ == self.flats_v()[i as int]);
        }
        r
    }

    /// The tax owed on a gross income.
    pub fn calc_taxes(&self, gross: &Rational) -> (r: Rational)
        ensures
            sched_wf(self@.seps, self@.rates),
            eqv(r@, tax_of(self@.seps, self@.rates, gross@)),
    {
        proof {
            use_type_invariant(&*self);
            use_type_invariant(gross);
        }
        let ghost sv = self@.seps;
        let ghost rv = self@.rates;
        let ghost g = gross@;
        let k = bracket_index(&self.separators, gross);
        proof {
            assert(sched_frame(sv, rv, zerov()));
            assert(in_bracket(sv, k as int, g));
            lemma_tax_at_bracket(sv, rv, zerov(), k as int, g);
        }
        let over = if k == 0 {
            gross.dup()
        } else {
            gross.sub(&self.separators[k - 1])
        };
        let prod = over.mul(&self.rates[k]);
        let r = self.flats[k].add(&prod);
        proof {
            use_type_invariant(&prod);
            use_type_invariant(&r);
            let fv = self.flats_v();
            let bnd = bracket_floor(sv, zerov(), k as int);
            let tbnd = tax_above(sv, rv, zerov(), bnd);
            lemma_mul_comm(over@, rv[k as int]);
            assert(subv(g, zerov()) == g);
            assert(prod@ == mulv(rv[k as int], subv(g, bnd)));
            lemma_wf_mul(rv[k as int], subv(g, bnd));
            if k == 0 {
                lemma_tax_zero(sv, rv, zerov());
                lemma_tax_wf(sv, rv, zerov(), zerov());
                lemma_eqv_trans(fv[0], zerov(), tbnd);
            } else {
                lemma_tax_wf(sv, rv, zerov(), bnd);
            }
            lemma_add_congr(fv[k as int], prod@, tbnd, prod@);
            lemma_wf_add(tbnd, prod@);
            lemma_tax_wf(sv, rv, zerov(), g);
            lemma_eqv_trans(r@, addv(tbnd, prod@), tax_of(sv, rv, g));
        }
        r
    }

    /// The net income left from a gross income: the gross minus the tax
    /// the schedule charges on it.
    pub fn calc_net(&self, gross: &Rational) -> (r: Rational)
        ensures
            sched_wf(self@.seps, self@.rates),
            eqv(r@, net_of(self@.seps, self@.rates, gross@)),
    {
        proof {
            use_type_invariant(&*self);
            use_type_invariant(gross);
        }
        let ghost sv = self@.seps;
        let ghost rv = self@.rates;
        let ghost g = gross@;
        let t = self.calc_taxes(gross);
        proof {
            use_type_invariant(&t);
            assert(sched_frame(sv, rv, zerov()));
            lemma_tax_le(sv, rv, zerov(), g);
            assert(subv(g, zerov()) == g);
            lemma_tax_wf(sv, rv, zerov(), g);
            lemma_le_congr(tax_of(sv, rv, g), g, t@, g);
        }
        let r = gross.sub(&t);
        proof {
            lemma_tax_wf(sv, rv, zerov(), g);
            lemma_sub_congr(g, t@, g, tax_of(sv, rv, g));
        }
        r
    }

    /// The bracket boundaries re-expressed in net-income terms: each
    /// separator minus the flat deduction entering the next bracket.
    fn separators_post_tax(&self) -> (r: Vec<Rational>)
        ensures
            r@.len() == self@.seps.len(),
            forall|i: int|
                0 <= i < r@.len() ==> rats_of(r@)[i] == subv(
                    self@.seps[i],
                    self.flats_v()[i + 1],
                ),
    {
        proof {
            use_type_invariant(&*self);
        }
        let ghost sv = self@.seps;
        let ghost rv = self@.rates;
        let mut post: Vec<Rational> = Vec::new();
        let mut i: usize = 0;
        while i < self.separators.len()
            invariant
                i <= self.separators@.len(),
                sv == self@.seps,
                rv == self@.rates,
                sched_wf(sv, rv),
                self.flats_v().len() == rv.len(),
                all_wf(self.flats_v()),
                forall|j: int|
                    1 <= j < self.flats_v().len() ==> eqv(
                        #[trigger] self.flats_v()[j],
                        tax_of(sv, rv, sv[j - 1]),
                    ),
                post@.len() == i,
                forall|j: int|
                    0 <= j < i ==> rats_of(post@)[j] == subv(sv[j], self.flats_v()[j + 1]),
            decreases self.separators@.len() - i,
        {
            proof {
                assert(sched_frame(sv, rv, zerov()));
                lemma_tax_le(sv, rv, zerov(), sv[i as int]);
                crate::sched_spec::lemma_sub_zero_id(sv[i as int]);
                lemma_tax_wf(sv, rv, zerov(), sv[i as int]);
                lemma_le_congr(
                    tax_of(sv, rv, sv[i as int]),
                    sv[i as int],
                    self.flats_v()[i + 1],
                    sv[i as int],
                );
            }
            let ghost old_post = post@;
            let p = self.separators[i].sub(&self.flats[i + 1]);
            post.push(p);
            proof {
                assert(rats_of(post@) =~= rats_of(old_post).push(p@));
            }
            i += 1;
        }
        post
    }

    /// The gross income that nets to the given amount: the algebraic
    /// inverse of `calc_net`.  The bracket holding `net` is found among
    /// the boundaries re-expressed in net terms, and the excess over
    /// that bracket's floor is scaled back by one minus its rate.
    pub fn calc_gross(&self, net: &Rational) -> (r: Rational)
        ensures
            sched_wf(self@.seps, self@.rates),
            eqv(net_of(self@.seps, self@.rates, r@), net@),
    {
        proof {
            use_type_invariant(&*self);
            use_type_invariant(net);
        }
        let ghost sv = self@.seps;
        let ghost rv = self@.rates;
        let ghost nv = net@;
        let ghost fv = self.flats_v();
        let post = self.separators_post_tax();
        let k = bracket_index(&post, net);
        let one = Rational::one();
        proof {
            assert(rv[k as int] == rats_of(self.rates@)[k as int]);
            assert(ltv(rv[k as int], onev()));
        }
        let w = one.sub(&self.rates[k]);
        let (over, prev) = if k == 0 {
            (net.dup(), Rational::zero())
        } else {
            proof {
                assert(rats_of(post@)[k - 1] == subv(sv[k - 1], fv[k as int]));
            }
            (net.sub(&post[k - 1]), post[k - 1].dup())
        };
        proof {
            use_type_invariant(&over);
            use_type_invariant(&prev);
            assert(ltv(crate::ratspec::zerov(), w@));
        }
        let q = over.div(&w);
        let r = self.flats[k].add(&prev).add(&q);
        proof {
            assert(sched_frame(sv, rv, zerov()));
            assert(wfv(fv[k as int]));
            assert(fv[k as int] == rats_of(self.flats@)[k as int]);
            let ghost fk1 = if k < sv.len() {
                fv[k + 1]
            } else {
                zerov()
            };
            assert(over@ == subv(nv, prev@));
            lemma_invert_at_bracket(sv, rv, k as int, nv, fv[k as int], fk1, prev@, w@, over@, r@);
        }
        r
    }

    /// Combines two schedules into one whose marginal rate at every
    /// income level is the sum of the two inputs' rates there.  The
    /// merged separators are the sorted union of the inputs'; a boundary
    /// both sides share is consumed once, never producing an empty
    /// bracket.  The merge fails only when some summed rate reaches one.
    pub fn merge(lhs: TaxBrackets, rhs: TaxBrackets) -> (r: Result<TaxBrackets, TaxError>)
        ensures
            r is Ok <==> rates_below_one(
                merge_spec(lhs@.seps, lhs@.rates, rhs@.seps, rhs@.rates).1,
            ),
            r matches Ok(m) ==> m@.seps == merge_spec(
                lhs@.seps,
                lhs@.rates,
                rhs@.seps,
                rhs@.rates,
            ).0 && m@.rates == merge_spec(lhs@.seps, lhs@.rates, rhs@.seps, rhs@.rates).1,
            r matches Err(e) ==> e == TaxError::RateOutOfRange,
    {
        proof {
            use_type_invariant(&lhs);
            use_type_invariant(&rhs);
        }
        let ghost asv = lhs@.seps;
        let ghost arv = lhs@.rates;
        let ghost bsv = rhs@.seps;
        let ghost brv = rhs@.rates;
        let ghost msv = merge_spec(asv, arv, bsv, brv).0;
        let ghost mrv = merge_spec(asv, arv, bsv, brv).1;
        let mut out_seps: Vec<Rational> = Vec::new();
        let mut out_rates: Vec<Rational> = Vec::new();
        let mut i: usize = 0;
        let mut j: usize = 0;
        proof {
            assert(asv.skip(0) =~= asv);
            assert(arv.skip(0) =~= arv);
            assert(bsv.skip(0) =~= bsv);
            assert(brv.skip(0) =~= brv);
            assert(rats_of(out_seps@) =~= Seq::<RatV>::empty());
            assert(rats_of(out_rates@) =~= Seq::<RatV>::empty());
            assert(rats_of(out_seps@) + merge_spec(asv, arv, bsv, brv).0 =~= merge_spec(
                asv,
                arv,
                bsv,
                brv,
            ).0);
            assert(rats_of(out_rates@) + merge_spec(asv, arv, bsv, brv).1 =~= merge_spec(
                asv,
                arv,
                bsv,
                brv,
            ).1);
        }
        while i < lhs.separators.len() || j < rhs.separators.len()
            invariant
                i <= asv.len(),
                j <= bsv.len(),
                asv == lhs@.seps,
                arv == lhs@.rates,
                bsv == rhs@.seps,
                brv == rhs@.rates,
                asv == rats_of(lhs.separators@),
                bsv == rats_of(rhs.separators@),
                arv == rats_of(lhs.rates@),
                brv == rats_of(rhs.rates@),
                sched_wf(asv, arv),
                sched_wf(bsv, brv),
                out_rates@.len() == out_seps@.len(),
                msv == rats_of(out_seps@) + merge_spec(
                    asv.skip(i as int),
                    arv.skip(i as int),
                    bsv.skip(j as int),
                    brv.skip(j as int),
                ).0,
                mrv == rats_of(out_rates@) + merge_spec(
                    asv.skip(i as int),
                    arv.skip(i as int),
                    bsv.skip(j as int),
                    brv.skip(j as int),
                ).1,
            decreases asv.len() - i + bsv.len() - j,
        {
            let ghost ska = asv.skip(i as int);
            let ghost skra = arv.skip(i as int);
            let ghost skb = bsv.skip(j as int);
            let ghost skrb = brv.skip(j as int);
            proof {
                assert(skra[0] == arv[i as int]);
                assert(skrb[0] == brv[j as int]);
                if i < asv.len() {
                    assert(ska[0] == asv[i as int]);
                }
                if j < bsv.len() {
                    assert(skb[0] == bsv[j as int]);
                }
                if i < asv.len() {
                    assert(asv.skip(i as int).drop_first() =~= asv.skip(i + 1));
                    assert(arv.skip(i as int).drop_first() =~= arv.skip(i + 1));
                }
                if j < bsv.len() {
                    assert(bsv.skip(j as int).drop_first() =~= bsv.skip(j + 1));
                    assert(brv.skip(j as int).drop_first() =~= brv.skip(j + 1));
                }
            }
            let rate_sum = lhs.rates[i].add(&rhs.rates[j]);
            let ghost old_seps = out_seps@;
            let ghost old_rates = out_rates@;
            out_rates.push(rate_sum);
            let take_a = if i == lhs.separators.len() {
                false
            } else if j == rhs.separators.len() {
                true
            } else if lhs.separators[i].lt(&rhs.separators[j]) {
                true
            } else {
                false
            };
            if take_a {
                let sep = lhs.separators[i].dup();
                out_seps.push(sep);
                proof {
                    assert(merge_spec(ska, skra, skb, skrb).0 == seq![asv[i as int]]
                        + merge_spec(asv.skip(i + 1), arv.skip(i + 1), skb, skrb).0);
                    assert(merge_spec(ska, skra, skb, skrb).1 == seq![
                        addv(arv[i as int], brv[j as int]),
                    ] + merge_spec(asv.skip(i + 1), arv.skip(i + 1), skb, skrb).1);
                    assert(rats_of(out_seps@) =~= rats_of(old_seps).push(asv[i as int]));
                    assert(rats_of(out_rates@) =~= rats_of(old_rates).push(
                        addv(arv[i as int], brv[j as int]),
                    ));
                    assert(rats_of(old_seps) + merge_spec(ska, skra, skb, skrb).0
                        =~= rats_of(out_seps@) + merge_spec(
                        asv.skip(i + 1),
                        arv.skip(i + 1),
                        skb,
                        skrb,
                    ).0);
                    assert(rats_of(old_rates) + merge_spec(ska, skra, skb, skrb).1
                        =~= rats_of(out_rates@) + merge_spec(
                        asv.skip(i + 1),
                        arv.skip(i + 1),
                        skb,
                        skrb,
                    ).1);
                }
                i += 1;
            } else {
                let take_b = if j == rhs.separators.len() {
                    false
                } else if i == lhs.separators.len() {
                    true
                } else if rhs.separators[j].lt(&lhs.separators[i]) {
                    true
                } else {
                    false
                };
                if take_b {
                    let sep = rhs.separators[j].dup();
                    out_seps.push(sep);
                    proof {
                        assert(merge_spec(ska, skra, skb, skrb).0 == seq![bsv[j as int]]
                            + merge_spec(ska, skra, bsv.skip(j + 1), brv.skip(j + 1)).0);
                        assert(merge_spec(ska, skra, skb, skrb).1 == seq![
                            addv(arv[i as int], brv[j as int]),
                        ] + merge_spec(ska, skra, bsv.skip(j + 1), brv.skip(j + 1)).1);
                        assert(rats_of(out_seps@) =~= rats_of(old_seps).push(bsv[j as int]));
                        assert(rats_of(out_rates@) =~= rats_of(old_rates).push(
                            addv(arv[i as int], brv[j as int]),
                        ));
                        assert(rats_of(old_seps) + merge_spec(ska, skra, skb, skrb).0
                            =~= rats_of(out_seps@) + merge_spec(
                            ska,
                            skra,
                            bsv.skip(j + 1),
                            brv.skip(j + 1),
                        ).0);
                        assert(rats_of(old_rates) + merge_spec(ska, skra, skb, skrb).1
                            =~= rats_of(out_rates@) + merge_spec(
                            ska,
                            skra,
                            bsv.skip(j + 1),
                            brv.skip(j + 1),
                        ).1);
                    }
                    j += 1;
                } else {
                    // the same boundary on both sides: consume it once
                    let sep = lhs.separators[i].dup();
                    out_seps.push(sep);
                    proof {
                        assert(merge_spec(ska, skra, skb, skrb).0 == seq![asv[i as int]]
                            + merge_spec(
                            asv.skip(i + 1),
                            arv.skip(i + 1),
                            bsv.skip(j + 1),
                            brv.skip(j + 1),
                        ).0);
                        assert(merge_spec(ska, skra, skb, skrb).1 == seq![
                            addv(arv[i as int], brv[j as int]),
                        ] + merge_spec(
                            asv.skip(i + 1),
                            arv.skip(i + 1),
                            bsv.skip(j + 1),
                            brv.skip(j + 1),
                        ).1);
                        assert(rats_of(out_seps@) =~= rats_of(old_seps).push(asv[i as int]));
                        assert(rats_of(out_rates@) =~= rats_of(old_rates).push(
                            addv(arv[i as int], brv[j as int]),
                        ));
                        assert(rats_of(old_seps) + merge_spec(ska, skra, skb, skrb).0
                            =~= rats_of(out_seps@) + merge_spec(
                            asv.skip(i + 1),
                            arv.skip(i + 1),
                            bsv.skip(j + 1),
                            brv.skip(j + 1),
                        ).0);
                        assert(rats_of(old_rates) + merge_spec(ska, skra, skb, skrb).1
                            =~= rats_of(out_rates@) + merge_spec(
                            asv.skip(i + 1),
                            arv.skip(i + 1),
                            bsv.skip(j + 1),
                            brv.skip(j + 1),
                        ).1);
                    }
                    i += 1;
                    j += 1;
                }
            }
        }
        let last_sum = lhs.rates[i].add(&rhs.rates[j]);
        let ghost old_rates = out_rates@;
        out_rates.push(last_sum);
        proof {
            let ska = asv.skip(i as int);
            let skra = arv.skip(i as int);
            let skb = bsv.skip(j as int);
            let skrb = brv.skip(j as int);
            assert(ska.len() == 0 && skb.len() == 0);
            assert(skra[0] == arv[i as int]);
            assert(skrb[0] == brv[j as int]);
            assert(merge_spec(ska, skra, skb, skrb).0 =~= Seq::<RatV>::empty());
            assert(merge_spec(ska, skra, skb, skrb).1 == seq![
                addv(arv[i as int], brv[j as int]),
            ]);
            assert(rats_of(out_rates@) =~= rats_of(old_rates).push(
                addv(arv[i as int], brv[j as int]),
            ));
            assert(msv =~= rats_of(out_seps@));
            assert(mrv =~= rats_of(out_rates@));
            if asv.len() > 0 {
                assert(wfv(asv[0]));
                assert(lev(zerov(), asv[0]));
            }
            if bsv.len() > 0 {
                assert(wfv(bsv[0]));
                assert(lev(zerov(), bsv[0]));
            }
            assert(sched_frame(asv, arv, zerov()));
            assert(sched_frame(bsv, brv, zerov()));
            lemma_merge_frame(asv, arv, bsv, brv, zerov());
        }
        TaxBrackets::new(out_seps, out_rates)
    }
}

/// The index of the bracket holding `v` among the given ordered
/// separators: the first whose separator is at least `v`, with the last,
/// unbounded bracket as the fallback.  Together with
/// `lemma_bracket_unique` this is the totality guarantee: every value
/// falls in exactly one bracket.
fn bracket_index(seps: &Vec<Rational>, v: &Rational) -> (k: usize)
    ensures
        k <= seps@.len(),
        forall|j: int| 0 <= j < k ==> ltv(rats_of(seps@)[j], v@),
        k < seps@.len() ==> lev(v@, rats_of(seps@)[k as int]),
{
    let mut i: usize = 0;
    while i < seps.len()
        invariant
            i <= seps@.len(),
            forall|j: int| 0 <= j < i ==> ltv(rats_of(seps@)[j], v@),
        decreases seps@.len() - i,
    {
        if v.le(&seps[i]) {
            return i;
        }
        i += 1;
    }
    i
}

} // verus!
