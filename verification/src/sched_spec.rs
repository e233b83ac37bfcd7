//! The mathematical model of a progressive tax schedule.
//!
//! A schedule is a sequence of strictly increasing separators and one
//! marginal rate per bracket (one more rate than separators).  `tax_above`
//! charges the income above a bracket floor `lo`: the head rate applies up
//! to the first separator and the remaining schedule recurses above it.
//! Every contract of the bracket engine is stated over these functions, and
//! the lemmas here carry the engine's proofs: well-formedness, splitting a
//! bracket at an interior point, the closed form at a bracket, bounds and
//! monotonicity.

use vstd::prelude::*;

use crate::ratspec::{
    addv, divv, eqv, lemma_add_congr, lemma_eqv_trans, lemma_le_congr, lemma_le_trans,
    lemma_mul_congr, lemma_sub_congr, lev, ltv, mulv, onev, subv, wfv, zerov, RatV,
};

verus! {

/// Every element denotes a well-formed non-negative rational.
pub open spec fn all_wf(s: Seq<RatV>) -> bool {
    forall|i: int| 0 <= i < s.len() ==> wfv(#[trigger] s[i])
}

/// Adjacent elements are strictly increasing.
pub open spec fn sorted_strict(s: Seq<RatV>) -> bool {
    forall|i: int| 1 <= i < s.len() ==> ltv(s[i - 1], #[trigger] s[i])
}

/// A valid schedule: one more rate than separators, all values well
/// formed, separators strictly increasing, and every marginal rate below
/// one (a rate of one would make net income non-invertible).
pub open spec fn sched_wf(seps: Seq<RatV>, rates: Seq<RatV>) -> bool {
    &&& rates.len() == seps.len() + 1
    &&& all_wf(seps)
    &&& all_wf(rates)
    &&& sorted_strict(seps)
    &&& forall|i: int| 0 <= i < rates.len() ==> ltv(#[trigger] rates[i], onev())
}

/// The tax charged on the income from `lo` up to `g` by the given
/// schedule fragment, whose brackets start at `lo`.
pub open spec fn tax_above(seps: Seq<RatV>, rates: Seq<RatV>, lo: RatV, g: RatV) -> RatV
    decreases seps.len(),
{
    if seps.len() == 0 || lev(g, seps[0]) {
        mulv(rates[0], subv(g, lo))
    } else {
        addv(
            mulv(rates[0], subv(seps[0], lo)),
            tax_above(seps.drop_first(), rates.drop_first(), seps[0], g),
        )
    }
}

/// The total tax owed on a gross income `g`.
pub open spec fn tax_of(seps: Seq<RatV>, rates: Seq<RatV>, g: RatV) -> RatV {
    tax_above(seps, rates, zerov(), g)
}

/// The net income left from a gross income `g`.
pub open spec fn net_of(seps: Seq<RatV>, rates: Seq<RatV>, g: RatV) -> RatV {
    subv(g, tax_of(seps, rates, g))
}

/// Multiplying well-formed amounts stays well formed.
pub proof fn lemma_wf_mul(a: RatV, b: RatV)
    by (nonlinear_arith)
    requires
        wfv(a),
        wfv(b),
    ensures
        wfv(mulv(a, b)),
{
}

/// Adding well-formed amounts stays well formed.
pub proof fn lemma_wf_add(a: RatV, b: RatV)
    by (nonlinear_arith)
    requires
        wfv(a),
        wfv(b),
    ensures
        wfv(addv(a, b)),
{
}

/// Subtracting a smaller well-formed amount stays well formed.
pub proof fn lemma_wf_sub(a: RatV, b: RatV)
    by (nonlinear_arith)
    requires
        wfv(a),
        wfv(b),
        lev(b, a),
    ensures
        wfv(subv(a, b)),
{
}

/// Dividing by a positive well-formed amount stays well formed.
pub proof fn lemma_wf_div(a: RatV, b: RatV)
    by (nonlinear_arith)
    requires
        wfv(a),
        wfv(b),
        ltv(zerov(), b),
    ensures
        wfv(divv(a, b)),
{
}

/// Addition of rational values is associative.  The two groupings even
/// agree pairwise: same numerator, same denominator.
pub proof fn lemma_add_assoc(a: RatV, b: RatV, c: RatV)
    ensures
        eqv(addv(addv(a, b), c), addv(a, addv(b, c))),
{
    lemma_add_assoc_num(a.n, a.d, b.n, b.d, c.n, c.d);
    lemma_mul_assoc(a.d, b.d, c.d);
}

/// The numerators of the two groupings of a rational sum coincide.
proof fn lemma_add_assoc_num(an: int, ad: int, bn: int, bd: int, cn: int, cd: int)
    ensures
        (an * bd + bn * ad) * cd + cn * (ad * bd) == an * (bd * cd) + (bn * cd + cn * bd) * ad,
{
    broadcast use vstd::arithmetic::mul::group_mul_is_commutative_and_distributive;
    broadcast use vstd::arithmetic::mul::lemma_mul_is_associative;

}

/// Integer multiplication is associative.
pub proof fn lemma_mul_assoc(a: int, b: int, c: int)
    by (nonlinear_arith)
    ensures
        (a * b) * c == a * (b * c),
{
}

/// Adding an amount that denotes zero changes nothing.
pub proof fn lemma_add_zero_left(z: RatV, a: RatV)
    by (nonlinear_arith)
    requires
        z.d > 0,
        a.d > 0,
        eqv(z, zerov()),
    ensures
        eqv(addv(z, a), a),
{
}

/// Two rationals whose pairs differ by a common positive factor denote
/// the same number.
pub proof fn lemma_eqv_scaled(x: RatV, y: RatV, k: int)
    by (nonlinear_arith)
    requires
        y.n == k * x.n,
        y.d == k * x.d,
    ensures
        eqv(x, y),
{
}

/// A rate applied from `c` to `a` splits at any interior point `b`: the
/// right-hand pair is the left-hand pair scaled by `r.d * b.d * b.d`.
pub proof fn lemma_rate_split(r: RatV, a: RatV, b: RatV, c: RatV)
    ensures
        eqv(mulv(r, subv(a, c)), addv(mulv(r, subv(a, b)), mulv(r, subv(b, c)))),
{
    let x = mulv(r, subv(a, c));
    let y = addv(mulv(r, subv(a, b)), mulv(r, subv(b, c)));
    let k = r.d * (b.d * b.d);
    lemma_rate_split_num(r.n, r.d, a.n, a.d, b.n, b.d, c.n, c.d);
    lemma_rate_split_den(r.d, a.d, b.d, c.d);
    lemma_eqv_scaled(x, y, k);
}

/// The numerator of the split sum is the unsplit numerator scaled.
proof fn lemma_rate_split_num(
    rn: int,
    rd: int,
    an: int,
    ad: int,
    bn: int,
    bd: int,
    cn: int,
    cd: int,
)
    ensures
        (rn * (an * bd - bn * ad)) * (rd * (bd * cd)) + (rn * (bn * cd - cn * bd)) * (rd * (ad
            * bd)) == (rd * (bd * bd)) * (rn * (an * cd - cn * ad)),
{
    broadcast use vstd::arithmetic::mul::group_mul_is_commutative_and_distributive;
    broadcast use vstd::arithmetic::mul::lemma_mul_is_associative;

}

/// The denominator of the split sum is the unsplit denominator scaled.
proof fn lemma_rate_split_den(rd: int, ad: int, bd: int, cd: int)
    ensures
        (rd * (ad * bd)) * (rd * (bd * cd)) == (rd * (bd * bd)) * (rd * (ad * cd)),
{
    broadcast use vstd::arithmetic::mul::group_mul_is_commutative_and_distributive;
    broadcast use vstd::arithmetic::mul::lemma_mul_is_associative;

}

/// An amount times a factor denoting zero denotes zero.
pub proof fn lemma_mul_zero(r: RatV, a: RatV)
    by (nonlinear_arith)
    requires
        eqv(a, zerov()),
    ensures
        eqv(mulv(r, a), zerov()),
{
}

/// Strict order chains through any interval of a sorted sequence.
pub proof fn lemma_sorted_pairwise(s: Seq<RatV>, i: int, j: int)
    requires
        all_wf(s),
        sorted_strict(s),
        0 <= i < j < s.len(),
    ensures
        ltv(s[i], s[j]),
    decreases j - i,
{
    if j == i + 1 {
    } else {
        lemma_sorted_pairwise(s, i, j - 1);
        lemma_lt_lt_trans(s[i], s[j - 1], s[j]);
    }
}

/// Strict order is transitive.
pub proof fn lemma_lt_lt_trans(a: RatV, b: RatV, c: RatV)
    by (nonlinear_arith)
    requires
        a.d > 0,
        b.d > 0,
        c.d > 0,
        ltv(a, b),
        ltv(b, c),
    ensures
        ltv(a, c),
{
}

/// Mixed order chains: at-most then strictly-below.
pub proof fn lemma_le_lt_trans(a: RatV, b: RatV, c: RatV)
    by (nonlinear_arith)
    requires
        a.d > 0,
        b.d > 0,
        c.d > 0,
        lev(a, b),
        ltv(b, c),
    ensures
        ltv(a, c),
{
}

/// Mixed order chains: strictly-below then at-most.
pub proof fn lemma_lt_le_trans(a: RatV, b: RatV, c: RatV)
    by (nonlinear_arith)
    requires
        a.d > 0,
        b.d > 0,
        c.d > 0,
        ltv(a, b),
        lev(b, c),
    ensures
        ltv(a, c),
{
}

/// The context every bracket walk maintains: a valid schedule fragment
/// whose brackets start at the well-formed floor `lo`.
pub open spec fn sched_frame(seps: Seq<RatV>, rates: Seq<RatV>, lo: RatV) -> bool {
    &&& rates.len() == seps.len() + 1
    &&& all_wf(seps)
    &&& all_wf(rates)
    &&& sorted_strict(seps)
    &&& wfv(lo)
    &&& (seps.len() > 0 ==> lev(lo, seps[0]))
}

/// Every marginal rate is strictly below one.
pub open spec fn rates_below_one(rates: Seq<RatV>) -> bool {
    forall|i: int| 0 <= i < rates.len() ==> ltv(#[trigger] rates[i], onev())
}

/// Dropping the first bracket keeps the frame, with its separator as the
/// new floor.
pub proof fn lemma_frame_tail(seps: Seq<RatV>, rates: Seq<RatV>, lo: RatV)
    requires
        sched_frame(seps, rates, lo),
        seps.len() > 0,
    ensures
        sched_frame(seps.drop_first(), rates.drop_first(), seps[0]),
{
    let ts = seps.drop_first();
    let tr = rates.drop_first();
    assert(forall|i: int| 0 <= i < ts.len() ==> ts[i] == seps[i + 1]);
    assert(forall|i: int| 0 <= i < tr.len() ==> tr[i] == rates[i + 1]);
    assert(forall|i: int| 0 <= i < ts.len() ==> wfv(#[trigger] ts[i]));
    assert(forall|i: int| 0 <= i < tr.len() ==> wfv(#[trigger] tr[i]));
    assert(forall|i: int| 1 <= i < ts.len() ==> ltv(ts[i - 1], #[trigger] ts[i]));
}

/// Dropping the first bracket keeps all rates below one.
pub proof fn lemma_rates_tail(rates: Seq<RatV>)
    requires
        rates_below_one(rates),
        rates.len() > 0,
    ensures
        rates_below_one(rates.drop_first()),
{
    let tr = rates.drop_first();
    assert(forall|i: int| 0 <= i < tr.len() ==> tr[i] == rates[i + 1]);
    assert(forall|i: int| 0 <= i < tr.len() ==> ltv(#[trigger] tr[i], onev()));
}

/// The tax charged above `lo` is a well-formed amount.
pub proof fn lemma_tax_wf(seps: Seq<RatV>, rates: Seq<RatV>, lo: RatV, g: RatV)
    requires
        sched_frame(seps, rates, lo),
        wfv(g),
        lev(lo, g),
    ensures
        wfv(tax_above(seps, rates, lo, g)),
    decreases seps.len(),
{
    if seps.len() == 0 || lev(g, seps[0]) {
        lemma_wf_sub(g, lo);
        lemma_wf_mul(rates[0], subv(g, lo));
    } else {
        lemma_wf_sub(seps[0], lo);
        lemma_wf_mul(rates[0], subv(seps[0], lo));
        lemma_frame_tail(seps, rates, lo);
        lemma_tax_wf(seps.drop_first(), rates.drop_first(), seps[0], g);
        lemma_wf_add(
            mulv(rates[0], subv(seps[0], lo)),
            tax_above(seps.drop_first(), rates.drop_first(), seps[0], g),
        );
    }
}

/// No tax is charged on income at the floor itself.
pub proof fn lemma_tax_zero(seps: Seq<RatV>, rates: Seq<RatV>, lo: RatV)
    requires
        sched_frame(seps, rates, lo),
    ensures
        eqv(tax_above(seps, rates, lo, lo), zerov()),
{
    lemma_mul_zero(rates[0], subv(lo, lo));
}

/// Charging from `lo` up to `g` is the head rate from `lo` to an interior
/// point `m`, plus charging from `m` up to `g`.
pub proof fn lemma_tax_split(seps: Seq<RatV>, rates: Seq<RatV>, lo: RatV, m: RatV, g: RatV)
    requires
        sched_frame(seps, rates, lo),
        sched_frame(seps, rates, m),
        wfv(g),
        lev(lo, m),
    ensures
        eqv(
            tax_above(seps, rates, lo, g),
            addv(mulv(rates[0], subv(m, lo)), tax_above(seps, rates, m, g)),
        ),
{
    let r0 = rates[0];
    if seps.len() == 0 || lev(g, seps[0]) {
        lemma_rate_split(r0, g, m, lo);
        lemma_add_comm(mulv(r0, subv(g, m)), mulv(r0, subv(m, lo)));
    } else {
        let t = tax_above(seps.drop_first(), rates.drop_first(), seps[0], g);
        let x = mulv(r0, subv(seps[0], m));
        let y = mulv(r0, subv(m, lo));
        lemma_frame_tail(seps, rates, m);
        lemma_tax_wf(seps.drop_first(), rates.drop_first(), seps[0], g);
        lemma_wf_sub(seps[0], lo);
        lemma_wf_mul(r0, subv(seps[0], lo));
        lemma_wf_sub(seps[0], m);
        lemma_wf_mul(r0, subv(seps[0], m));
        lemma_wf_sub(m, lo);
        lemma_wf_mul(r0, subv(m, lo));
        lemma_wf_add(x, y);
        lemma_wf_add(y, x);
        lemma_wf_add(x, t);
        lemma_wf_add(addv(y, x), t);
        lemma_rate_split(r0, seps[0], m, lo);
        lemma_add_congr(mulv(r0, subv(seps[0], lo)), t, addv(x, y), t);
        lemma_add_comm(x, y);
        lemma_add_assoc(y, x, t);
        lemma_eqv_trans(
            tax_above(seps, rates, lo, g),
            addv(addv(y, x), t),
            addv(y, addv(x, t)),
        );
    }
}

/// Addition of rational values is commutative, pair for pair.
pub proof fn lemma_add_comm(a: RatV, b: RatV)
    ensures
        addv(a, b) == addv(b, a),
{
    broadcast use vstd::arithmetic::mul::lemma_mul_is_commutative;

}

/// A rate of at most one keeps an amount from growing.
pub proof fn lemma_mul_le_one(r: RatV, x: RatV)
    by (nonlinear_arith)
    requires
        wfv(r),
        wfv(x),
        lev(r, onev()),
    ensures
        lev(mulv(r, x), x),
{
}

/// Scaling by a well-formed rate preserves order.
pub proof fn lemma_mul_le_mono(r: RatV, x: RatV, y: RatV)
    by (nonlinear_arith)
    requires
        wfv(r),
        wfv(x),
        wfv(y),
        lev(x, y),
    ensures
        lev(mulv(r, x), mulv(r, y)),
{
}

/// Addition preserves order on both sides.
pub proof fn lemma_add_le_mono(a: RatV, b: RatV, c: RatV, d: RatV)
    requires
        wfv(a),
        wfv(b),
        wfv(c),
        wfv(d),
        lev(a, b),
        lev(c, d),
    ensures
        lev(addv(a, c), addv(b, d)),
{
    broadcast use vstd::arithmetic::mul::group_mul_is_commutative_and_distributive;
    broadcast use vstd::arithmetic::mul::lemma_mul_is_associative;

    lemma_pos_mul_ints(c.d, d.d);
    lemma_pos_mul_ints(a.d, b.d);
    lemma_scale_le(a.n * b.d, b.n * a.d, c.d * d.d);
    lemma_scale_le(c.n * d.d, d.n * c.d, a.d * b.d);
    assert((c.d * d.d) * (a.n * b.d) == (a.n * c.d) * (b.d * d.d));
    assert((c.d * d.d) * (b.n * a.d) == (b.n * d.d) * (a.d * c.d));
    assert((a.d * b.d) * (c.n * d.d) == (c.n * a.d) * (b.d * d.d));
    assert((a.d * b.d) * (d.n * c.d) == (d.n * b.d) * (a.d * c.d));
    assert(addv(a, c).n * addv(b, d).d == (a.n * c.d) * (b.d * d.d) + (c.n * a.d) * (b.d
        * d.d));
    assert(addv(b, d).n * addv(a, c).d == (b.n * d.d) * (a.d * c.d) + (d.n * b.d) * (a.d
        * c.d));
}

/// Adding a non-negative amount never shrinks a value.
pub proof fn lemma_le_add_nonneg(a: RatV, t: RatV)
    by (nonlinear_arith)
    requires
        wfv(a),
        wfv(t),
    ensures
        lev(a, addv(a, t)),
{
}

/// Subtracting a fixed floor preserves order.
pub proof fn lemma_sub_le_mono(lo: RatV, x: RatV, y: RatV)
    by (nonlinear_arith)
    requires
        wfv(lo),
        wfv(x),
        wfv(y),
        lev(x, y),
    ensures
        lev(subv(x, lo), subv(y, lo)),
{
}

/// The bracket floor below an income in bracket `k`.
pub open spec fn bracket_floor(seps: Seq<RatV>, lo: RatV, k: int) -> RatV {
    if k == 0 {
        lo
    } else {
        seps[k - 1]
    }
}

/// `g` lies in bracket `k`: strictly above the bracket's floor separator
/// (if any) and at most its ceiling separator (if any).
pub open spec fn in_bracket(seps: Seq<RatV>, k: int, g: RatV) -> bool {
    &&& (k > 0 ==> ltv(seps[k - 1], g))
    &&& (k < seps.len() ==> lev(g, seps[k]))
}

/// The closed form of the tax at an income in bracket `k`: the tax at the
/// bracket's floor, plus the bracket's rate on the excess over the floor.
pub proof fn lemma_tax_at_bracket(seps: Seq<RatV>, rates: Seq<RatV>, lo: RatV, k: int, g: RatV)
    requires
        sched_frame(seps, rates, lo),
        wfv(g),
        lev(lo, g),
        0 <= k < rates.len(),
        in_bracket(seps, k, g),
    ensures
        eqv(
            tax_above(seps, rates, lo, g),
            addv(
                tax_above(seps, rates, lo, bracket_floor(seps, lo, k)),
                mulv(rates[k], subv(g, bracket_floor(seps, lo, k))),
            ),
        ),
    decreases k,
{
    let bnd = bracket_floor(seps, lo, k);
    if k == 0 {
        let z = tax_above(seps, rates, lo, lo);
        let m = mulv(rates[0], subv(g, lo));
        lemma_tax_zero(seps, rates, lo);
        lemma_tax_wf(seps, rates, lo, lo);
        lemma_wf_sub(g, lo);
        lemma_wf_mul(rates[0], subv(g, lo));
        lemma_add_zero_left(z, m);
    } else {
        let ts = seps.drop_first();
        let tr = rates.drop_first();
        assert(forall|i: int| 0 <= i < ts.len() ==> ts[i] == seps[i + 1]);
        assert(forall|i: int| 0 <= i < tr.len() ==> tr[i] == rates[i + 1]);
        if k >= 2 {
            lemma_sorted_pairwise(seps, 0, k - 1);
            lemma_lt_lt_trans(seps[0], seps[k - 1], g);
        }
        let m0 = mulv(rates[0], subv(seps[0], lo));
        let tg = tax_above(ts, tr, seps[0], g);
        lemma_frame_tail(seps, rates, lo);
        lemma_tax_at_bracket(ts, tr, seps[0], k - 1, g);
        let tbnd = tax_above(ts, tr, seps[0], bnd);
        let y = mulv(rates[k], subv(g, bnd));
        // well-formedness of every summand
        lemma_wf_sub(seps[0], lo);
        lemma_wf_mul(rates[0], subv(seps[0], lo));
        lemma_tax_wf(ts, tr, seps[0], g);
        if k == 1 {
            lemma_tax_wf(ts, tr, seps[0], seps[0]);
        } else {
            lemma_sorted_pairwise(seps, 0, k - 1);
            lemma_tax_wf(ts, tr, seps[0], bnd);
        }
        lemma_wf_sub(g, bnd);
        lemma_wf_mul(rates[k], subv(g, bnd));
        lemma_wf_add(tbnd, y);
        if k == 1 {
            // the tax up to the bracket floor is the head charge alone
            lemma_tax_zero(ts, tr, seps[0]);
            lemma_add_zero_left(tbnd, y);
            lemma_eqv_trans(tg, addv(tbnd, y), y);
            lemma_add_congr(m0, tg, m0, y);
            lemma_wf_add(m0, y);
        } else {
            // the closed form re-associates around the head charge
            lemma_add_congr(m0, tg, m0, addv(tbnd, y));
            lemma_add_assoc(m0, tbnd, y);
            lemma_wf_add(m0, tbnd);
            lemma_wf_add(addv(m0, tbnd), y);
            lemma_wf_add(m0, addv(tbnd, y));
            lemma_wf_add(m0, tg);
            lemma_eqv_trans(
                addv(m0, tg),
                addv(m0, addv(tbnd, y)),
                addv(addv(m0, tbnd), y),
            );
        }
    }
}

/// The tax charged above `lo` never exceeds the income above `lo`.
pub proof fn lemma_tax_le(seps: Seq<RatV>, rates: Seq<RatV>, lo: RatV, g: RatV)
    requires
        sched_frame(seps, rates, lo),
        rates_below_one(rates),
        wfv(g),
        lev(lo, g),
    ensures
        lev(tax_above(seps, rates, lo, g), subv(g, lo)),
    decreases seps.len(),
{
    if seps.len() == 0 || lev(g, seps[0]) {
        lemma_wf_sub(g, lo);
        lemma_mul_le_one(rates[0], subv(g, lo));
    } else {
        let m0 = mulv(rates[0], subv(seps[0], lo));
        let t = tax_above(seps.drop_first(), rates.drop_first(), seps[0], g);
        lemma_frame_tail(seps, rates, lo);
        lemma_rates_tail(rates);
        lemma_tax_le(seps.drop_first(), rates.drop_first(), seps[0], g);
        lemma_wf_sub(seps[0], lo);
        lemma_wf_sub(g, seps[0]);
        lemma_wf_sub(g, lo);
        lemma_mul_le_one(rates[0], subv(seps[0], lo));
        lemma_tax_wf(seps.drop_first(), rates.drop_first(), seps[0], g);
        lemma_wf_mul(rates[0], subv(seps[0], lo));
        lemma_add_le_mono(m0, subv(seps[0], lo), t, subv(g, seps[0]));
        lemma_rate_split(onev(), g, seps[0], lo);
        assert(mulv(onev(), subv(g, lo)) == subv(g, lo));
        assert(mulv(onev(), subv(g, seps[0])) == subv(g, seps[0]));
        assert(mulv(onev(), subv(seps[0], lo)) == subv(seps[0], lo));
        lemma_add_comm(subv(g, seps[0]), subv(seps[0], lo));
        lemma_wf_add(m0, t);
        lemma_wf_add(subv(seps[0], lo), subv(g, seps[0]));
        lemma_le_congr(
            addv(m0, t),
            addv(subv(seps[0], lo), subv(g, seps[0])),
            addv(m0, t),
            subv(g, lo),
        );
    }
}

/// The tax charged above `lo` is monotone in the income.
pub proof fn lemma_tax_mono(seps: Seq<RatV>, rates: Seq<RatV>, lo: RatV, g1: RatV, g2: RatV)
    requires
        sched_frame(seps, rates, lo),
        wfv(g1),
        wfv(g2),
        lev(lo, g1),
        lev(g1, g2),
    ensures
        lev(tax_above(seps, rates, lo, g1), tax_above(seps, rates, lo, g2)),
    decreases seps.len(),
{
    lemma_le_trans(lo, g1, g2);
    if seps.len() == 0 || lev(g2, seps[0]) {
        if seps.len() > 0 {
            lemma_le_trans(g1, g2, seps[0]);
        }
        lemma_wf_sub(g1, lo);
        lemma_wf_sub(g2, lo);
        lemma_sub_le_mono(lo, g1, g2);
        lemma_mul_le_mono(rates[0], subv(g1, lo), subv(g2, lo));
    } else if lev(g1, seps[0]) {
        // g1 stays in the head bracket while g2 lies above it
        let m0 = mulv(rates[0], subv(seps[0], lo));
        let t2 = tax_above(seps.drop_first(), rates.drop_first(), seps[0], g2);
        lemma_frame_tail(seps, rates, lo);
        lemma_wf_sub(g1, lo);
        lemma_wf_sub(seps[0], lo);
        lemma_sub_le_mono(lo, g1, seps[0]);
        lemma_mul_le_mono(rates[0], subv(g1, lo), subv(seps[0], lo));
        lemma_wf_mul(rates[0], subv(g1, lo));
        lemma_wf_mul(rates[0], subv(seps[0], lo));
        lemma_tax_wf(seps.drop_first(), rates.drop_first(), seps[0], g2);
        lemma_le_add_nonneg(m0, t2);
        lemma_wf_add(m0, t2);
        lemma_le_trans(mulv(rates[0], subv(g1, lo)), m0, addv(m0, t2));
    } else {
        let m0 = mulv(rates[0], subv(seps[0], lo));
        let t1 = tax_above(seps.drop_first(), rates.drop_first(), seps[0], g1);
        let t2 = tax_above(seps.drop_first(), rates.drop_first(), seps[0], g2);
        lemma_frame_tail(seps, rates, lo);
        lemma_tax_mono(seps.drop_first(), rates.drop_first(), seps[0], g1, g2);
        lemma_wf_sub(seps[0], lo);
        lemma_wf_mul(rates[0], subv(seps[0], lo));
        lemma_tax_wf(seps.drop_first(), rates.drop_first(), seps[0], g1);
        lemma_tax_wf(seps.drop_first(), rates.drop_first(), seps[0], g2);
        lemma_add_le_mono(m0, m0, t1, t2);
    }
}

/// Multiplication of rational values is commutative, pair for pair.
pub proof fn lemma_mul_comm(a: RatV, b: RatV)
    ensures
        mulv(a, b) == mulv(b, a),
{
    broadcast use vstd::arithmetic::mul::lemma_mul_is_commutative;

}

/// A rate strictly below one strictly shrinks a positive amount.
pub proof fn lemma_mul_lt_one(r: RatV, x: RatV)
    by (nonlinear_arith)
    requires
        wfv(r),
        wfv(x),
        ltv(r, onev()),
        ltv(zerov(), x),
    ensures
        ltv(mulv(r, x), x),
{
}

/// Scaling both sides of an inequality by a positive factor keeps it.
proof fn lemma_scale_le(x: int, y: int, k: int)
    by (nonlinear_arith)
    requires
        x <= y,
        k > 0,
    ensures
        k * x <= k * y,
{
}

/// Scaling both sides of a strict inequality by a positive factor keeps it.
proof fn lemma_scale_lt(x: int, y: int, k: int)
    by (nonlinear_arith)
    requires
        x < y,
        k > 0,
    ensures
        k * x < k * y,
{
}

/// Addition preserves order strictly when one side is strict.
pub proof fn lemma_add_lt_mono(a: RatV, b: RatV, c: RatV, d: RatV)
    requires
        wfv(a),
        wfv(b),
        wfv(c),
        wfv(d),
        lev(a, b),
        ltv(c, d),
    ensures
        ltv(addv(a, c), addv(b, d)),
{
    broadcast use vstd::arithmetic::mul::group_mul_is_commutative_and_distributive;
    broadcast use vstd::arithmetic::mul::lemma_mul_is_associative;

    lemma_pos_mul_ints(c.d, d.d);
    lemma_pos_mul_ints(a.d, b.d);
    lemma_scale_le(a.n * b.d, b.n * a.d, c.d * d.d);
    lemma_scale_lt(c.n * d.d, d.n * c.d, a.d * b.d);
    assert((c.d * d.d) * (a.n * b.d) == (a.n * c.d) * (b.d * d.d));
    assert((c.d * d.d) * (b.n * a.d) == (b.n * d.d) * (a.d * c.d));
    assert((a.d * b.d) * (c.n * d.d) == (c.n * a.d) * (b.d * d.d));
    assert((a.d * b.d) * (d.n * c.d) == (d.n * b.d) * (a.d * c.d));
    assert(addv(a, c).n * addv(b, d).d == (a.n * c.d) * (b.d * d.d) + (c.n * a.d) * (b.d
        * d.d));
    assert(addv(b, d).n * addv(a, c).d == (b.n * d.d) * (a.d * c.d) + (d.n * b.d) * (a.d
        * c.d));
}

/// The product of two positive integers is positive.
pub proof fn lemma_pos_mul_ints(a: int, b: int)
    by (nonlinear_arith)
    requires
        a > 0,
        b > 0,
    ensures
        a * b > 0,
{
}

/// A Lipschitz-style bound: raising an income raises the tax by at most
/// the raise itself.
pub proof fn lemma_tax_lipschitz(seps: Seq<RatV>, rates: Seq<RatV>, lo: RatV, g1: RatV, g2: RatV)
    requires
        sched_frame(seps, rates, lo),
        rates_below_one(rates),
        wfv(g1),
        wfv(g2),
        lev(lo, g1),
        lev(g1, g2),
    ensures
        lev(
            tax_above(seps, rates, lo, g2),
            addv(tax_above(seps, rates, lo, g1), subv(g2, g1)),
        ),
    decreases seps.len(),
{
    lemma_le_trans(lo, g1, g2);
    let t1 = tax_above(seps, rates, lo, g1);
    let t2 = tax_above(seps, rates, lo, g2);
    lemma_tax_wf(seps, rates, lo, g1);
    lemma_tax_wf(seps, rates, lo, g2);
    lemma_wf_sub(g2, g1);
    lemma_wf_add(t1, subv(g2, g1));
    if seps.len() == 0 || lev(g2, seps[0]) {
        if seps.len() > 0 {
            lemma_le_trans(g1, g2, seps[0]);
        }
        // within one bracket the raise is taxed at the head rate alone
        let r0 = rates[0];
        lemma_rate_split(r0, g2, g1, lo);
        lemma_wf_sub(g1, lo);
        lemma_wf_mul(r0, subv(g2, g1));
        lemma_wf_mul(r0, subv(g1, lo));
        lemma_wf_add(mulv(r0, subv(g2, g1)), mulv(r0, subv(g1, lo)));
        lemma_mul_le_one(r0, subv(g2, g1));
        lemma_add_le_mono(mulv(r0, subv(g1, lo)), t1, mulv(r0, subv(g2, g1)), subv(g2, g1));
        lemma_add_comm(mulv(r0, subv(g2, g1)), mulv(r0, subv(g1, lo)));
        lemma_le_congr(
            addv(mulv(r0, subv(g1, lo)), mulv(r0, subv(g2, g1))),
            addv(t1, subv(g2, g1)),
            t2,
            addv(t1, subv(g2, g1)),
        );
    } else if lev(g1, seps[0]) {
        // the raise crosses out of the head bracket
        let r0 = rates[0];
        let s0 = seps[0];
        let ts = seps.drop_first();
        let tr = rates.drop_first();
        let tt2 = tax_above(ts, tr, s0, g2);
        lemma_frame_tail(seps, rates, lo);
        lemma_rates_tail(rates);
        lemma_tax_le(ts, tr, s0, g2);
        lemma_tax_wf(ts, tr, s0, g2);
        lemma_rate_split(r0, s0, g1, lo);
        lemma_wf_sub(s0, lo);
        lemma_wf_sub(s0, g1);
        lemma_wf_sub(g2, s0);
        lemma_wf_mul(r0, subv(s0, lo));
        lemma_wf_mul(r0, subv(s0, g1));
        lemma_wf_mul(r0, subv(g1, lo));
        lemma_wf_sub(g1, lo);
        lemma_wf_add(mulv(r0, subv(s0, g1)), mulv(r0, subv(g1, lo)));
        lemma_mul_le_one(r0, subv(s0, g1));
        // head charge up to the separator, bounded by t1 plus the gap
        lemma_add_le_mono(mulv(r0, subv(g1, lo)), t1, mulv(r0, subv(s0, g1)), subv(s0, g1));
        lemma_add_comm(mulv(r0, subv(s0, g1)), mulv(r0, subv(g1, lo)));
        lemma_wf_add(t1, subv(s0, g1));
        lemma_le_congr(
            addv(mulv(r0, subv(g1, lo)), mulv(r0, subv(s0, g1))),
            addv(t1, subv(s0, g1)),
            mulv(r0, subv(s0, lo)),
            addv(t1, subv(s0, g1)),
        );
        // and the tail charge is at most the income above the separator
        lemma_add_le_mono(
            mulv(r0, subv(s0, lo)),
            addv(t1, subv(s0, g1)),
            tt2,
            subv(g2, s0),
        );
        lemma_wf_add(addv(t1, subv(s0, g1)), subv(g2, s0));
        lemma_wf_add(mulv(r0, subv(s0, lo)), tt2);
        // regroup: t1 + ((s0 - g1) + (g2 - s0)) and collapse the telescoped gap
        lemma_add_assoc(t1, subv(s0, g1), subv(g2, s0));
        lemma_wf_add(subv(s0, g1), subv(g2, s0));
        lemma_wf_add(t1, addv(subv(s0, g1), subv(g2, s0)));
        lemma_le_trans(
            t2,
            addv(addv(t1, subv(s0, g1)), subv(g2, s0)),
            addv(t1, addv(subv(s0, g1), subv(g2, s0))),
        );
        lemma_rate_split(onev(), g2, s0, g1);
        assert(mulv(onev(), subv(g2, g1)) == subv(g2, g1));
        assert(mulv(onev(), subv(g2, s0)) == subv(g2, s0));
        assert(mulv(onev(), subv(s0, g1)) == subv(s0, g1));
        lemma_add_comm(subv(g2, s0), subv(s0, g1));
        lemma_add_congr(t1, addv(subv(s0, g1), subv(g2, s0)), t1, subv(g2, g1));
        lemma_le_congr(
            addv(t1, addv(subv(s0, g1), subv(g2, s0))),
            addv(t1, addv(subv(s0, g1), subv(g2, s0))),
            addv(t1, addv(subv(s0, g1), subv(g2, s0))),
            addv(t1, subv(g2, g1)),
        );
        lemma_le_trans(
            t2,
            addv(t1, addv(subv(s0, g1), subv(g2, s0))),
            addv(t1, subv(g2, g1)),
        );
    } else {
        // both incomes lie above the head bracket
        let r0 = rates[0];
        let s0 = seps[0];
        let ts = seps.drop_first();
        let tr = rates.drop_first();
        let m0 = mulv(r0, subv(s0, lo));
        let tt1 = tax_above(ts, tr, s0, g1);
        let tt2 = tax_above(ts, tr, s0, g2);
        lemma_frame_tail(seps, rates, lo);
        lemma_rates_tail(rates);
        lemma_tax_lipschitz(ts, tr, s0, g1, g2);
        lemma_tax_wf(ts, tr, s0, g1);
        lemma_tax_wf(ts, tr, s0, g2);
        lemma_wf_sub(s0, lo);
        lemma_wf_mul(r0, subv(s0, lo));
        lemma_wf_add(tt1, subv(g2, g1));
        lemma_add_le_mono(m0, m0, tt2, addv(tt1, subv(g2, g1)));
        lemma_wf_add(m0, tt2);
        lemma_wf_add(m0, addv(tt1, subv(g2, g1)));
        lemma_add_comm(tt1, subv(g2, g1));
        lemma_add_assoc(m0, subv(g2, g1), tt1);
        lemma_add_comm(subv(g2, g1), tt1);
        // regroup (m0 + (tt1 + gap)) as ((m0 + tt1) + gap)
        lemma_add_assoc(m0, tt1, subv(g2, g1));
        lemma_wf_add(m0, tt1);
        lemma_wf_add(addv(m0, tt1), subv(g2, g1));
        lemma_le_congr(
            addv(m0, addv(tt1, subv(g2, g1))),
            addv(addv(m0, tt1), subv(g2, g1)),
            addv(m0, addv(tt1, subv(g2, g1))),
            addv(addv(m0, tt1), subv(g2, g1)),
        );
        lemma_le_trans(
            t2,
            addv(m0, addv(tt1, subv(g2, g1))),
            addv(addv(m0, tt1), subv(g2, g1)),
        );
    }
}

/// The tax charged above `lo` is strictly below the income above `lo`,
/// whenever some income stands above `lo` at all.
pub proof fn lemma_tax_lt(seps: Seq<RatV>, rates: Seq<RatV>, lo: RatV, g: RatV)
    requires
        sched_frame(seps, rates, lo),
        rates_below_one(rates),
        wfv(g),
        ltv(lo, g),
    ensures
        ltv(tax_above(seps, rates, lo, g), subv(g, lo)),
    decreases seps.len(),
{
    if seps.len() == 0 || lev(g, seps[0]) {
        lemma_wf_sub(g, lo);
        lemma_sub_pos(lo, g);
        lemma_mul_lt_one(rates[0], subv(g, lo));
    } else {
        let s0 = seps[0];
        let m0 = mulv(rates[0], subv(s0, lo));
        let t = tax_above(seps.drop_first(), rates.drop_first(), s0, g);
        lemma_frame_tail(seps, rates, lo);
        lemma_rates_tail(rates);
        lemma_tax_lt(seps.drop_first(), rates.drop_first(), s0, g);
        lemma_wf_sub(s0, lo);
        lemma_wf_sub(g, s0);
        lemma_wf_sub(g, lo);
        lemma_mul_le_one(rates[0], subv(s0, lo));
        lemma_tax_wf(seps.drop_first(), rates.drop_first(), s0, g);
        lemma_wf_mul(rates[0], subv(s0, lo));
        lemma_add_lt_mono(m0, subv(s0, lo), t, subv(g, s0));
        lemma_add_comm(subv(s0, lo), subv(g, s0));
        lemma_add_comm(subv(g, s0), subv(s0, lo));
        lemma_rate_split(onev(), g, s0, lo);
        assert(mulv(onev(), subv(g, lo)) == subv(g, lo));
        assert(mulv(onev(), subv(g, s0)) == subv(g, s0));
        assert(mulv(onev(), subv(s0, lo)) == subv(s0, lo));
        lemma_wf_add(m0, t);
        lemma_wf_add(subv(g, s0), subv(s0, lo));
        lemma_lt_congr(
            addv(m0, t),
            addv(subv(g, s0), subv(s0, lo)),
            addv(m0, t),
            subv(g, lo),
        );
    }
}

/// The difference of a strictly larger amount is strictly positive.
pub proof fn lemma_sub_pos(a: RatV, b: RatV)
    by (nonlinear_arith)
    requires
        ltv(a, b),
    ensures
        ltv(zerov(), subv(b, a)),
{
}

/// Strict order is compatible with equality of values.
pub proof fn lemma_lt_congr(a: RatV, b: RatV, a2: RatV, b2: RatV)
    by (nonlinear_arith)
    requires
        a.d > 0,
        b.d > 0,
        a2.d > 0,
        b2.d > 0,
        eqv(a, a2),
        eqv(b, b2),
        ltv(a, b),
    ensures
        ltv(a2, b2),
{
}

/// The strict Lipschitz bound: a strict raise is taxed strictly below
/// the raise itself.
pub proof fn lemma_tax_lipschitz_strict(
    seps: Seq<RatV>,
    rates: Seq<RatV>,
    lo: RatV,
    g1: RatV,
    g2: RatV,
)
    requires
        sched_frame(seps, rates, lo),
        rates_below_one(rates),
        wfv(g1),
        wfv(g2),
        lev(lo, g1),
        ltv(g1, g2),
    ensures
        ltv(
            tax_above(seps, rates, lo, g2),
            addv(tax_above(seps, rates, lo, g1), subv(g2, g1)),
        ),
    decreases seps.len(),
{
    lemma_le_lt_trans(lo, g1, g2);
    let t1 = tax_above(seps, rates, lo, g1);
    let t2 = tax_above(seps, rates, lo, g2);
    lemma_tax_wf(seps, rates, lo, g1);
    lemma_tax_wf(seps, rates, lo, g2);
    lemma_wf_sub(g2, g1);
    lemma_wf_add(t1, subv(g2, g1));
    if seps.len() == 0 || lev(g2, seps[0]) {
        if seps.len() > 0 {
            lemma_lt_le_trans(g1, g2, seps[0]);
        }
        let r0 = rates[0];
        lemma_rate_split(r0, g2, g1, lo);
        lemma_wf_sub(g1, lo);
        lemma_wf_mul(r0, subv(g2, g1));
        lemma_wf_mul(r0, subv(g1, lo));
        lemma_wf_add(mulv(r0, subv(g2, g1)), mulv(r0, subv(g1, lo)));
        lemma_sub_pos(g1, g2);
        lemma_mul_lt_one(r0, subv(g2, g1));
        lemma_add_lt_mono(mulv(r0, subv(g1, lo)), t1, mulv(r0, subv(g2, g1)), subv(g2, g1));
        lemma_add_comm(mulv(r0, subv(g2, g1)), mulv(r0, subv(g1, lo)));
        lemma_lt_congr(
            addv(mulv(r0, subv(g1, lo)), mulv(r0, subv(g2, g1))),
            addv(t1, subv(g2, g1)),
            t2,
            addv(t1, subv(g2, g1)),
        );
    } else if lev(g1, seps[0]) {
        let r0 = rates[0];
        let s0 = seps[0];
        let ts = seps.drop_first();
        let tr = rates.drop_first();
        let tt2 = tax_above(ts, tr, s0, g2);
        lemma_frame_tail(seps, rates, lo);
        lemma_rates_tail(rates);
        lemma_tax_lt(ts, tr, s0, g2);
        lemma_tax_wf(ts, tr, s0, g2);
        lemma_rate_split(r0, s0, g1, lo);
        lemma_wf_sub(s0, lo);
        lemma_wf_sub(s0, g1);
        lemma_wf_sub(g2, s0);
        lemma_wf_mul(r0, subv(s0, lo));
        lemma_wf_mul(r0, subv(s0, g1));
        lemma_wf_mul(r0, subv(g1, lo));
        lemma_wf_sub(g1, lo);
        lemma_wf_add(mulv(r0, subv(s0, g1)), mulv(r0, subv(g1, lo)));
        lemma_mul_le_one(r0, subv(s0, g1));
        lemma_add_le_mono(mulv(r0, subv(g1, lo)), t1, mulv(r0, subv(s0, g1)), subv(s0, g1));
        lemma_add_comm(mulv(r0, subv(s0, g1)), mulv(r0, subv(g1, lo)));
        lemma_wf_add(t1, subv(s0, g1));
        lemma_le_congr(
            addv(mulv(r0, subv(g1, lo)), mulv(r0, subv(s0, g1))),
            addv(t1, subv(s0, g1)),
            mulv(r0, subv(s0, lo)),
            addv(t1, subv(s0, g1)),
        );
        lemma_add_lt_mono(
            mulv(r0, subv(s0, lo)),
            addv(t1, subv(s0, g1)),
            tt2,
            subv(g2, s0),
        );
        lemma_wf_add(addv(t1, subv(s0, g1)), subv(g2, s0));
        lemma_wf_add(mulv(r0, subv(s0, lo)), tt2);
        lemma_add_assoc(t1, subv(s0, g1), subv(g2, s0));
        lemma_wf_add(subv(s0, g1), subv(g2, s0));
        lemma_wf_add(t1, addv(subv(s0, g1), subv(g2, s0)));
        lemma_lt_le_trans(
            t2,
            addv(addv(t1, subv(s0, g1)), subv(g2, s0)),
            addv(t1, addv(subv(s0, g1), subv(g2, s0))),
        );
        lemma_rate_split(onev(), g2, s0, g1);
        assert(mulv(onev(), subv(g2, g1)) == subv(g2, g1));
        assert(mulv(onev(), subv(g2, s0)) == subv(g2, s0));
        assert(mulv(onev(), subv(s0, g1)) == subv(s0, g1));
        lemma_add_comm(subv(g2, s0), subv(s0, g1));
        lemma_add_congr(t1, addv(subv(s0, g1), subv(g2, s0)), t1, subv(g2, g1));
        lemma_lt_congr(
            t2,
            addv(t1, addv(subv(s0, g1), subv(g2, s0))),
            t2,
            addv(t1, subv(g2, g1)),
        );
    } else {
        let r0 = rates[0];
        let s0 = seps[0];
        let ts = seps.drop_first();
        let tr = rates.drop_first();
        let m0 = mulv(r0, subv(s0, lo));
        let tt1 = tax_above(ts, tr, s0, g1);
        let tt2 = tax_above(ts, tr, s0, g2);
        lemma_frame_tail(seps, rates, lo);
        lemma_rates_tail(rates);
        lemma_tax_lipschitz_strict(ts, tr, s0, g1, g2);
        lemma_tax_wf(ts, tr, s0, g1);
        lemma_tax_wf(ts, tr, s0, g2);
        lemma_wf_sub(s0, lo);
        lemma_wf_mul(r0, subv(s0, lo));
        lemma_wf_add(tt1, subv(g2, g1));
        lemma_add_comm(m0, tt2);
        lemma_add_comm(m0, addv(tt1, subv(g2, g1)));
        lemma_add_lt_mono(m0, m0, tt2, addv(tt1, subv(g2, g1)));
        lemma_wf_add(m0, tt2);
        lemma_wf_add(m0, addv(tt1, subv(g2, g1)));
        lemma_add_assoc(m0, tt1, subv(g2, g1));
        lemma_wf_add(m0, tt1);
        lemma_wf_add(addv(m0, tt1), subv(g2, g1));
        lemma_lt_congr(
            t2,
            addv(m0, addv(tt1, subv(g2, g1))),
            t2,
            addv(addv(m0, tt1), subv(g2, g1)),
        );
    }
}

/// Raising the subtrahend lowers the difference.
pub proof fn lemma_sub_anti(g: RatV, x: RatV, y: RatV)
    by (nonlinear_arith)
    requires
        wfv(g),
        wfv(x),
        wfv(y),
        lev(x, y),
    ensures
        lev(subv(g, y), subv(g, x)),
{
}

/// Strictly raising the subtrahend strictly lowers the difference.
pub proof fn lemma_sub_anti_strict(g: RatV, x: RatV, y: RatV)
    by (nonlinear_arith)
    requires
        wfv(g),
        wfv(x),
        wfv(y),
        ltv(x, y),
    ensures
        ltv(subv(g, y), subv(g, x)),
{
}

/// Subtracting a raised floor from the raised income telescopes back.
pub proof fn lemma_sub_telescope(g1: RatV, g2: RatV, t1: RatV)
    ensures
        eqv(subv(g2, addv(t1, subv(g2, g1))), subv(g1, t1)),
{
    broadcast use vstd::arithmetic::mul::group_mul_is_commutative_and_distributive;
    broadcast use vstd::arithmetic::mul::lemma_mul_is_associative;

    let x = subv(g1, t1);
    let y = subv(g2, addv(t1, subv(g2, g1)));
    let k = g2.d * g2.d;
    assert(y.n == k * x.n);
    assert(y.d == k * x.d);
    lemma_eqv_scaled(x, y, k);
}

/// Net income is monotone in gross income.
pub proof fn lemma_net_mono(seps: Seq<RatV>, rates: Seq<RatV>, g1: RatV, g2: RatV)
    requires
        sched_frame(seps, rates, zerov()),
        rates_below_one(rates),
        wfv(g1),
        wfv(g2),
        lev(g1, g2),
    ensures
        lev(net_of(seps, rates, g1), net_of(seps, rates, g2)),
{
    let t1 = tax_of(seps, rates, g1);
    let t2 = tax_of(seps, rates, g2);
    lemma_tax_lipschitz(seps, rates, zerov(), g1, g2);
    lemma_tax_wf(seps, rates, zerov(), g1);
    lemma_tax_wf(seps, rates, zerov(), g2);
    lemma_wf_sub(g2, g1);
    lemma_wf_add(t1, subv(g2, g1));
    lemma_sub_anti(g2, t2, addv(t1, subv(g2, g1)));
    lemma_sub_telescope(g1, g2, t1);
    lemma_tax_le(seps, rates, zerov(), g1);
    assert(subv(g1, zerov()) == g1);
    lemma_tax_le(seps, rates, zerov(), g2);
    assert(subv(g2, zerov()) == g2);
    lemma_wf_sub(g1, t1);
    lemma_wf_sub(g2, t2);
    lemma_pos_mul_ints(g2.d, g1.d);
    lemma_pos_mul_ints(t1.d, g2.d * g1.d);
    lemma_pos_mul_ints(g2.d, t1.d * (g2.d * g1.d));
    lemma_le_congr(
        subv(g2, addv(t1, subv(g2, g1))),
        subv(g2, t2),
        subv(g1, t1),
        subv(g2, t2),
    );
}

/// Net income is strictly monotone in gross income.
pub proof fn lemma_net_mono_strict(seps: Seq<RatV>, rates: Seq<RatV>, g1: RatV, g2: RatV)
    requires
        sched_frame(seps, rates, zerov()),
        rates_below_one(rates),
        wfv(g1),
        wfv(g2),
        ltv(g1, g2),
    ensures
        ltv(net_of(seps, rates, g1), net_of(seps, rates, g2)),
{
    let t1 = tax_of(seps, rates, g1);
    let t2 = tax_of(seps, rates, g2);
    lemma_tax_lipschitz_strict(seps, rates, zerov(), g1, g2);
    lemma_tax_wf(seps, rates, zerov(), g1);
    lemma_tax_wf(seps, rates, zerov(), g2);
    lemma_wf_sub(g2, g1);
    lemma_wf_add(t1, subv(g2, g1));
    lemma_sub_anti_strict(g2, t2, addv(t1, subv(g2, g1)));
    lemma_sub_telescope(g1, g2, t1);
    lemma_tax_le(seps, rates, zerov(), g1);
    assert(subv(g1, zerov()) == g1);
    lemma_tax_le(seps, rates, zerov(), g2);
    assert(subv(g2, zerov()) == g2);
    lemma_wf_sub(g1, t1);
    lemma_wf_sub(g2, t2);
    lemma_pos_mul_ints(g2.d, g1.d);
    lemma_pos_mul_ints(t1.d, g2.d * g1.d);
    lemma_pos_mul_ints(g2.d, t1.d * (g2.d * g1.d));
    lemma_lt_congr(
        subv(g2, addv(t1, subv(g2, g1))),
        subv(g2, t2),
        subv(g1, t1),
        subv(g2, t2),
    );
}

/// Two gross incomes with the same net income are the same income.
pub proof fn lemma_net_injective(seps: Seq<RatV>, rates: Seq<RatV>, g1: RatV, g2: RatV)
    requires
        sched_frame(seps, rates, zerov()),
        rates_below_one(rates),
        wfv(g1),
        wfv(g2),
        eqv(net_of(seps, rates, g1), net_of(seps, rates, g2)),
    ensures
        eqv(g1, g2),
{
    if ltv(g1, g2) {
        lemma_net_mono_strict(seps, rates, g1, g2);
    } else if ltv(g2, g1) {
        lemma_net_mono_strict(seps, rates, g2, g1);
    }
}

/// Scaling an amount distributes over a sum of rates.
pub proof fn lemma_mul_add_distrib(p: RatV, q: RatV, x: RatV)
    ensures
        eqv(mulv(addv(p, q), x), addv(mulv(p, x), mulv(q, x))),
{
    broadcast use vstd::arithmetic::mul::group_mul_is_commutative_and_distributive;
    broadcast use vstd::arithmetic::mul::lemma_mul_is_associative;

    let l = mulv(addv(p, q), x);
    let r = addv(mulv(p, x), mulv(q, x));
    assert(r.n == x.d * l.n);
    assert(r.d == x.d * l.d);
    lemma_eqv_scaled(l, r, x.d);
}

/// Exchanging the inner summands of a four-way sum changes nothing; the
/// two groupings even agree pair for pair.
pub proof fn lemma_add_exchange(x: RatV, y: RatV, z: RatV, w: RatV)
    ensures
        addv(addv(x, y), addv(z, w)) == addv(addv(x, z), addv(y, w)),
{
    broadcast use vstd::arithmetic::mul::group_mul_is_commutative_and_distributive;
    broadcast use vstd::arithmetic::mul::lemma_mul_is_associative;

    assert(addv(addv(x, y), addv(z, w)).n == addv(addv(x, z), addv(y, w)).n);
    assert(addv(addv(x, y), addv(z, w)).d == addv(addv(x, z), addv(y, w)).d);
}

/// A rate denoting zero charges nothing.
pub proof fn lemma_mul_zero_rate(r: RatV, x: RatV)
    by (nonlinear_arith)
    requires
        eqv(r, zerov()),
    ensures
        eqv(mulv(r, x), zerov()),
{
}

/// Adding an amount that denotes zero on the right changes nothing.
pub proof fn lemma_add_zero_right(a: RatV, z: RatV)
    by (nonlinear_arith)
    requires
        z.d > 0,
        a.d > 0,
        eqv(z, zerov()),
    ensures
        eqv(addv(a, z), a),
{
}

/// The denominator of the tax is positive whatever the order of the
/// amounts involved.
pub proof fn lemma_tax_d_pos(seps: Seq<RatV>, rates: Seq<RatV>, lo: RatV, g: RatV)
    requires
        lo.d > 0,
        g.d > 0,
        all_wf(seps),
        all_wf(rates),
        rates.len() == seps.len() + 1,
    ensures
        tax_above(seps, rates, lo, g).d > 0,
    decreases seps.len(),
{
    if seps.len() == 0 || lev(g, seps[0]) {
        lemma_pos_mul_ints(g.d, lo.d);
        lemma_pos_mul_ints(rates[0].d, g.d * lo.d);
    } else {
        let ts = seps.drop_first();
        let tr = rates.drop_first();
        assert(forall|i: int| 0 <= i < ts.len() ==> ts[i] == seps[i + 1]);
        assert(forall|i: int| 0 <= i < tr.len() ==> tr[i] == rates[i + 1]);
        assert(forall|i: int| 0 <= i < ts.len() ==> wfv(#[trigger] ts[i]));
        assert(forall|i: int| 0 <= i < tr.len() ==> wfv(#[trigger] tr[i]));
        lemma_tax_d_pos(ts, tr, seps[0], g);
        lemma_pos_mul_ints(seps[0].d, lo.d);
        lemma_pos_mul_ints(rates[0].d, seps[0].d * lo.d);
        lemma_pos_mul_ints(
            rates[0].d * (seps[0].d * lo.d),
            tax_above(ts, tr, seps[0], g).d,
        );
    }
}

/// The tax above a floor depends on the floor's value alone.
pub proof fn lemma_tax_floor_congr(seps: Seq<RatV>, rates: Seq<RatV>, lo1: RatV, lo2: RatV, g: RatV)
    requires
        lo1.d > 0,
        lo2.d > 0,
        g.d > 0,
        all_wf(seps),
        all_wf(rates),
        rates.len() == seps.len() + 1,
        eqv(lo1, lo2),
    ensures
        eqv(tax_above(seps, rates, lo1, g), tax_above(seps, rates, lo2, g)),
    decreases seps.len(),
{
    if seps.len() == 0 || lev(g, seps[0]) {
        lemma_pos_mul_ints(g.d, lo1.d);
        lemma_pos_mul_ints(g.d, lo2.d);
        lemma_sub_congr(g, lo1, g, lo2);
        lemma_mul_congr(rates[0], subv(g, lo1), rates[0], subv(g, lo2));
    } else {
        let ts = seps.drop_first();
        let tr = rates.drop_first();
        assert(forall|i: int| 0 <= i < ts.len() ==> ts[i] == seps[i + 1]);
        assert(forall|i: int| 0 <= i < tr.len() ==> tr[i] == rates[i + 1]);
        assert(forall|i: int| 0 <= i < ts.len() ==> wfv(#[trigger] ts[i]));
        assert(forall|i: int| 0 <= i < tr.len() ==> wfv(#[trigger] tr[i]));
        lemma_pos_mul_ints(seps[0].d, lo1.d);
        lemma_pos_mul_ints(seps[0].d, lo2.d);
        lemma_pos_mul_ints(rates[0].d, seps[0].d * lo1.d);
        lemma_pos_mul_ints(rates[0].d, seps[0].d * lo2.d);
        lemma_tax_d_pos(ts, tr, seps[0], g);
        lemma_sub_congr(seps[0], lo1, seps[0], lo2);
        lemma_mul_congr(rates[0], subv(seps[0], lo1), rates[0], subv(seps[0], lo2));
        lemma_add_congr(
            mulv(rates[0], subv(seps[0], lo1)),
            tax_above(ts, tr, seps[0], g),
            mulv(rates[0], subv(seps[0], lo2)),
            tax_above(ts, tr, seps[0], g),
        );
    }
}

/// The merge of two schedules: the sorted union of their separators, and
/// in every stretch between boundaries the sum of the two marginal rates
/// in force there.
pub open spec fn merge_spec(
    aseps: Seq<RatV>,
    arates: Seq<RatV>,
    bseps: Seq<RatV>,
    brates: Seq<RatV>,
) -> (Seq<RatV>, Seq<RatV>)
    decreases aseps.len() + bseps.len(),
{
    if aseps.len() == 0 && bseps.len() == 0 {
        (Seq::<RatV>::empty(), seq![addv(arates[0], brates[0])])
    } else if bseps.len() == 0 || (aseps.len() > 0 && ltv(aseps[0], bseps[0])) {
        let rest = merge_spec(aseps.drop_first(), arates.drop_first(), bseps, brates);
        (seq![aseps[0]] + rest.0, seq![addv(arates[0], brates[0])] + rest.1)
    } else if aseps.len() == 0 || ltv(bseps[0], aseps[0]) {
        let rest = merge_spec(aseps, arates, bseps.drop_first(), brates.drop_first());
        (seq![bseps[0]] + rest.0, seq![addv(arates[0], brates[0])] + rest.1)
    } else {
        let rest = merge_spec(
            aseps.drop_first(),
            arates.drop_first(),
            bseps.drop_first(),
            brates.drop_first(),
        );
        (seq![aseps[0]] + rest.0, seq![addv(arates[0], brates[0])] + rest.1)
    }
}

/// The merged pair is again a valid schedule over the same floor, its
/// base rate is the sum of the base rates, and its first separator comes
/// from one of the inputs.
pub proof fn lemma_merge_frame(
    aseps: Seq<RatV>,
    arates: Seq<RatV>,
    bseps: Seq<RatV>,
    brates: Seq<RatV>,
    lo: RatV,
)
    requires
        sched_frame(aseps, arates, lo),
        sched_frame(bseps, brates, lo),
    ensures
        sched_frame(
            merge_spec(aseps, arates, bseps, brates).0,
            merge_spec(aseps, arates, bseps, brates).1,
            lo,
        ),
        merge_spec(aseps, arates, bseps, brates).1[0] == addv(arates[0], brates[0]),
        merge_spec(aseps, arates, bseps, brates).0.len() > 0 ==> ((aseps.len() > 0
            && merge_spec(aseps, arates, bseps, brates).0[0] == aseps[0]) || (bseps.len() > 0
            && merge_spec(aseps, arates, bseps, brates).0[0] == bseps[0])),
    decreases aseps.len() + bseps.len(),
{
    let ms = merge_spec(aseps, arates, bseps, brates).0;
    let mr = merge_spec(aseps, arates, bseps, brates).1;
    if aseps.len() == 0 && bseps.len() == 0 {
        lemma_wf_add(arates[0], brates[0]);
        assert(mr == seq![addv(arates[0], brates[0])]);
        assert(all_wf(ms));
        assert(all_wf(mr));
    } else if bseps.len() == 0 || (aseps.len() > 0 && ltv(aseps[0], bseps[0])) {
        let h = aseps[0];
        lemma_frame_tail(aseps, arates, lo);
        if bseps.len() > 0 {
            assert(sched_frame(bseps, brates, h));
        }
        lemma_merge_frame(aseps.drop_first(), arates.drop_first(), bseps, brates, h);
        let rest = merge_spec(aseps.drop_first(), arates.drop_first(), bseps, brates);
        assert(ms == seq![h] + rest.0);
        assert(mr == seq![addv(arates[0], brates[0])] + rest.1);
        assert(ms[0] == h);
        assert(forall|i: int| 1 <= i < ms.len() ==> ms[i] == rest.0[i - 1]);
        assert(forall|i: int| 1 <= i < mr.len() ==> mr[i] == rest.1[i - 1]);
        lemma_wf_add(arates[0], brates[0]);
        assert(forall|i: int| 0 <= i < ms.len() ==> wfv(#[trigger] ms[i]));
        assert(forall|i: int| 0 <= i < mr.len() ==> wfv(#[trigger] mr[i]));
        if rest.0.len() > 0 {
            if aseps.drop_first().len() > 0 && rest.0[0] == aseps.drop_first()[0] {
                assert(ltv(h, rest.0[0]));
            } else {
                assert(rest.0[0] == bseps[0]);
                assert(ltv(h, rest.0[0]));
            }
        }
        assert(forall|i: int| 1 <= i < ms.len() ==> ltv(ms[i - 1], #[trigger] ms[i]));
    } else if aseps.len() == 0 || ltv(bseps[0], aseps[0]) {
        let h = bseps[0];
        lemma_frame_tail(bseps, brates, lo);
        if aseps.len() > 0 {
            assert(sched_frame(aseps, arates, h));
        }
        lemma_merge_frame(aseps, arates, bseps.drop_first(), brates.drop_first(), h);
        let rest = merge_spec(aseps, arates, bseps.drop_first(), brates.drop_first());
        assert(ms == seq![h] + rest.0);
        assert(mr == seq![addv(arates[0], brates[0])] + rest.1);
        assert(ms[0] == h);
        assert(forall|i: int| 1 <= i < ms.len() ==> ms[i] == rest.0[i - 1]);
        assert(forall|i: int| 1 <= i < mr.len() ==> mr[i] == rest.1[i - 1]);
        lemma_wf_add(arates[0], brates[0]);
        assert(forall|i: int| 0 <= i < ms.len() ==> wfv(#[trigger] ms[i]));
        assert(forall|i: int| 0 <= i < mr.len() ==> wfv(#[trigger] mr[i]));
        if rest.0.len() > 0 {
            if bseps.drop_first().len() > 0 && rest.0[0] == bseps.drop_first()[0] {
                assert(ltv(h, rest.0[0]));
            } else {
                assert(rest.0[0] == aseps[0]);
                assert(ltv(h, rest.0[0]));
            }
        }
        assert(forall|i: int| 1 <= i < ms.len() ==> ltv(ms[i - 1], #[trigger] ms[i]));
    } else {
        let h = aseps[0];
        lemma_frame_tail(aseps, arates, lo);
        lemma_frame_tail(bseps, brates, lo);
        // the two heads denote the same boundary, so either floor serves
        assert(eqv(aseps[0], bseps[0]));
        let ts = bseps.drop_first();
        if ts.len() > 0 {
            lemma_lt_congr(bseps[0], ts[0], h, ts[0]);
        }
        assert(sched_frame(ts, brates.drop_first(), h));
        lemma_merge_frame(aseps.drop_first(), arates.drop_first(), ts, brates.drop_first(), h);
        let rest = merge_spec(aseps.drop_first(), arates.drop_first(), ts, brates.drop_first());
        assert(ms == seq![h] + rest.0);
        assert(mr == seq![addv(arates[0], brates[0])] + rest.1);
        assert(ms[0] == h);
        assert(forall|i: int| 1 <= i < ms.len() ==> ms[i] == rest.0[i - 1]);
        assert(forall|i: int| 1 <= i < mr.len() ==> mr[i] == rest.1[i - 1]);
        lemma_wf_add(arates[0], brates[0]);
        assert(forall|i: int| 0 <= i < ms.len() ==> wfv(#[trigger] ms[i]));
        assert(forall|i: int| 0 <= i < mr.len() ==> wfv(#[trigger] mr[i]));
        if rest.0.len() > 0 {
            if aseps.drop_first().len() > 0 && rest.0[0] == aseps.drop_first()[0] {
                assert(ltv(h, rest.0[0]));
            } else {
                assert(rest.0[0] == ts[0]);
                assert(ltv(h, rest.0[0]));
            }
        }
        assert(forall|i: int| 1 <= i < ms.len() ==> ltv(ms[i - 1], #[trigger] ms[i]));
    }
}

/// Merging two schedules adds their taxes: at every income, the merged
/// schedule charges exactly the sum of what the two inputs charge.
pub proof fn lemma_merge_additive(
    aseps: Seq<RatV>,
    arates: Seq<RatV>,
    bseps: Seq<RatV>,
    brates: Seq<RatV>,
    lo: RatV,
    g: RatV,
)
    requires
        sched_frame(aseps, arates, lo),
        sched_frame(bseps, brates, lo),
        wfv(g),
        lev(lo, g),
    ensures
        eqv(
            tax_above(
                merge_spec(aseps, arates, bseps, brates).0,
                merge_spec(aseps, arates, bseps, brates).1,
                lo,
                g,
            ),
            addv(tax_above(aseps, arates, lo, g), tax_above(bseps, brates, lo, g)),
        ),
    decreases aseps.len() + bseps.len(),
{
    let ms = merge_spec(aseps, arates, bseps, brates).0;
    let mr = merge_spec(aseps, arates, bseps, brates).1;
    let ta = tax_above(aseps, arates, lo, g);
    let tb = tax_above(bseps, brates, lo, g);
    let tm = tax_above(ms, mr, lo, g);
    lemma_tax_wf(aseps, arates, lo, g);
    lemma_tax_wf(bseps, brates, lo, g);
    lemma_merge_frame(aseps, arates, bseps, brates, lo);
    lemma_tax_wf(ms, mr, lo, g);
    lemma_wf_sub(g, lo);
    lemma_wf_add(ta, tb);
    if aseps.len() == 0 && bseps.len() == 0 {
        lemma_mul_add_distrib(arates[0], brates[0], subv(g, lo));
    } else if bseps.len() == 0 || (aseps.len() > 0 && ltv(aseps[0], bseps[0])) {
        let h = aseps[0];
        let rest = merge_spec(aseps.drop_first(), arates.drop_first(), bseps, brates);
        assert(ms == seq![h] + rest.0);
        assert(mr == seq![addv(arates[0], brates[0])] + rest.1);
        assert(ms[0] == h);
        assert(ms.drop_first() =~= rest.0);
        assert(mr.drop_first() =~= rest.1);
        if lev(g, h) {
            if bseps.len() > 0 {
                lemma_le_lt_trans(g, h, bseps[0]);
            }
            lemma_mul_add_distrib(arates[0], brates[0], subv(g, lo));
        } else {
            let x = mulv(arates[0], subv(h, lo));
            let y = mulv(brates[0], subv(h, lo));
            let mw = mulv(addv(arates[0], brates[0]), subv(h, lo));
            let ta2 = tax_above(aseps.drop_first(), arates.drop_first(), h, g);
            let tb2 = tax_above(bseps, brates, h, g);
            let tm2 = tax_above(rest.0, rest.1, h, g);
            lemma_frame_tail(aseps, arates, lo);
            assert(sched_frame(bseps, brates, h));
            lemma_merge_additive(aseps.drop_first(), arates.drop_first(), bseps, brates, h, g);
            lemma_tax_split(bseps, brates, lo, h, g);
            lemma_mul_add_distrib(arates[0], brates[0], subv(h, lo));
            // well-formedness of every part of the chain
            lemma_wf_sub(h, lo);
            lemma_wf_mul(arates[0], subv(h, lo));
            lemma_wf_mul(brates[0], subv(h, lo));
            lemma_wf_add(arates[0], brates[0]);
            lemma_wf_mul(addv(arates[0], brates[0]), subv(h, lo));
            lemma_tax_wf(aseps.drop_first(), arates.drop_first(), h, g);
            lemma_tax_wf(bseps, brates, h, g);
            lemma_merge_frame(aseps.drop_first(), arates.drop_first(), bseps, brates, h);
            lemma_tax_wf(rest.0, rest.1, h, g);
            lemma_wf_add(x, y);
            lemma_wf_add(ta2, tb2);
            lemma_wf_add(addv(x, y), addv(ta2, tb2));
            lemma_wf_add(x, ta2);
            lemma_wf_add(y, tb2);
            lemma_wf_add(ta, addv(y, tb2));
            lemma_wf_add(mw, tm2);
            // the merged tax, re-grouped summand by summand
            assert(tm == addv(mw, tm2));
            lemma_add_congr(mw, tm2, addv(x, y), addv(ta2, tb2));
            lemma_add_exchange(x, y, ta2, tb2);
            assert(ta == addv(x, ta2));
            lemma_eqv_trans(tm, addv(addv(x, y), addv(ta2, tb2)), addv(ta, addv(y, tb2)));
            lemma_add_congr(ta, addv(y, tb2), ta, tb);
            lemma_eqv_trans(tm, addv(ta, addv(y, tb2)), addv(ta, tb));
        }
    } else if aseps.len() == 0 || ltv(bseps[0], aseps[0]) {
        let h = bseps[0];
        let rest = merge_spec(aseps, arates, bseps.drop_first(), brates.drop_first());
        assert(ms == seq![h] + rest.0);
        assert(mr == seq![addv(arates[0], brates[0])] + rest.1);
        assert(ms[0] == h);
        assert(ms.drop_first() =~= rest.0);
        assert(mr.drop_first() =~= rest.1);
        if lev(g, h) {
            if aseps.len() > 0 {
                lemma_le_lt_trans(g, h, aseps[0]);
            }
            lemma_mul_add_distrib(arates[0], brates[0], subv(g, lo));
        } else {
            let x = mulv(arates[0], subv(h, lo));
            let y = mulv(brates[0], subv(h, lo));
            let mw = mulv(addv(arates[0], brates[0]), subv(h, lo));
            let ta2 = tax_above(aseps, arates, h, g);
            let tb2 = tax_above(bseps.drop_first(), brates.drop_first(), h, g);
            let tm2 = tax_above(rest.0, rest.1, h, g);
            lemma_frame_tail(bseps, brates, lo);
            assert(sched_frame(aseps, arates, h));
            lemma_merge_additive(aseps, arates, bseps.drop_first(), brates.drop_first(), h, g);
            lemma_tax_split(aseps, arates, lo, h, g);
            lemma_mul_add_distrib(arates[0], brates[0], subv(h, lo));
            lemma_wf_sub(h, lo);
            lemma_wf_mul(arates[0], subv(h, lo));
            lemma_wf_mul(brates[0], subv(h, lo));
            lemma_wf_add(arates[0], brates[0]);
            lemma_wf_mul(addv(arates[0], brates[0]), subv(h, lo));
            lemma_tax_wf(aseps, arates, h, g);
            lemma_tax_wf(bseps.drop_first(), brates.drop_first(), h, g);
            lemma_merge_frame(aseps, arates, bseps.drop_first(), brates.drop_first(), h);
            lemma_tax_wf(rest.0, rest.1, h, g);
            lemma_wf_add(x, y);
            lemma_wf_add(ta2, tb2);
            lemma_wf_add(addv(x, y), addv(ta2, tb2));
            lemma_wf_add(x, ta2);
            lemma_wf_add(y, tb2);
            lemma_wf_add(addv(x, ta2), tb);
            lemma_wf_add(mw, tm2);
            assert(tm == addv(mw, tm2));
            assert(tb == addv(y, tb2));
            lemma_add_congr(mw, tm2, addv(x, y), addv(ta2, tb2));
            lemma_add_exchange(x, y, ta2, tb2);
            lemma_eqv_trans(tm, addv(addv(x, y), addv(ta2, tb2)), addv(addv(x, ta2), tb));
            lemma_add_congr(addv(x, ta2), tb, ta, tb);
            lemma_eqv_trans(tm, addv(addv(x, ta2), tb), addv(ta, tb));
        }
    } else {
        let h = aseps[0];
        let b0 = bseps[0];
        assert(eqv(h, b0));
        let rest = merge_spec(
            aseps.drop_first(),
            arates.drop_first(),
            bseps.drop_first(),
            brates.drop_first(),
        );
        assert(ms == seq![h] + rest.0);
        assert(mr == seq![addv(arates[0], brates[0])] + rest.1);
        assert(ms[0] == h);
        assert(ms.drop_first() =~= rest.0);
        assert(mr.drop_first() =~= rest.1);
        lemma_frame_tail(aseps, arates, lo);
        lemma_frame_tail(bseps, brates, lo);
        if bseps.drop_first().len() > 0 {
            lemma_lt_congr(b0, bseps.drop_first()[0], h, bseps.drop_first()[0]);
        }
        assert(sched_frame(bseps.drop_first(), brates.drop_first(), h));
        if lev(g, h) {
            lemma_le_congr(g, h, g, b0);
            lemma_mul_add_distrib(arates[0], brates[0], subv(g, lo));
        } else {
            lemma_lt_congr(h, g, b0, g);
            let x = mulv(arates[0], subv(h, lo));
            let y = mulv(brates[0], subv(h, lo));
            let yb = mulv(brates[0], subv(b0, lo));
            let mw = mulv(addv(arates[0], brates[0]), subv(h, lo));
            let ta2 = tax_above(aseps.drop_first(), arates.drop_first(), h, g);
            let tb2 = tax_above(bseps.drop_first(), brates.drop_first(), h, g);
            let tb2b = tax_above(bseps.drop_first(), brates.drop_first(), b0, g);
            let tm2 = tax_above(rest.0, rest.1, h, g);
            lemma_merge_additive(
                aseps.drop_first(),
                arates.drop_first(),
                bseps.drop_first(),
                brates.drop_first(),
                h,
                g,
            );
            lemma_mul_add_distrib(arates[0], brates[0], subv(h, lo));
            lemma_wf_sub(h, lo);
            lemma_wf_sub(b0, lo);
            lemma_wf_mul(arates[0], subv(h, lo));
            lemma_wf_mul(brates[0], subv(h, lo));
            lemma_wf_mul(brates[0], subv(b0, lo));
            lemma_wf_add(arates[0], brates[0]);
            lemma_wf_mul(addv(arates[0], brates[0]), subv(h, lo));
            lemma_tax_wf(aseps.drop_first(), arates.drop_first(), h, g);
            lemma_tax_wf(bseps.drop_first(), brates.drop_first(), h, g);
            lemma_tax_wf(bseps.drop_first(), brates.drop_first(), b0, g);
            lemma_merge_frame(
                aseps.drop_first(),
                arates.drop_first(),
                bseps.drop_first(),
                brates.drop_first(),
                h,
            );
            lemma_tax_wf(rest.0, rest.1, h, g);
            lemma_wf_add(x, y);
            lemma_wf_add(ta2, tb2);
            lemma_wf_add(addv(x, y), addv(ta2, tb2));
            lemma_wf_add(x, ta2);
            lemma_wf_add(y, tb2);
            lemma_wf_add(yb, tb2b);
            lemma_wf_add(ta, addv(y, tb2));
            lemma_wf_add(mw, tm2);
            assert(tm == addv(mw, tm2));
            assert(ta == addv(x, ta2));
            assert(tb == addv(yb, tb2b));
            lemma_add_congr(mw, tm2, addv(x, y), addv(ta2, tb2));
            lemma_add_exchange(x, y, ta2, tb2);
            lemma_eqv_trans(tm, addv(addv(x, y), addv(ta2, tb2)), addv(ta, addv(y, tb2)));
            // the second summand is b's own head charge and tail, seen
            // through the shared boundary value
            lemma_sub_congr(h, lo, b0, lo);
            lemma_mul_congr(brates[0], subv(h, lo), brates[0], subv(b0, lo));
            lemma_tax_floor_congr(bseps.drop_first(), brates.drop_first(), h, b0, g);
            lemma_add_congr(y, tb2, yb, tb2b);
            lemma_add_congr(ta, addv(y, tb2), ta, addv(yb, tb2b));
            lemma_eqv_trans(tm, addv(ta, addv(y, tb2)), addv(ta, tb));
        }
    }
}

/// A positive amount divided by a positive amount is positive.
pub proof fn lemma_div_pos(a: RatV, b: RatV)
    by (nonlinear_arith)
    requires
        wfv(a),
        wfv(b),
        ltv(zerov(), a),
        ltv(zerov(), b),
    ensures
        wfv(divv(a, b)),
        ltv(zerov(), divv(a, b)),
{
}

/// Division respects equality of values in both arguments.
pub proof fn lemma_div_congr(a: RatV, b: RatV, a2: RatV, b2: RatV)
    by (nonlinear_arith)
    requires
        a.d > 0,
        b.d > 0,
        a2.d > 0,
        b2.d > 0,
        eqv(a, a2),
        eqv(b, b2),
    ensures
        eqv(divv(a, b), divv(a2, b2)),
{
}

/// Adding a strictly positive amount strictly raises a value.
pub proof fn lemma_lt_add_pos(a: RatV, t: RatV)
    by (nonlinear_arith)
    requires
        wfv(a),
        t.d > 0,
        ltv(zerov(), t),
    ensures
        ltv(a, addv(a, t)),
{
}

/// A value lies in at most one bracket of a sorted separator list:
/// with the existence the bracket search establishes, the totality
/// guarantee of the range decomposition.
pub proof fn lemma_bracket_unique(seps: Seq<RatV>, g: RatV, k1: int, k2: int)
    requires
        all_wf(seps),
        sorted_strict(seps),
        wfv(g),
        0 <= k1 <= seps.len(),
        0 <= k2 <= seps.len(),
        in_bracket(seps, k1, g),
        in_bracket(seps, k2, g),
    ensures
        k1 == k2,
{
    if k1 < k2 {
        if k1 < k2 - 1 {
            lemma_sorted_pairwise(seps, k1, k2 - 1);
        }
        lemma_lt_le_trans(seps[k2 - 1], g, seps[k1]);
    } else if k2 < k1 {
        if k2 < k1 - 1 {
            lemma_sorted_pairwise(seps, k2, k1 - 1);
        }
        lemma_lt_le_trans(seps[k1 - 1], g, seps[k2]);
    }
}

/// Removing a rate's share leaves the complementary rate's share.
pub proof fn lemma_sub_of_mul_self(r: RatV, x: RatV)
    ensures
        eqv(subv(x, mulv(r, x)), mulv(subv(onev(), r), x)),
{
    let l = mulv(subv(onev(), r), x);
    let y = subv(x, mulv(r, x));
    let k = x.d;
    lemma_sub_of_mul_self_num(r.n, r.d, x.n, x.d);
    lemma_eqv_scaled(l, y, k);
}

/// The numerator of the complementary-rate share, scaled.
proof fn lemma_sub_of_mul_self_num(rn: int, rd: int, xn: int, xd: int)
    by (nonlinear_arith)
    ensures
        xn * (rd * xd) - (rn * xn) * xd == xd * ((1 * rd - rn * 1) * xn),
        xd * (rd * xd) == xd * ((1 * rd) * xd),
{
}

/// Dividing and multiplying back by the same amount returns the value.
pub proof fn lemma_mul_div_cancel(a: RatV, b: RatV)
    ensures
        eqv(mulv(divv(a, b), b), a),
{
    broadcast use vstd::arithmetic::mul::group_mul_is_commutative_and_distributive;
    broadcast use vstd::arithmetic::mul::lemma_mul_is_associative;

    let y = mulv(divv(a, b), b);
    let k = b.d * b.n;
    assert(y.n == k * a.n);
    assert(y.d == k * a.d);
    lemma_eqv_scaled(a, y, k);
}

/// Dividing a product by one factor returns the other.
pub proof fn lemma_div_of_mul(x: RatV, w: RatV)
    ensures
        eqv(divv(mulv(x, w), w), x),
{
    broadcast use vstd::arithmetic::mul::group_mul_is_commutative_and_distributive;
    broadcast use vstd::arithmetic::mul::lemma_mul_is_associative;

    let y = divv(mulv(x, w), w);
    let k = w.n * w.d;
    assert(y.n == k * x.n);
    assert(y.d == k * x.d);
    lemma_eqv_scaled(x, y, k);
}

/// Adding back what was subtracted returns the value.
pub proof fn lemma_sub_add_cancel(a: RatV, b: RatV)
    ensures
        eqv(addv(a, subv(b, a)), b),
{
    broadcast use vstd::arithmetic::mul::group_mul_is_commutative_and_distributive;
    broadcast use vstd::arithmetic::mul::lemma_mul_is_associative;

    let y = addv(a, subv(b, a));
    let k = a.d * a.d;
    assert(y.n == k * b.n);
    assert(y.d == k * b.d);
    lemma_eqv_scaled(b, y, k);
}

/// Subtracting back what was added returns the value.
pub proof fn lemma_add_sub_cancel(a: RatV, b: RatV)
    ensures
        eqv(subv(addv(a, b), a), b),
{
    broadcast use vstd::arithmetic::mul::group_mul_is_commutative_and_distributive;
    broadcast use vstd::arithmetic::mul::lemma_mul_is_associative;

    let y = subv(addv(a, b), a);
    let k = a.d * a.d;
    assert(y.n == k * b.n);
    assert(y.d == k * b.d);
    lemma_eqv_scaled(b, y, k);
}

/// Division by a positive amount preserves order.
pub proof fn lemma_div_le_mono(a: RatV, a2: RatV, b: RatV)
    by (nonlinear_arith)
    requires
        wfv(a),
        wfv(a2),
        wfv(b),
        ltv(zerov(), b),
        lev(a, a2),
    ensures
        lev(divv(a, b), divv(a2, b)),
{
}

/// Rotating the last factor into the middle changes nothing.
proof fn lemma_mul_shuffle(x: int, y: int, z: int)
    ensures
        (x * y) * z == (x * z) * y,
{
    vstd::arithmetic::mul::lemma_mul_is_associative(x, y, z);
    vstd::arithmetic::mul::lemma_mul_is_commutative(y, z);
    vstd::arithmetic::mul::lemma_mul_is_associative(x, z, y);
}

/// Subtracting a sum is subtracting one part and then the other.
pub proof fn lemma_sub_add_assoc(a: RatV, b: RatV, c: RatV)
    ensures
        subv(a, addv(b, c)) == subv(subv(a, b), c),
{
    lemma_sub_add_assoc_comps(a.n, a.d, b.n, b.d, c.n, c.d);
}

/// The components of the regrouped sum coincide.
proof fn lemma_sub_add_assoc_comps(an: int, ad: int, bn: int, bd: int, cn: int, cd: int)
    ensures
        an * (bd * cd) - (bn * cd + cn * bd) * ad == (an * bd - bn * ad) * cd - cn * (ad * bd),
        ad * (bd * cd) == (ad * bd) * cd,
{
    broadcast use vstd::arithmetic::mul::lemma_mul_is_distributive_add_other_way;
    broadcast use vstd::arithmetic::mul::lemma_mul_is_distributive_sub_other_way;
    broadcast use vstd::arithmetic::mul::lemma_mul_is_commutative;
    broadcast use vstd::arithmetic::mul::lemma_mul_is_associative;

}

/// A subtraction slides off the left summand of a sum.
pub proof fn lemma_sub_add_exchange(a: RatV, b: RatV, c: RatV)
    ensures
        subv(addv(a, b), c) == addv(subv(a, c), b),
{
    lemma_sub_add_exchange_comps(a.n, a.d, b.n, b.d, c.n, c.d);
}

/// The components of the regrouped sum coincide.
proof fn lemma_sub_add_exchange_comps(an: int, ad: int, bn: int, bd: int, cn: int, cd: int)
    ensures
        (an * bd + bn * ad) * cd - cn * (ad * bd) == (an * cd - cn * ad) * bd + bn * (ad * cd),
        (ad * bd) * cd == (ad * cd) * bd,
{
    broadcast use vstd::arithmetic::mul::lemma_mul_is_distributive_add_other_way;
    broadcast use vstd::arithmetic::mul::lemma_mul_is_distributive_sub_other_way;
    broadcast use vstd::arithmetic::mul::lemma_mul_is_commutative;
    broadcast use vstd::arithmetic::mul::lemma_mul_is_associative;

}

/// A subtraction slides onto the right summand of a sum.
pub proof fn lemma_sub_from_right(a: RatV, b: RatV, c: RatV)
    ensures
        subv(addv(a, b), c) == addv(a, subv(b, c)),
{
    lemma_sub_from_right_comps(a.n, a.d, b.n, b.d, c.n, c.d);
}

/// The components of the regrouped sum coincide.
proof fn lemma_sub_from_right_comps(an: int, ad: int, bn: int, bd: int, cn: int, cd: int)
    ensures
        (an * bd + bn * ad) * cd - cn * (ad * bd) == an * (bd * cd) + (bn * cd - cn * bd) * ad,
        (ad * bd) * cd == ad * (bd * cd),
{
    broadcast use vstd::arithmetic::mul::lemma_mul_is_distributive_add_other_way;
    broadcast use vstd::arithmetic::mul::lemma_mul_is_distributive_sub_other_way;
    broadcast use vstd::arithmetic::mul::lemma_mul_is_commutative;
    broadcast use vstd::arithmetic::mul::lemma_mul_is_associative;

}

/// Differences of differences regroup: the same four amounts, the same
/// pair.
pub proof fn lemma_sub_sub_swap(a: RatV, f2: RatV, b: RatV, f1: RatV)
    ensures
        eqv(subv(subv(a, f2), subv(b, f1)), subv(subv(a, b), subv(f2, f1))),
{
    lemma_sub_sub_swap_num(a.n, a.d, f2.n, f2.d, b.n, b.d, f1.n, f1.d);
}

/// The components of the regrouped double difference coincide.
proof fn lemma_sub_sub_swap_num(
    an: int,
    ad: int,
    f2n: int,
    f2d: int,
    bn: int,
    bd: int,
    f1n: int,
    f1d: int,
)
    ensures
        (an * f2d - f2n * ad) * (bd * f1d) - (bn * f1d - f1n * bd) * (ad * f2d) == (an * bd - bn
            * ad) * (f2d * f1d) - (f2n * f1d - f1n * f2d) * (ad * bd),
        (ad * f2d) * (bd * f1d) == (ad * bd) * (f2d * f1d),
{
    broadcast use vstd::arithmetic::mul::lemma_mul_is_distributive_sub_other_way;
    broadcast use vstd::arithmetic::mul::lemma_mul_is_commutative;
    broadcast use vstd::arithmetic::mul::lemma_mul_is_associative;

}

/// Correctness of the bracket inversion: when the pieces of the inverse
/// computation stand in the stated relations to bracket `k` of the
/// schedule, the computed gross income nets back to `nv` exactly.
pub proof fn lemma_invert_at_bracket(
    sv: Seq<RatV>,
    rv: Seq<RatV>,
    k: int,
    nv: RatV,
    fk: RatV,
    fk1: RatV,
    prev: RatV,
    w: RatV,
    ov: RatV,
    gross: RatV,
)
    requires
        sched_frame(sv, rv, zerov()),
        rates_below_one(rv),
        0 <= k < rv.len(),
        wfv(nv),
        wfv(fk),
        wfv(prev),
        k == 0 ==> eqv(fk, zerov()) && prev == zerov(),
        k >= 1 ==> eqv(fk, tax_of(sv, rv, sv[k - 1])) && prev == subv(sv[k - 1], fk) && ltv(
            prev,
            nv,
        ),
        k < sv.len() ==> wfv(fk1) && eqv(fk1, tax_of(sv, rv, sv[k])) && lev(
            nv,
            subv(sv[k], fk1),
        ),
        lev(prev, nv),
        w == subv(onev(), rv[k]),
        ov == subv(nv, prev),
        gross == addv(addv(fk, prev), divv(ov, w)),
    ensures
        eqv(net_of(sv, rv, gross), nv),
        wfv(gross),
{
    let floor = bracket_floor(sv, zerov(), k);
    let q = divv(ov, w);
    let rk = rv[k];
    // the complementary rate is positive, every piece well formed
    assert(wfv(floor));
    assert(ltv(zerov(), w));
    assert(wfv(w));
    lemma_wf_sub(nv, prev);
    lemma_wf_div(ov, w);
    lemma_wf_add(fk, prev);
    lemma_wf_add(addv(fk, prev), q);
    assert(wfv(gross));
    lemma_tax_wf(sv, rv, zerov(), floor);
    let t0 = tax_above(sv, rv, zerov(), floor);
    // the head of the computed sum is the bracket floor
    if k == 0 {
        lemma_add_zero_right(fk, prev);
        lemma_eqv_trans(addv(fk, prev), fk, zerov());
    } else {
        lemma_sub_add_cancel(fk, sv[k - 1]);
    }
    assert(eqv(addv(fk, prev), floor));
    lemma_add_congr(addv(fk, prev), q, floor, q);
    lemma_wf_add(floor, q);
    assert(eqv(gross, addv(floor, q)));
    // the stored deduction is the tax at the floor
    if k == 0 {
        lemma_tax_zero(sv, rv, zerov());
        lemma_eqv_trans(fk, zerov(), t0);
    }
    assert(eqv(fk, t0));
    // prev denotes floor minus the tax at the floor
    lemma_pos_mul_ints(floor.d, fk.d);
    if k == 0 {
        assert(eqv(prev, subv(floor, fk)));
    } else {
        assert(eqv(prev, subv(floor, fk)));
    }
    // membership: the gross lies in bracket k
    if k >= 1 {
        lemma_sub_pos(prev, nv);
        lemma_div_pos(ov, w);
        lemma_lt_add_pos(floor, q);
        lemma_lt_congr(floor, addv(floor, q), floor, gross);
    }
    if k < sv.len() {
        let x = subv(sv[k], floor);
        lemma_wf_sub(nv, prev);
        // the tax at the closing separator, in closed form
        assert(in_bracket(sv, k, sv[k]));
        lemma_tax_at_bracket(sv, rv, zerov(), k, sv[k]);
        let m = mulv(rk, subv(sv[k], floor));
        lemma_tax_wf(sv, rv, zerov(), sv[k]);
        lemma_wf_sub(sv[k], floor);
        lemma_wf_mul(rk, x);
        lemma_wf_add(t0, m);
        lemma_eqv_trans(fk1, tax_of(sv, rv, sv[k]), addv(t0, m));
        // the width of bracket k in net terms is the width scaled by w
        let d = subv(subv(sv[k], fk1), prev);
        lemma_pos_mul_ints(sv[k].d, fk1.d);
        lemma_pos_mul_ints(sv[k].d * fk1.d, prev.d);
        lemma_sub_congr(subv(sv[k], fk1), prev, subv(sv[k], fk1), subv(floor, fk));
        lemma_sub_sub_swap(sv[k], fk1, floor, fk);
        lemma_pos_mul_ints(sv[k].d * fk1.d, floor.d * fk.d);
        lemma_pos_mul_ints(fk1.d, fk.d);
        lemma_pos_mul_ints(sv[k].d * floor.d, fk1.d * fk.d);
        lemma_eqv_trans(
            d,
            subv(subv(sv[k], fk1), subv(floor, fk)),
            subv(x, subv(fk1, fk)),
        );
        lemma_sub_congr(fk1, fk, addv(t0, m), t0);
        lemma_add_sub_cancel(t0, m);
        lemma_pos_mul_ints(t0.d, m.d);
        lemma_pos_mul_ints(t0.d * m.d, t0.d);
        lemma_eqv_trans(subv(fk1, fk), subv(addv(t0, m), t0), m);
        lemma_sub_congr(x, subv(fk1, fk), x, m);
        lemma_sub_of_mul_self(rk, x);
        lemma_pos_mul_ints(x.d, m.d);
        lemma_pos_mul_ints(x.d, rk.d * x.d);
        lemma_wf_mul(w, x);
        lemma_pos_mul_ints(x.d, fk1.d * fk.d);
        lemma_eqv_trans(d, subv(x, subv(fk1, fk)), subv(x, m));
        lemma_eqv_trans(d, subv(x, m), mulv(w, x));
        // the excess over the floor fits in the bracket
        lemma_tax_le(sv, rv, zerov(), sv[k]);
        assert(subv(sv[k], zerov()) == sv[k]);
        lemma_le_congr(tax_of(sv, rv, sv[k]), sv[k], fk1, sv[k]);
        lemma_wf_sub(sv[k], fk1);
        lemma_le_trans(prev, nv, subv(sv[k], fk1));
        lemma_wf_sub(subv(sv[k], fk1), prev);
        lemma_sub_le_mono(prev, nv, subv(sv[k], fk1));
        lemma_div_le_mono(ov, d, w);
        lemma_div_congr(d, w, mulv(w, x), w);
        lemma_mul_comm(w, x);
        lemma_div_of_mul(x, w);
        lemma_wf_div(d, w);
        lemma_pos_mul_ints(mulv(w, x).d, w.n);
        lemma_le_congr(q, divv(d, w), q, divv(mulv(w, x), w));
        lemma_le_congr(q, divv(mulv(w, x), w), q, x);
        lemma_add_le_mono(floor, floor, q, x);
        lemma_sub_add_cancel(floor, sv[k]);
        lemma_wf_add(floor, x);
        lemma_le_congr(addv(floor, q), addv(floor, x), addv(floor, q), sv[k]);
        lemma_le_congr(addv(floor, q), sv[k], gross, sv[k]);
    }
    assert(in_bracket(sv, k, gross));
    // the tax the schedule charges on the computed gross
    lemma_tax_at_bracket(sv, rv, zerov(), k, gross);
    let tg = tax_of(sv, rv, gross);
    let mg = mulv(rk, subv(gross, floor));
    lemma_tax_wf(sv, rv, zerov(), gross);
    lemma_wf_sub(gross, floor);
    lemma_wf_mul(rk, subv(gross, floor));
    lemma_wf_add(t0, mg);
    // the excess of the gross over the floor is exactly q
    lemma_sub_congr(gross, floor, addv(floor, q), floor);
    lemma_add_sub_cancel(floor, q);
    lemma_pos_mul_ints(floor.d, q.d);
    lemma_pos_mul_ints(floor.d * q.d, floor.d);
    lemma_eqv_trans(subv(gross, floor), subv(addv(floor, q), floor), q);
    // assemble the net of the gross
    lemma_mul_congr(rk, subv(gross, floor), rk, q);
    lemma_wf_mul(rk, q);
    lemma_add_congr(t0, mg, fk, mulv(rk, q));
    lemma_wf_add(fk, mulv(rk, q));
    lemma_eqv_trans(tg, addv(t0, mg), addv(fk, mulv(rk, q)));
    lemma_sub_congr(gross, tg, addv(floor, q), addv(fk, mulv(rk, q)));
    let nres = subv(addv(floor, q), addv(fk, mulv(rk, q)));
    lemma_pos_mul_ints(floor.d, q.d);
    lemma_pos_mul_ints(fk.d, mulv(rk, q).d);
    lemma_pos_mul_ints(floor.d * q.d, fk.d * mulv(rk, q).d);
    lemma_pos_mul_ints(gross.d, tg.d);
    // regroup: (floor + q) - (fk + r*q) == (floor - fk) + (q - r*q)
    lemma_sub_add_assoc(addv(floor, q), fk, mulv(rk, q));
    lemma_sub_add_exchange(floor, q, fk);
    lemma_sub_congr(addv(floor, q), fk, addv(floor, q), fk);
    assert(subv(addv(floor, q), fk) == addv(subv(floor, fk), q));
    lemma_sub_from_right(subv(floor, fk), q, mulv(rk, q));
    let core = addv(subv(floor, fk), subv(q, mulv(rk, q)));
    assert(nres == subv(subv(addv(floor, q), fk), mulv(rk, q)));
    assert(subv(subv(addv(floor, q), fk), mulv(rk, q)) == subv(
        addv(subv(floor, fk), q),
        mulv(rk, q),
    ));
    assert(eqv(subv(addv(subv(floor, fk), q), mulv(rk, q)), core));
    // both summands collapse: the floor part to prev, the q part to ov
    lemma_sub_of_mul_self(rk, q);
    lemma_mul_comm(subv(onev(), rk), q);
    lemma_mul_div_cancel(ov, w);
    lemma_wf_mul(w, q);
    lemma_pos_mul_ints(q.d, mulv(rk, q).d);
    lemma_eqv_trans(subv(q, mulv(rk, q)), mulv(w, q), ov);
    lemma_pos_mul_ints(floor.d, fk.d);
    lemma_add_congr(subv(floor, fk), subv(q, mulv(rk, q)), prev, ov);
    lemma_wf_add(prev, ov);
    lemma_sub_add_cancel(prev, nv);
    lemma_pos_mul_ints(subv(floor, fk).d, subv(q, mulv(rk, q)).d);
    lemma_eqv_trans(core, addv(prev, ov), nv);
    lemma_eqv_trans(nres, core, nv);
    lemma_eqv_trans(net_of(sv, rv, gross), nres, nv);
}

/// Every well-formed amount is at least zero.
pub proof fn lemma_zero_le_wf(x: RatV)
    by (nonlinear_arith)
    requires
        wfv(x),
    ensures
        lev(zerov(), x),
{
}

/// Subtracting zero leaves the pair itself.
pub proof fn lemma_sub_zero_id(x: RatV)
    by (nonlinear_arith)
    ensures
        subv(x, zerov()) == x,
{
}

} // verus!
