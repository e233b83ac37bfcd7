//! The laws of the bracket engine, stated once over whole schedules.
//!
//! Each lemma here is a public statement about every valid schedule:
//! the round trip between net and gross, monotonicity, the bounds on
//! the tax, and what merging does to the tax function.  They are proved
//! from the schedule model that the engine's contracts use, so together
//! with those contracts they speak about the executable calculations.

use vstd::prelude::*;

use crate::ratspec::{addv, eqv, lemma_eqv_trans, lev, ltv, wfv, zerov, RatV};
use crate::sched_spec::{
    lemma_add_assoc, lemma_add_comm, lemma_add_zero_right, lemma_merge_additive,
    lemma_merge_frame, lemma_mul_zero_rate, lemma_net_injective, lemma_net_mono, lemma_tax_le,
    lemma_tax_mono, lemma_tax_wf, lemma_wf_add, merge_spec, net_of, rates_below_one,
    sched_frame, sched_wf, tax_of,
};

verus! {

/// Every valid schedule can be walked from a zero floor.
pub proof fn lemma_zero_frame(seps: Seq<RatV>, rates: Seq<RatV>)
    requires
        sched_wf(seps, rates),
    ensures
        sched_frame(seps, rates, zerov()),
        rates_below_one(rates),
{
    if seps.len() > 0 {
        assert(wfv(seps[0]));
        crate::sched_spec::lemma_zero_le_wf(seps[0]);
    }
}

/// Round trip: net income determines gross income.  Together with the
/// inverse's contract — the gross it returns nets to its input — this
/// says that inverting the net of any income returns that income
/// exactly.
pub proof fn lemma_round_trip(seps: Seq<RatV>, rates: Seq<RatV>, g: RatV, g2: RatV)
    requires
        sched_wf(seps, rates),
        wfv(g),
        wfv(g2),
        eqv(net_of(seps, rates, g2), net_of(seps, rates, g)),
    ensures
        eqv(g2, g),
{
    lemma_zero_frame(seps, rates);
    lemma_net_injective(seps, rates, g2, g);
}

/// Monotonicity: a higher gross income never owes less tax.
pub proof fn lemma_taxes_monotone(seps: Seq<RatV>, rates: Seq<RatV>, g1: RatV, g2: RatV)
    requires
        sched_wf(seps, rates),
        wfv(g1),
        wfv(g2),
        lev(g1, g2),
    ensures
        lev(tax_of(seps, rates, g1), tax_of(seps, rates, g2)),
{
    lemma_zero_frame(seps, rates);
    assert(lev(zerov(), g1));
    lemma_tax_mono(seps, rates, zerov(), g1, g2);
}

/// Monotonicity: a higher gross income never leaves less net income.
pub proof fn lemma_net_monotone(seps: Seq<RatV>, rates: Seq<RatV>, g1: RatV, g2: RatV)
    requires
        sched_wf(seps, rates),
        wfv(g1),
        wfv(g2),
        lev(g1, g2),
    ensures
        lev(net_of(seps, rates, g1), net_of(seps, rates, g2)),
{
    lemma_zero_frame(seps, rates);
    lemma_net_mono(seps, rates, g1, g2);
}

/// Non-negativity: the tax is never negative and never exceeds the
/// gross income it is charged on.
pub proof fn lemma_tax_bounds(seps: Seq<RatV>, rates: Seq<RatV>, g: RatV)
    requires
        sched_wf(seps, rates),
        wfv(g),
    ensures
        lev(zerov(), tax_of(seps, rates, g)),
        lev(tax_of(seps, rates, g), g),
        lev(net_of(seps, rates, g), g),
    {
    lemma_zero_frame(seps, rates);
    assert(lev(zerov(), g));
    lemma_tax_wf(seps, rates, zerov(), g);
    lemma_tax_le(seps, rates, zerov(), g);
    assert(crate::ratspec::subv(g, zerov()) == g);
    let t = tax_of(seps, rates, g);
    assert(lev(zerov(), t));
    lemma_diff_le_self(g, t);
}

/// Taking something away never leaves more than was there.
proof fn lemma_diff_le_self(g: RatV, t: RatV)
    by (nonlinear_arith)
    requires
        wfv(g),
        wfv(t),
    ensures
        lev(crate::ratspec::subv(g, t), g),
{
}

/// Merge additivity: at every income, the merged schedule charges
/// exactly the sum of what the two inputs charge.
pub proof fn lemma_merge_adds_taxes(
    aseps: Seq<RatV>,
    arates: Seq<RatV>,
    bseps: Seq<RatV>,
    brates: Seq<RatV>,
    g: RatV,
)
    requires
        sched_wf(aseps, arates),
        sched_wf(bseps, brates),
        wfv(g),
    ensures
        eqv(
            tax_of(
                merge_spec(aseps, arates, bseps, brates).0,
                merge_spec(aseps, arates, bseps, brates).1,
                g,
            ),
            addv(tax_of(aseps, arates, g), tax_of(bseps, brates, g)),
        ),
{
    lemma_zero_frame(aseps, arates);
    lemma_zero_frame(bseps, brates);
    assert(lev(zerov(), g));
    lemma_merge_additive(aseps, arates, bseps, brates, zerov(), g);
}

/// Merge identity: merging with a single zero-rate bracket leaves the
/// tax function unchanged.
pub proof fn lemma_merge_identity(
    aseps: Seq<RatV>,
    arates: Seq<RatV>,
    zrate: RatV,
    g: RatV,
)
    requires
        sched_wf(aseps, arates),
        wfv(zrate),
        eqv(zrate, zerov()),
        wfv(g),
    ensures
        eqv(
            tax_of(
                merge_spec(aseps, arates, Seq::<RatV>::empty(), seq![zrate]).0,
                merge_spec(aseps, arates, Seq::<RatV>::empty(), seq![zrate]).1,
                g,
            ),
            tax_of(aseps, arates, g),
        ),
{
    let zs = Seq::<RatV>::empty();
    let zr = seq![zrate];
    assert(sched_wf(zs, zr)) by {
        assert(forall|i: int| 0 <= i < zr.len() ==> wfv(#[trigger] zr[i]));
        assert(forall|i: int| 0 <= i < zr.len() ==> ltv(#[trigger] zr[i], crate::ratspec::onev()));
    }
    lemma_merge_adds_taxes(aseps, arates, zs, zr, g);
    lemma_zero_frame(aseps, arates);
    assert(lev(zerov(), g));
    lemma_tax_wf(aseps, arates, zerov(), g);
    // the zero-rate schedule charges nothing
    let tz = tax_of(zs, zr, g);
    assert(tz == crate::ratspec::mulv(zrate, crate::ratspec::subv(g, zerov())));
    lemma_mul_zero_rate(zrate, crate::ratspec::subv(g, zerov()));
    let ta = tax_of(aseps, arates, g);
    crate::sched_spec::lemma_wf_mul(zrate, crate::ratspec::subv(g, zerov()));
    crate::sched_spec::lemma_wf_add(ta, tz);
    lemma_add_zero_right(ta, tz);
    let tm = tax_of(
        merge_spec(aseps, arates, zs, zr).0,
        merge_spec(aseps, arates, zs, zr).1,
        g,
    );
    lemma_eqv_trans(tm, addv(ta, tz), ta);
}


/// Merging is commutative in the tax it charges: the merged schedule
/// taxes every income the same whichever side came first.
pub proof fn lemma_merge_commutative(
    aseps: Seq<RatV>,
    arates: Seq<RatV>,
    bseps: Seq<RatV>,
    brates: Seq<RatV>,
    g: RatV,
)
    requires
        sched_wf(aseps, arates),
        sched_wf(bseps, brates),
        wfv(g),
    ensures
        eqv(
            tax_of(
                merge_spec(aseps, arates, bseps, brates).0,
                merge_spec(aseps, arates, bseps, brates).1,
                g,
            ),
            tax_of(
                merge_spec(bseps, brates, aseps, arates).0,
                merge_spec(bseps, brates, aseps, arates).1,
                g,
            ),
        ),
{
    lemma_zero_frame(aseps, arates);
    lemma_zero_frame(bseps, brates);
    assert(lev(zerov(), g));
    lemma_merge_adds_taxes(aseps, arates, bseps, brates, g);
    lemma_merge_adds_taxes(bseps, brates, aseps, arates, g);
    let ta = tax_of(aseps, arates, g);
    let tb = tax_of(bseps, brates, g);
    lemma_tax_wf(aseps, arates, zerov(), g);
    lemma_tax_wf(bseps, brates, zerov(), g);
    lemma_wf_add(ta, tb);
    lemma_wf_add(tb, ta);
    lemma_add_comm(ta, tb);
    let tab = tax_of(
        merge_spec(aseps, arates, bseps, brates).0,
        merge_spec(aseps, arates, bseps, brates).1,
        g,
    );
    let tba = tax_of(
        merge_spec(bseps, brates, aseps, arates).0,
        merge_spec(bseps, brates, aseps, arates).1,
        g,
    );
    lemma_eqv_trans(tab, addv(ta, tb), tba);
}

/// Merging is associative in the tax it charges: stacking three
/// schedules charges the same whichever pair is merged first, so a
/// country-state-city fold does not depend on its grouping.
pub proof fn lemma_merge_associative(
    aseps: Seq<RatV>,
    arates: Seq<RatV>,
    bseps: Seq<RatV>,
    brates: Seq<RatV>,
    cseps: Seq<RatV>,
    crates_: Seq<RatV>,
    g: RatV,
)
    requires
        sched_wf(aseps, arates),
        sched_wf(bseps, brates),
        sched_wf(cseps, crates_),
        wfv(g),
    ensures
        eqv(
            tax_of(
                merge_spec(
                    merge_spec(aseps, arates, bseps, brates).0,
                    merge_spec(aseps, arates, bseps, brates).1,
                    cseps,
                    crates_,
                ).0,
                merge_spec(
                    merge_spec(aseps, arates, bseps, brates).0,
                    merge_spec(aseps, arates, bseps, brates).1,
                    cseps,
                    crates_,
                ).1,
                g,
            ),
            tax_of(
                merge_spec(
                    aseps,
                    arates,
                    merge_spec(bseps, brates, cseps, crates_).0,
                    merge_spec(bseps, brates, cseps, crates_).1,
                ).0,
                merge_spec(
                    aseps,
                    arates,
                    merge_spec(bseps, brates, cseps, crates_).0,
                    merge_spec(bseps, brates, cseps, crates_).1,
                ).1,
                g,
            ),
        ),
{
    lemma_zero_frame(aseps, arates);
    lemma_zero_frame(bseps, brates);
    lemma_zero_frame(cseps, crates_);
    assert(lev(zerov(), g));
    let ab = merge_spec(aseps, arates, bseps, brates);
    let bc = merge_spec(bseps, brates, cseps, crates_);
    lemma_merge_frame(aseps, arates, bseps, brates, zerov());
    lemma_merge_frame(bseps, brates, cseps, crates_, zerov());
    lemma_merge_additive(ab.0, ab.1, cseps, crates_, zerov(), g);
    lemma_merge_additive(aseps, arates, bc.0, bc.1, zerov(), g);
    lemma_merge_additive(aseps, arates, bseps, brates, zerov(), g);
    lemma_merge_additive(bseps, brates, cseps, crates_, zerov(), g);
    let ta = tax_of(aseps, arates, g);
    let tb = tax_of(bseps, brates, g);
    let tc = tax_of(cseps, crates_, g);
    let tab = tax_of(ab.0, ab.1, g);
    let tbc = tax_of(bc.0, bc.1, g);
    lemma_tax_wf(aseps, arates, zerov(), g);
    lemma_tax_wf(bseps, brates, zerov(), g);
    lemma_tax_wf(cseps, crates_, zerov(), g);
    lemma_tax_wf(ab.0, ab.1, zerov(), g);
    lemma_tax_wf(bc.0, bc.1, zerov(), g);
    lemma_wf_add(ta, tb);
    lemma_wf_add(tb, tc);
    lemma_wf_add(addv(ta, tb), tc);
    lemma_wf_add(ta, addv(tb, tc));
    lemma_wf_add(tab, tc);
    lemma_wf_add(ta, tbc);
    // both groupings collapse to the same three-way sum
    crate::ratspec::lemma_add_congr(tab, tc, addv(ta, tb), tc);
    crate::ratspec::lemma_add_congr(ta, tbc, ta, addv(tb, tc));
    lemma_add_assoc(ta, tb, tc);
    let left = tax_of(
        merge_spec(ab.0, ab.1, cseps, crates_).0,
        merge_spec(ab.0, ab.1, cseps, crates_).1,
        g,
    );
    let right = tax_of(
        merge_spec(aseps, arates, bc.0, bc.1).0,
        merge_spec(aseps, arates, bc.0, bc.1).1,
        g,
    );
    lemma_eqv_trans(left, addv(tab, tc), addv(addv(ta, tb), tc));
    lemma_eqv_trans(left, addv(addv(ta, tb), tc), addv(ta, addv(tb, tc)));
    lemma_eqv_trans(left, addv(ta, addv(tb, tc)), addv(ta, tbc));
    lemma_eqv_trans(left, addv(ta, tbc), right);
}

} // verus!
