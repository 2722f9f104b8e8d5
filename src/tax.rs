use vstd::prelude::*;

verus! {

/// Numerator of the rate charged twice on every stake (0.25%).
pub const MINOR_TAX_RATE: u128 = 25;

/// Numerator of the rate charged once on every stake (2.49%).
pub const MAJOR_TAX_RATE: u128 = 249;

/// Denominator shared by both tax rates.
pub const TAX_BASE: u128 = 10000;

/// The tax charged twice on a stake, truncated toward zero.
pub open spec fn minor_tax_spec(stake: nat) -> nat {
    stake * 25 / 10000
}

/// The tax charged once on a stake, truncated toward zero.
pub open spec fn major_tax_spec(stake: nat) -> nat {
    stake * 249 / 10000
}

/// What is left of a stake once both taxes have been taken out.
pub open spec fn net_stake_spec(stake: nat) -> int {
    stake - 2 * minor_tax_spec(stake) - major_tax_spec(stake)
}

/// What a winning bet pays back: twice the stake net of tax.
pub open spec fn payout_spec(stake: nat) -> int {
    2 * net_stake_spec(stake)
}

proof fn lemma_scaled_div(stake: nat, rate: nat)
    requires
        0 < rate < 10000,
    ensures
        (stake / 10000) * rate + ((stake % 10000) * rate) / 10000 == stake * rate / 10000,
        stake * rate / 10000 <= stake,
{
    let q = stake / 10000;
    let r = stake % 10000;
    assert(stake == 10000 * q + r) by (nonlinear_arith)
        requires q == stake / 10000, r == stake % 10000;
    assert(stake * rate == 10000 * (q * rate) + r * rate) by (nonlinear_arith)
        requires stake == 10000 * q + r;
    assert((10000 * (q * rate) + r * rate) / 10000 == q * rate + (r * rate) / 10000) by (nonlinear_arith)
        requires q * rate >= 0, r * rate >= 0;
    assert(stake * rate / 10000 <= stake) by (nonlinear_arith)
        requires rate < 10000;
}

/// The tax charged twice on `stake` (0.25%, truncated), computed without overflow.
pub fn minor_tax(stake: u128) -> (t: u128)
    ensures
        t == minor_tax_spec(stake as nat),
        t <= stake,
{
    proof { lemma_scaled_div(stake as nat, 25); }
    (stake / TAX_BASE) * MINOR_TAX_RATE + ((stake % TAX_BASE) * MINOR_TAX_RATE) / TAX_BASE
}

/// The tax charged once on `stake` (2.49%, truncated), computed without overflow.
pub fn major_tax(stake: u128) -> (t: u128)
    ensures
        t == major_tax_spec(stake as nat),
        t <= stake,
{
    proof { lemma_scaled_div(stake as nat, 249); }
    (stake / TAX_BASE) * MAJOR_TAX_RATE + ((stake % TAX_BASE) * MAJOR_TAX_RATE) / TAX_BASE
}

/// The stake net of both taxes: `stake - 2 * minor_tax(stake) - major_tax(stake)`.
pub fn net_stake(stake: u128) -> (r: u128)
    ensures
        r == net_stake_spec(stake as nat),
        r <= stake,
{
    let t1 = minor_tax(stake);
    let t2 = major_tax(stake);
    assert(2 * t1 + t2 <= stake);
    stake - t1 * 2 - t2
}

} // verus!
