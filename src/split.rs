use vstd::arithmetic::div_mod::{lemma_fundamental_div_mod, lemma_fundamental_div_mod_converse_div};
use vstd::prelude::*;

verus! {

/// Commission rates are basis points: one ten-thousandth of the amount.
pub const COMMISSION_SCALE: u32 = 10000;

/// The largest valid commission rate: the whole amount.
pub const MAX_COMMISSION_RATE: u32 = 10000;

/// The agent's share: the amount times the rate, over the scale, rounded down.
pub open spec fn agent_share(amount: int, commission_rate: int) -> int {
    amount * commission_rate / (COMMISSION_SCALE as int)
}

/// The landlord's share: whatever the agent does not take.
pub open spec fn landlord_share(amount: int, commission_rate: int) -> int {
    amount - agent_share(amount, commission_rate)
}

/// For every non-negative amount and every valid rate, the two shares add up to
/// the amount exactly and neither is negative.
pub proof fn lemma_split_conserves(amount: int, commission_rate: int)
    requires
        amount >= 0,
        0 <= commission_rate <= MAX_COMMISSION_RATE,
    ensures
        landlord_share(amount, commission_rate) + agent_share(amount, commission_rate) == amount,
        0 <= agent_share(amount, commission_rate) <= amount,
        0 <= landlord_share(amount, commission_rate) <= amount,
{
    lemma_agent_share_by_parts(amount, commission_rate);
}

proof fn lemma_agent_share_by_parts(amount: int, rate: int)
    requires
        amount >= 0,
        0 <= rate <= MAX_COMMISSION_RATE,
    ensures
        agent_share(amount, rate) == (amount / 10000) * rate + (amount % 10000) * rate / 10000,
        0 <= agent_share(amount, rate) <= amount,
        rate == 0 ==> agent_share(amount, rate) == 0,
{
    let q = amount / 10000;
    let r = amount % 10000;
    lemma_fundamental_div_mod(amount, 10000);
    let q2 = (r * rate) / 10000;
    let r2 = (r * rate) % 10000;
    lemma_fundamental_div_mod(r * rate, 10000);
    assert(amount * rate == (q * rate + q2) * 10000 + r2) by (nonlinear_arith)
        requires
            amount == 10000 * q + r,
            r * rate == 10000 * q2 + r2,
    ;
    lemma_fundamental_div_mod_converse_div(amount * rate, 10000, q * rate + q2, r2);
    assert(0 <= amount * rate <= amount * 10000) by (nonlinear_arith)
        requires
            amount >= 0,
            0 <= rate <= 10000,
    ;
    assert(amount * rate / 10000 <= amount) by (nonlinear_arith)
        requires
            0 <= amount * rate <= amount * 10000,
    ;
    assert(amount * rate / 10000 >= 0) by (nonlinear_arith)
        requires
            0 <= amount * rate,
    ;
    if rate == 0 {
        assert(amount * rate == 0);
    }
}

/// Splits a payment between landlord and agent. The agent gets the rounded-down
/// commission and the landlord the rest, so the two shares always add up to the
/// amount paid; with no commission the landlord gets it all.
pub fn calculate_payment_split(amount: &i128, commission_rate: &u32) -> (r: (i128, i128))
    requires
        *amount >= 0,
        *commission_rate <= MAX_COMMISSION_RATE,
    ensures
        r.0 == landlord_share(*amount as int, *commission_rate as int),
        r.1 == agent_share(*amount as int, *commission_rate as int),
        r.0 + r.1 == *amount,
        0 <= r.1 <= *amount,
        *commission_rate == 0 ==> r.1 == 0 && r.0 == *amount,
{
    let rate = *commission_rate as i128;
    proof {
        lemma_agent_share_by_parts(*amount as int, rate as int);
    }
    let scale = COMMISSION_SCALE as i128;
    let whole = *amount / scale;
    let rest = *amount % scale;
    assert(whole * rate <= whole * 10000) by (nonlinear_arith)
        requires
            whole >= 0,
            rate <= 10000,
    ;
    assert(rest * rate <= 10000 * 10000) by (nonlinear_arith)
        requires
            0 <= rest < 10000,
            0 <= rate <= 10000,
    ;
    // The amount is split into whole multiples of the scale and a remainder, so
    // that no intermediate product exceeds the amount itself.
    let agent_amount = whole * rate + (rest * rate) / scale;
    let landlord_amount = *amount - agent_amount;
    (landlord_amount, agent_amount)
}

} // verus!
