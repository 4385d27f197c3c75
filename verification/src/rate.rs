//! The pace of writes to the exchange.

use vstd::prelude::*;

verus! {

/// The microseconds after which a write permit comes back, at `rate` writes per second.
pub open spec fn refill_micros(rate: nat) -> nat
    recommends
        rate > 0,
{
    1_000_000nat / rate
}

/// The microseconds after which a write permit comes back, at `rate` writes per second.
pub fn refill_interval_micros(rate: u32) -> (micros: u64)
    requires
        rate > 0,
    ensures
        micros == refill_micros(rate as nat),
{
    1_000_000 / rate as u64
}

/// The permits after a tick: one more, as long as there are fewer than a second's worth.
pub open spec fn permits_after_tick(available: nat, rate: nat) -> nat {
    if available < rate {
        available + 1
    } else {
        available
    }
}

/// Whether a tick puts a permit back.
pub fn refill_due(available: usize, rate: u32) -> (due: bool)
    ensures
        due == (available < rate),
        permits_after_tick(available as nat, rate as nat) == available + if due {
            1int
        } else {
            0
        },
{
    available < rate as usize
}

/// Ticks never lift the permits above a second's worth.
pub proof fn law_permits_stay_within_the_rate(available: nat, rate: nat)
    requires
        available <= rate,
    ensures
        available <= permits_after_tick(available, rate) <= rate,
{
}

/// Permits come back at the rate: as many intervals as there are writes per second fill a second, and
/// with a microsecond more each they would not fit in it.
pub proof fn law_permits_come_back_at_the_rate(rate: nat)
    requires
        rate > 0,
    ensures
        rate * refill_micros(rate) <= 1_000_000,
        rate * (refill_micros(rate) + 1) > 1_000_000,
{
    let m = refill_micros(rate);
    vstd::arithmetic::div_mod::lemma_fundamental_div_mod(1_000_000, rate as int);
    vstd::arithmetic::div_mod::lemma_mod_bound(1_000_000, rate as int);
    assert(rate * (m + 1) == rate * m + rate) by (nonlinear_arith);
}

/// One tick brings back one permit, as long as there are fewer than a second's worth.
pub proof fn law_tick_brings_back_one(available: nat, rate: nat)
    ensures
        available < rate ==> permits_after_tick(available, rate) == available + 1,
        available >= rate ==> permits_after_tick(available, rate) == available,
{
}

} // verus!
