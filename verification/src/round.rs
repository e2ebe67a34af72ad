//! Per-round submission decisions: how much time a round has left to mine,
//! whether an epoch reset instruction is due and whether it is actually
//! bundled, which bus account spreads the write load, and the compute budget
//! the transaction declares.

use vstd::prelude::*;

verus! {

/// Length of one mining round in seconds, measured from the last accepted
/// hash.
pub const ROUND_WINDOW: i64 = 60;

/// Safety margin in seconds before the epoch boundary within which a reset
/// counts as due.
pub const RESET_MARGIN: i64 = 5;

/// Compute budget declared for a plain submission.
pub const BASE_COMPUTE_BUDGET: u32 = 500_000;

/// Extra compute budget declared when a reset instruction is bundled.
pub const RESET_COMPUTE_BUDGET: u32 = 100_000;

/// One in this many rounds with a due reset actually bundles it.
pub const RESET_GATE: u64 = 100;

/// Size of the fixed pool of bus accounts that spreads write contention.
pub const BUS_COUNT: u64 = 8;

/// Addition on 64-bit signed integers, saturating at the type's bounds.
pub open spec fn sat_add_i64(a: int, b: int) -> int {
    if a + b > i64::MAX as int {
        i64::MAX as int
    } else if a + b < i64::MIN as int {
        i64::MIN as int
    } else {
        a + b
    }
}

/// Subtraction on 64-bit signed integers, saturating at the type's bounds.
pub open spec fn sat_sub_i64(a: int, b: int) -> int {
    if a - b > i64::MAX as int {
        i64::MAX as int
    } else if a - b < i64::MIN as int {
        i64::MIN as int
    } else {
        a - b
    }
}

fn sat_add(a: i64, b: i64) -> (r: i64)
    ensures
        r == sat_add_i64(a as int, b as int),
{
    if b >= 0 {
        if a > i64::MAX - b {
            i64::MAX
        } else {
            a + b
        }
    } else {
        if a < i64::MIN - b {
            i64::MIN
        } else {
            a + b
        }
    }
}

fn sat_sub(a: i64, b: i64) -> (r: i64)
    ensures
        r == sat_sub_i64(a as int, b as int),
{
    if b >= 0 {
        if a < i64::MIN + b {
            i64::MIN
        } else {
            a - b
        }
    } else {
        if a > i64::MAX + b {
            i64::MAX
        } else {
            a - b
        }
    }
}

/// The seconds a round may still mine: the round deadline (the last accepted
/// hash's timestamp plus the round window, less the caller's submission
/// buffer) minus the current time, floored at zero.
pub open spec fn spec_cutoff(last_hash_at: int, buffer_time: int, now: int) -> int {
    let left = sat_sub_i64(
        sat_sub_i64(sat_add_i64(last_hash_at, ROUND_WINDOW as int), buffer_time),
        now,
    );
    if left < 0 {
        0
    } else {
        left
    }
}

/// Computes how many seconds of the current round remain for mining, leaving
/// `buffer_time` seconds of safety margin for submission latency; zero when
/// the round window has already closed.
pub fn get_cutoff(last_hash_at: i64, buffer_time: u64, now: i64) -> (r: u64)
    requires
        buffer_time <= i64::MAX as u64,
    ensures
        r == spec_cutoff(last_hash_at as int, buffer_time as int, now as int),
{
    let left = sat_sub(sat_sub(sat_add(last_hash_at, ROUND_WINDOW), buffer_time as i64), now);
    if left < 0 {
        0
    } else {
        left as u64
    }
}

/// An epoch reset is due once the current time has reached the last reset's
/// timestamp plus the epoch duration, less the safety margin.
pub open spec fn spec_should_reset(last_reset_at: int, epoch_duration: int, now: int) -> bool {
    sat_sub_i64(sat_add_i64(last_reset_at, epoch_duration), RESET_MARGIN as int) <= now
}

/// Decides whether the epoch needs a reset instruction this round.
pub fn should_reset(last_reset_at: i64, epoch_duration: i64, now: i64) -> (r: bool)
    ensures
        r == spec_should_reset(last_reset_at as int, epoch_duration as int, now as int),
{
    sat_sub(sat_add(last_reset_at, epoch_duration), RESET_MARGIN) <= now
}

/// The shape of one round's transaction.
pub struct RoundPlan {
    /// Whether the reset instruction is bundled this round.
    pub include_reset: bool,
    /// The compute budget the transaction declares.
    pub compute_budget: u32,
    /// Which bus account of the pool carries this round's write.
    pub bus_index: u64,
}

/// Decides the shape of one round's submission from the reset-due flag and
/// two random draws. A due reset is actually bundled only when the one-in-
/// `RESET_GATE` gate fires, so concurrent miners do not all race to submit
/// the identical reset every round; a bundled reset raises the declared
/// compute budget by its extra cost; the second draw spreads the write load
/// uniformly over the bus pool.
pub fn plan_submission(reset_due: bool, reset_roll: u64, bus_roll: u64) -> (r: RoundPlan)
    ensures
        r.include_reset == (reset_due && reset_roll % RESET_GATE == 0),
        r.include_reset ==> r.compute_budget == BASE_COMPUTE_BUDGET + RESET_COMPUTE_BUDGET,
        !r.include_reset ==> r.compute_budget == BASE_COMPUTE_BUDGET,
        r.bus_index == bus_roll % BUS_COUNT,
        r.bus_index < BUS_COUNT,
{
    let include_reset = reset_due && reset_roll % RESET_GATE == 0;
    let compute_budget = if include_reset {
        BASE_COMPUTE_BUDGET + RESET_COMPUTE_BUDGET
    } else {
        BASE_COMPUTE_BUDGET
    };
    RoundPlan { include_reset, compute_budget, bus_index: bus_roll % BUS_COUNT }
}

} // verus!
