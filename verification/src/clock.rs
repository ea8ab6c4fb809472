//! Deadlines, in ticks of the system clock.

use vstd::prelude::*;

verus! {

/// Clock ticks in a millisecond: the clock runs at one million ticks a second.
pub const TICKS_PER_MILLI: u64 = 1000;

/// A wait of `millis` milliseconds that starts at `now` ends before the clock runs out.
pub open spec fn deadline_fits(now: u64, millis: u64) -> bool {
    now + millis * TICKS_PER_MILLI <= u64::MAX
}

/// A wait can start as long as its thousand ticks for each millisecond do not run past the end of
/// the clock.
pub proof fn a_millisecond_is_a_thousand_ticks(now: u64, millis: u64)
    ensures
        deadline_fits(now, millis) <==> now + 1000 * millis <= u64::MAX,
{
}

/// Calls `embassy_time::Duration::from_millis`, and reads the duration in ticks.
///
/// The contract claims that a millisecond counts as `TICKS_PER_MILLI` ticks: no `tick-hz` feature
/// is selected for `embassy-time`, so its clock has the default rate of one million ticks a second.
/// `from_millis` multiplies before it divides, and the product has to fit in 64 bits.
#[verifier::external_body]
fn millis_to_ticks(millis: u64) -> (ticks: u64)
    requires
        millis * TICKS_PER_MILLI <= u64::MAX,
    ensures
        ticks == millis * TICKS_PER_MILLI,
{
    embassy_time::Duration::from_millis(millis).as_ticks()
}

/// Calls the addition of an `embassy_time::Duration` to an `embassy_time::Instant`, both given and
/// read in ticks.
///
/// The contract claims that the ticks are added. The outside addition panics when the sum does not
/// fit in 64 bits, so such a sum is left out.
#[verifier::external_body]
fn instant_after(start: u64, ticks: u64) -> (end: u64)
    requires
        start + ticks <= u64::MAX,
    ensures
        end == start + ticks,
{
    let wait = embassy_time::Duration::from_ticks(ticks);
    (embassy_time::Instant::from_ticks(start) + wait).as_ticks()
}

/// The moment at which a wait of `millis` milliseconds that starts at `now` is over.
pub fn deadline_after(now: u64, millis: u64) -> (deadline: u64)
    requires
        deadline_fits(now, millis),
    ensures
        deadline == now + millis * TICKS_PER_MILLI,
        deadline == now + 1000 * millis,
{
    let ticks: u64 = millis_to_ticks(millis);
    instant_after(now, ticks)
}

/// Whether a wait of `millis` milliseconds can start at `now`.
pub fn fits(now: u64, millis: u64) -> (r: bool)
    ensures
        r == deadline_fits(now, millis),
{
    if millis > u64::MAX / TICKS_PER_MILLI {
        return false;
    }
    millis_to_ticks(millis) <= u64::MAX - now
}

} // verus!
