//! Delays, counted in ticks of the system timer.

use vstd::prelude::*;

verus! {

/// How often the system timer ticks in a second.
pub const TICKS_PER_SECOND: u64 = 1_000_000;

/// Trusts `embassy_time::Duration::from_millis` and `as_ticks`, with the timer at
/// `TICKS_PER_SECOND`: a millisecond is a thousand ticks.
#[verifier::external_body]
pub(crate) fn millis_to_ticks(ms: u64) -> (ticks: u64)
    requires
        ms * (TICKS_PER_SECOND / 1_000) < u64::MAX,
    ensures
        ticks == ms * (TICKS_PER_SECOND / 1_000),
{
    embassy_time::Duration::from_millis(ms).as_ticks()
}

/// Trusts `embassy_time::Duration::from_micros` and `as_ticks`, with the timer at
/// `TICKS_PER_SECOND`: a microsecond is one tick.
#[verifier::external_body]
pub(crate) fn micros_to_ticks(us: u64) -> (ticks: u64)
    requires
        us < u64::MAX,
    ensures
        ticks == us,
{
    embassy_time::Duration::from_micros(us).as_ticks()
}

/// Trusts `embassy_time::Duration::from_secs` and `as_ticks`, with the timer at
/// `TICKS_PER_SECOND`.
#[verifier::external_body]
pub(crate) fn secs_to_ticks(secs: u64) -> (ticks: u64)
    requires
        secs * TICKS_PER_SECOND <= u64::MAX,
    ensures
        ticks == secs * TICKS_PER_SECOND,
{
    embassy_time::Duration::from_secs(secs).as_ticks()
}

/// The host's side of the delays that a guest asks for.
pub struct DelayCtx;

/// Gives the host's delays out of a larger state.
pub trait DelayView {
    fn delay_ctx(&mut self) -> &mut DelayCtx;
}

impl DelayCtx {
    /// For how many ticks the host stands still when a guest asks for a delay of `ms`
    /// milliseconds.
    pub fn delay_ms(&mut self, ms: u32) -> (ticks: u64)
        ensures
            *final(self) == *old(self),
            ticks == ms * 1_000,
    {
        millis_to_ticks(ms as u64)
    }
}

} // verus!
