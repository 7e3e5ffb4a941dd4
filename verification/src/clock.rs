//! The monotonic clock.
use tokio::time::Instant;
use vstd::prelude::*;

verus! {

/// `tokio::time::Instant`, a point of the monotonic clock.
#[verifier::external_type_specification]
#[verifier::external_body]
pub struct ExInstant(Instant);

/// `tokio::time::Instant::now` reads the clock. Nothing is claimed of the result.
pub assume_specification[ Instant::now ]() -> (r: Instant)
;

/// The longest span that the clock gives, in nanoseconds.
pub const MAX_SPAN: u128 = 18446744073709551615999999999;

/// `tokio::time::Instant::elapsed` reads the clock and gives the time since
/// `start` as a `Duration`, which holds at most `u64::MAX` seconds and less than
/// one more. Nothing else is claimed of the result.
#[verifier::external_body]
pub(crate) fn nanos_since(start: &Instant) -> (r: u128)
    ensures
        r <= MAX_SPAN,
{
    start.elapsed().as_nanos()
}

/// How long it is from `now` until a deadline, where there is one.
pub open spec fn left(deadline: Option<u128>, now: u128) -> Option<u128> {
    match deadline {
        Some(d) => if d > now {
            Some((d - now) as u128)
        } else {
            Some(0)
        },
        None => None,
    }
}

/// How long it is from `now` until a deadline, where there is one.
pub fn time_left(deadline: Option<u128>, now: u128) -> (r: Option<u128>)
    ensures
        r == left(deadline, now),
{
    match deadline {
        Some(d) => if d > now {
            Some(d - now)
        } else {
            Some(0)
        },
        None => None,
    }
}

/// What is left until a deadline ends at the deadline: it is nothing once it has
/// passed, and there is none where there is no deadline.
pub proof fn law_time_runs_out(deadline: u128, now: u128)
    ensures
        left(None, now) is None,
        now < deadline ==> left(Some(deadline), now) == Some((deadline - now) as u128),
        now >= deadline ==> left(Some(deadline), now) == Some(0u128),
        MAX_SPAN == 0xffff_ffff_ffff_ffffu128 * 1_000_000_000 + 999_999_999,
{
}

} // verus!
