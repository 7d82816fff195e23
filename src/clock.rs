//! The current time and random draws, taken from chrono and rand.

use vstd::prelude::*;
use rand::Rng;

verus! {

/// A bound on the magnitude of any timestamp chrono can represent, in milliseconds.
pub const MAX_TIMESTAMP_MILLIS: i64 = 10_000_000_000_000_000;

/// Relies on chrono's `From<SystemTime> for DateTime<Utc>` and
/// `DateTime::timestamp_millis`, applied to `SystemTime::now`: the current UTC
/// time in milliseconds since the Unix epoch, negative for a clock set before
/// it. chrono's dates lie within the years -262143 to 262142, so the value
/// stays inside the bound. (The conversion panics only for a system clock
/// outside that range of years.)
#[verifier::external_body]
pub(crate) fn now_millis() -> (r: i64)
    ensures
        -MAX_TIMESTAMP_MILLIS <= r <= MAX_TIMESTAMP_MILLIS,
{
    chrono::DateTime::<chrono::Utc>::from(std::time::SystemTime::now()).timestamp_millis()
}

/// Relies on rand's `Rng::gen_range` over `thread_rng` with an inclusive range:
/// a uniformly drawn value between `low` and `high`, both included.
#[verifier::external_body]
pub(crate) fn random_between(low: u32, high: u32) -> (r: u32)
    requires
        low <= high,
    ensures
        low <= r <= high,
{
    rand::thread_rng().gen_range(low..=high)
}

} // verus!
