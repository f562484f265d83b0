//! Unix-epoch arithmetic for the block-lookup feature.

use vstd::prelude::*;

verus! {

pub struct Epoch {}

impl Epoch {
    /// Relies on `std::time::SystemTime::now`: the wall clock as whole
    /// seconds since the Unix epoch, or zero if the clock is set
    /// before it. The result depends on the clock, so nothing more is
    /// promised of it.
    #[verifier::external_body]
    pub fn now() -> u64 {
        match std::time::SystemTime::now().duration_since(std::time::UNIX_EPOCH) {
            Ok(d) => d.as_secs(),
            Err(_) => 0,
        }
    }

    /// The epoch second `week` whole weeks before `epoch`.
    pub fn weeks_ago(epoch: u64, week: u64) -> (r: u64)
        requires
            week * 604800 <= epoch,
        ensures
            r == epoch - week * 604800,
    {
        let week_in_sec: u64 = 7 * 24 * 60 * 60;
        epoch - week * week_in_sec
    }

    /// Subtract `number` scaled by a day's seconds from `number`
    /// itself; the subtrahend grows with the input, so only inputs
    /// where the difference stays non-negative are accepted.
    pub fn days_ago(number: u64) -> (r: u64)
        requires
            number * 86400 <= number,
        ensures
            r == number - number * 86400,
    {
        let days_in_sec: u64 = 24 * 60 * 60;
        number - number * days_in_sec
    }
}

} // verus!
