//! The clock of the observations: a sequence number beside the wall clock.
use vstd::prelude::*;

use crate::model::Timestamp;

verus! {

/// Numbers the moments of observation.
#[derive(Debug, Clone, Copy, PartialEq, Eq, Structural)]
pub struct EbpfObservationClock {
    pub monotonic_sequence: u64,
}

/// The number after `sequence`, up to the largest one.
pub open spec fn next_number(sequence: u64) -> u64 {
    if sequence < u64::MAX {
        (sequence + 1) as u64
    } else {
        u64::MAX
    }
}

impl EbpfObservationClock {
    pub fn next_timestamp(&mut self, wall_time_unix_ns: i64) -> (timestamp: Timestamp)
        ensures
            final(self).monotonic_sequence == next_number(old(self).monotonic_sequence),
            timestamp == (Timestamp {
                monotonic_ns: next_number(old(self).monotonic_sequence),
                wall_time_unix_ns,
            }),
    {
        self.monotonic_sequence = self.monotonic_sequence.saturating_add(1);
        Timestamp { monotonic_ns: self.monotonic_sequence, wall_time_unix_ns }
    }
}

impl Default for EbpfObservationClock {
    fn default() -> (clock: Self)
        ensures
            clock.monotonic_sequence == 0,
    {
        EbpfObservationClock { monotonic_sequence: 0 }
    }
}

/// The wall time of so many nanoseconds since the epoch, held at the largest that fits.
pub open spec fn wall_time(nanoseconds: u128) -> i64 {
    if nanoseconds <= i64::MAX {
        nanoseconds as i64
    } else {
        i64::MAX
    }
}

pub fn wall_time_unix_ns(nanoseconds: u128) -> (time: i64)
    ensures
        time == wall_time(nanoseconds),
{
    if nanoseconds <= i64::MAX as u128 {
        nanoseconds as i64
    } else {
        i64::MAX
    }
}

} // verus!
