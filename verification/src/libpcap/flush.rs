//! When waiting payload has waited long enough.
use vstd::prelude::*;

verus! {

/// The moment at which waiting payload is delivered without what is missing before it. Moments
/// are nanoseconds since some fixed point.
#[derive(Debug, Clone, Copy, PartialEq, Eq, Structural)]
pub struct PendingStreamFlush {
    pub interval_ns: u64,
    pub deadline_ns: Option<u128>,
}

impl PendingStreamFlush {
    /// The deadline once it is known whether anything waits: set when something begins to wait,
    /// kept while something waits, and dropped when nothing does.
    pub open spec fn observed(self, has_pending: bool, now_ns: u64) -> PendingStreamFlush {
        PendingStreamFlush {
            deadline_ns: if !has_pending {
                None
            } else {
                match self.deadline_ns {
                    Some(deadline) => Some(deadline),
                    None => Some((now_ns + self.interval_ns) as u128),
                }
            },
            ..self
        }
    }

    /// Whether the deadline has come.
    pub open spec fn is_due(self, now_ns: u64) -> bool {
        match self.deadline_ns {
            Some(deadline) => now_ns >= deadline,
            None => false,
        }
    }

    pub fn from_read_timeout_ms(read_timeout_ms: i32) -> (flush: PendingStreamFlush)
        ensures
            flush.deadline_ns is None,
            flush.interval_ns == if read_timeout_ms < 0 {
                0
            } else {
                read_timeout_ms * 1_000_000
            },
    {
        let milliseconds: u64 = if read_timeout_ms < 0 {
            0
        } else {
            read_timeout_ms as u64
        };
        PendingStreamFlush { interval_ns: milliseconds * 1_000_000, deadline_ns: None }
    }

    pub fn observe(&mut self, has_pending: bool, now_ns: u64)
        ensures
            *final(self) == old(self).observed(has_pending, now_ns),
    {
        if !has_pending {
            self.deadline_ns = None;
        } else if self.deadline_ns.is_none() {
            self.deadline_ns = Some(now_ns as u128 + self.interval_ns as u128);
        }
    }

    pub fn should_flush(&mut self, has_pending: bool, now_ns: u64) -> (due: bool)
        ensures
            *final(self) == old(self).observed(has_pending, now_ns),
            due == old(self).observed(has_pending, now_ns).is_due(now_ns),
    {
        self.observe(has_pending, now_ns);
        match self.deadline_ns {
            Some(deadline) => now_ns as u128 >= deadline,
            None => false,
        }
    }

    pub fn after_flush(&mut self, has_pending: bool, now_ns: u64)
        ensures
            *final(self) == (PendingStreamFlush {
                deadline_ns: None,
                ..*old(self)
            }).observed(has_pending, now_ns),
    {
        self.deadline_ns = None;
        self.observe(has_pending, now_ns);
    }
}

/// Payload that begins to wait is delivered once the interval has passed, and not before, however
/// often it is looked at in between.
pub proof fn law_flush_waits_for_interval(flush: PendingStreamFlush, start_ns: u64, later_ns: u64)
    requires
        flush.deadline_ns is None,
        start_ns <= later_ns,
    ensures
        flush.observed(true, start_ns).observed(true, later_ns).is_due(later_ns) == (later_ns
            >= start_ns + flush.interval_ns),
        flush.observed(true, start_ns).observed(true, later_ns) == flush.observed(true, start_ns),
{
}

/// When nothing waits any more, the time already waited is forgotten.
pub proof fn law_flush_restarts(flush: PendingStreamFlush, now_ns: u64, later_ns: u64)
    ensures
        flush.observed(false, now_ns).observed(true, later_ns).deadline_ns == Some(
            (later_ns + flush.interval_ns) as u128,
        ),
{
}

} // verus!
