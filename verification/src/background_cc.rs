//! The decisions of the congestion control for bulk data. The rates themselves
//! are computed outside.

use vstd::prelude::*;

verus! {

pub const DEFAULT_BURST_CAP_BYTES: u64 = 16_000;

pub const DEFAULT_HOL_ESCAPE_MS: u32 = 5;

pub const DEFAULT_TARGET_QUEUE_DELAY_MS: u32 = 10;

/// How often a rate was changed.
#[derive(Clone, Copy, Debug, PartialEq, Eq, Structural)]
pub struct CcUpdateCounters {
    pub increase_events: u64,
    pub decrease_events: u64,
    pub loss_decrease_events: u64,
}

impl Default for CcUpdateCounters {
    fn default() -> (out: Self)
        ensures
            out == (CcUpdateCounters {
                increase_events: 0,
                decrease_events: 0,
                loss_decrease_events: 0,
            }),
    {
        CcUpdateCounters { increase_events: 0, decrease_events: 0, loss_decrease_events: 0 }
    }
}

/// What a sample says of the delay in the queue.
#[derive(Clone, Copy, Debug, PartialEq, Eq, Structural)]
pub enum DelayVerdict {
    /// It was not measured.
    Unknown,
    /// At most the one that is aimed at.
    Low,
    High,
}

/// One more, up to the largest number.
pub open spec fn one_more(n: u64) -> u64 {
    if n == u64::MAX {
        n
    } else {
        (n + 1) as u64
    }
}

/// The counters after a sample.
pub open spec fn counted(c: CcUpdateCounters, loss_edge: bool, delay: DelayVerdict) -> CcUpdateCounters {
    CcUpdateCounters {
        increase_events: if delay is Low {
            one_more(c.increase_events)
        } else {
            c.increase_events
        },
        decrease_events: if delay is High {
            one_more(c.decrease_events)
        } else {
            c.decrease_events
        },
        loss_decrease_events: if loss_edge {
            one_more(c.loss_decrease_events)
        } else {
            c.loss_decrease_events
        },
    }
}

impl CcUpdateCounters {
    /// Counts a sample.
    pub fn count(&mut self, loss_edge: bool, delay: DelayVerdict)
        ensures
            *final(self) == counted(*old(self), loss_edge, delay),
    {
        if loss_edge {
            self.loss_decrease_events = self.loss_decrease_events.saturating_add(1);
        }
        match delay {
            DelayVerdict::Unknown => {},
            DelayVerdict::Low => {
                self.increase_events = self.increase_events.saturating_add(1);
            },
            DelayVerdict::High => {
                self.decrease_events = self.decrease_events.saturating_add(1);
            },
        }
    }

    /// Starts again at 0; gives what was counted.
    pub fn take_counters(&mut self) -> (out: CcUpdateCounters)
        ensures
            out == *old(self),
            *final(self) == (CcUpdateCounters {
                increase_events: 0,
                decrease_events: 0,
                loss_decrease_events: 0,
            }),
    {
        let out: CcUpdateCounters = *self;
        *self = CcUpdateCounters::default();
        out
    }
}

/// What is known of a packet that a peer is to be sent.
#[derive(Clone, Copy, Debug, PartialEq, Eq, Structural)]
pub struct SendTerms {
    /// There is a rate for the peer.
    pub known: bool,
    /// The packet waited longer than is allowed.
    pub waited: bool,
    /// The peer's tokens cover the packet.
    pub covered: bool,
    /// The packet is longer than all tokens that a peer can have.
    pub oversized: bool,
    /// The peer has some tokens.
    pub some_tokens: bool,
}

/// The packet may be sent now.
pub open spec fn sendable(enabled: bool, t: SendTerms) -> bool {
    !enabled || !t.known || t.waited || t.covered || (t.oversized && t.some_tokens)
}

/// Whether a packet may be sent now.
pub fn may_send(enabled: bool, t: SendTerms) -> (b: bool)
    ensures
        b == sendable(enabled, t),
{
    !enabled || !t.known || t.waited || t.covered || (t.oversized && t.some_tokens)
}

} // verus!
