//! Progress reporting: a single-producer queue of progress events.
//!
//! One operation (send or receive) owns one stream; the phases of the
//! operation push events into it and the host drains it at its own cadence
//! with a non-blocking poll. An inactive stream is a valid, cheap
//! configuration: every emit on it is a no-op.

use vstd::prelude::*;

verus! {

/// The phase of an operation that a progress event belongs to.
#[derive(Clone, Copy, Debug, PartialEq, Eq, Structural)]
pub enum ProgressOperation {
    Import,
    Export,
    Download,
    Connect,
}

/// One progress event: a phase, a position within the phase, the size of the
/// phase, and a human-readable message. `current == total` signals that the
/// phase is complete.
#[derive(Clone, Debug)]
pub struct ProgressInfo {
    pub operation: ProgressOperation,
    pub current: u64,
    pub total: u64,
    pub message: String,
}

/// Within one phase, events never go backwards: each `current` is at least
/// the one before it, every `current` stays within `total`, and the last
/// event completes the phase.
pub open spec fn phase_monotone(evs: Seq<ProgressInfo>) -> bool {
    &&& forall|i: int, j: int|
        0 <= i <= j < evs.len() ==> #[trigger] evs[i].current <= #[trigger] evs[j].current
    &&& forall|i: int| 0 <= i < evs.len() ==> #[trigger] evs[i].current <= evs[i].total
    &&& evs.len() > 0 ==> evs.last().current == evs.last().total
}

/// A first-in-first-out queue of progress events with a single producer.
///
/// `active == false` disables reporting: emitting is then a no-op that never
/// blocks and never errors.
pub struct ProgressStream {
    active: bool,
    events: Vec<ProgressInfo>,
}

impl ProgressStream {
    /// The pending events, oldest first.
    pub closed spec fn view(&self) -> Seq<ProgressInfo> {
        self.events@
    }

    /// Whether emitting on this stream records events.
    pub closed spec fn is_active(&self) -> bool {
        self.active
    }

    /// A stream that records every event emitted on it.
    pub fn new() -> (r: ProgressStream)
        ensures
            r@ == Seq::<ProgressInfo>::empty(),
            r.is_active(),
    {
        ProgressStream { active: true, events: Vec::new() }
    }

    /// A stream that ignores every event emitted on it: progress reporting
    /// disabled for the operation that holds it.
    pub fn disabled() -> (r: ProgressStream)
        ensures
            r@ == Seq::<ProgressInfo>::empty(),
            !r.is_active(),
    {
        ProgressStream { active: false, events: Vec::new() }
    }

    /// Append one event; a no-op on an inactive stream.
    pub fn emit(&mut self, info: ProgressInfo)
        ensures
            final(self)@ == if old(self).is_active() {
                old(self)@.push(info)
            } else {
                old(self)@
            },
            final(self).is_active() == old(self).is_active(),
    {
        if self.active {
            self.events.push(info);
        }
    }

    /// Non-blocking poll: the oldest pending event, if any.
    pub fn try_recv(&mut self) -> (r: Option<ProgressInfo>)
        ensures
            final(self).is_active() == old(self).is_active(),
            old(self)@.len() == 0 ==> r is None && final(self)@ == old(self)@,
            old(self)@.len() > 0 ==> {
                &&& r == Some(old(self)@[0])
                &&& final(self)@ == old(self)@.drop_first()
            },
    {
        if self.events.len() == 0 {
            None
        } else {
            Some(self.events.remove(0))
        }
    }

    /// How many events are pending.
    pub fn pending(&self) -> (r: usize)
        ensures
            r == self@.len(),
    {
        self.events.len()
    }
}

} // verus!
