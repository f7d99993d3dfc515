//! The staging queue between the real-time tracker and the MIDI sink:
//! bounded, drop-oldest on overflow, with a counter of every event lost
//! to overflow or to a failed send.

use vstd::prelude::*;
use crate::events::NoteEvent;

verus! {

/// Error reported by the virtual MIDI driver: the OS error code of the
/// failed call.
#[derive(Clone, Copy, Debug, PartialEq, Eq, Structural)]
pub struct VirtualMidiError(pub u32);

/// Bounded queue of note events awaiting the sink writer. The polling
/// path pushes and must never block: when the queue is full the oldest
/// event is dropped and counted, since a stale note event is musically
/// worse than none.
#[derive(Debug)]
pub struct SinkQueue {
    pub buf: Vec<NoteEvent>,
    pub cap: usize,
    pub dropped: u64,
}

impl SinkQueue {
    /// The queue never holds more than its bound.
    pub open spec fn wf(self) -> bool {
        &&& self.cap >= 1
        &&& self.buf@.len() <= self.cap
    }

    /// An empty queue with the given bound.
    pub fn new(cap: usize) -> (q: SinkQueue)
        requires
            cap >= 1,
        ensures
            q.wf(),
            q.cap == cap,
            q.buf@ == Seq::<NoteEvent>::empty(),
            q.dropped == 0,
    {
        SinkQueue { buf: Vec::new(), cap, dropped: 0 }
    }

    /// Enqueues an event for the writer. A full queue loses its oldest
    /// event, which is counted as dropped.
    pub fn push(&mut self, ev: NoteEvent)
        requires
            old(self).wf(),
        ensures
            final(self).wf(),
            final(self).cap == old(self).cap,
            old(self).buf@.len() < old(self).cap ==> final(self).buf@ == old(self).buf@.push(ev)
                && final(self).dropped == old(self).dropped,
            old(self).buf@.len() >= old(self).cap ==> final(self).buf@ == old(
                self,
            ).buf@.drop_first().push(ev) && final(self).dropped as int == spec_count_drop(
                old(self).dropped,
            ),
    {
        if self.buf.len() >= self.cap {
            self.buf.remove(0);
            proof {
                assert(old(self).buf@.remove(0) =~= old(self).buf@.drop_first());
            }
            if self.dropped < u64::MAX {
                self.dropped += 1;
            }
        }
        self.buf.push(ev);
    }

    /// Dequeues the oldest event for the writer to send.
    pub fn pop(&mut self) -> (r: Option<NoteEvent>)
        requires
            old(self).wf(),
        ensures
            final(self).wf(),
            final(self).cap == old(self).cap,
            final(self).dropped == old(self).dropped,
            old(self).buf@.len() == 0 ==> r is None && final(self).buf@ == old(self).buf@,
            old(self).buf@.len() > 0 ==> r == Some(old(self).buf@[0]) && final(self).buf@ == old(
                self,
            ).buf@.drop_first(),
    {
        if self.buf.len() == 0 {
            None
        } else {
            let ev = self.buf.remove(0);
            proof {
                assert(old(self).buf@.remove(0) =~= old(self).buf@.drop_first());
            }
            Some(ev)
        }
    }

    /// Records the sink's answer for an event already handed to it: a
    /// failed send loses that one event, which is counted, and the
    /// engine carries on — a send failure is transient, never fatal.
    pub fn record_send_result(&mut self, outcome: &Result<(), VirtualMidiError>)
        requires
            old(self).wf(),
        ensures
            final(self).wf(),
            final(self).cap == old(self).cap,
            final(self).buf@ == old(self).buf@,
            outcome is Ok ==> final(self).dropped == old(self).dropped,
            outcome is Err ==> final(self).dropped as int == spec_count_drop(old(self).dropped),
    {
        match outcome {
            Ok(()) => {},
            Err(_) => {
                if self.dropped < u64::MAX {
                    self.dropped += 1;
                }
            },
        }
    }
}

/// One more lost event: the drop counter grows by one and pins at the
/// counter type's ceiling rather than wrapping.
pub open spec fn spec_count_drop(dropped: u64) -> int {
    if dropped < u64::MAX {
        dropped + 1
    } else {
        dropped as int
    }
}

} // verus!
