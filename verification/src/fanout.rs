//! Broadcast fanout: one frame to every subscriber of a tenant.
//!
//! Delivery is strictly best-effort and never blocks: each enqueue either
//! appends the frame to that subscriber's unbounded queue or fails alone,
//! because that queue's receiver is already gone.  One failed subscriber
//! never keeps the frame from the others.

use vstd::prelude::*;

use crate::registry::{Org, Subscriber};
use crate::wire::{queued_frames, send_frame, Frame};

verus! {

impl Org {
    /// Attempts to enqueue the frame once onto every subscriber attached at
    /// the moment of the call, in connection order, and reports per
    /// subscriber whether the enqueue succeeded.  A failure for one
    /// subscriber does not abort delivery to the rest; nothing is retried.
    pub fn deliver(&mut self, frame: &Frame) -> (delivered: Vec<bool>)
        ensures
            delivered@.len() == old(self).subscribers@.len(),
            final(self).id == old(self).id,
            final(self).producer_connected == old(self).producer_connected,
            final(self).subscribers@.len() == old(self).subscribers@.len(),
            forall|j: int|
                0 <= j < old(self).subscribers@.len() ==> (#[trigger] final(self).subscribers@[j]).client_id == old(self).subscribers@[j].client_id,

            forall|j: int|
                0 <= j < old(self).subscribers@.len() && delivered@[j] ==> queued_frames(
                    (#[trigger] final(self).subscribers@[j]).outbound,
                ) == queued_frames(old(self).subscribers@[j].outbound).push(frame@),
            forall|j: int|
                0 <= j < old(self).subscribers@.len() && !delivered@[j] ==> queued_frames(
                    (#[trigger] final(self).subscribers@[j]).outbound,
                ) == queued_frames(old(self).subscribers@[j].outbound),
    {
        let ghost subs0 = self.subscribers@;
        let mut done: Vec<Subscriber> = Vec::new();
        let mut delivered: Vec<bool> = Vec::new();
        while self.subscribers.len() > 0
            invariant
                done@.len() == delivered@.len(),
                done@.len() + self.subscribers@.len() == subs0.len(),
                self.subscribers@ == subs0.subrange(done@.len() as int, subs0.len() as int),
                self.id == old(self).id,
                self.producer_connected == old(self).producer_connected,
                subs0 == old(self).subscribers@,
                forall|j: int|
                    0 <= j < done@.len() ==> (#[trigger] done@[j]).client_id
                        == subs0[j].client_id,
                forall|j: int|
                    0 <= j < done@.len() && delivered@[j] ==> queued_frames(
                        (#[trigger] done@[j]).outbound,
                    ) == queued_frames(subs0[j].outbound).push(frame@),
                forall|j: int|
                    0 <= j < done@.len() && !delivered@[j] ==> queued_frames(
                        (#[trigger] done@[j]).outbound,
                    ) == queued_frames(subs0[j].outbound),
            decreases self.subscribers@.len(),
        {
            let ghost k = done@.len() as int;
            let ghost before = self.subscribers@;
            let mut sub = self.subscribers.remove(0);
            proof {
                assert(sub == subs0[k]);
                assert(self.subscribers@ =~= subs0.subrange(k + 1, subs0.len() as int));
            }
            let ok = send_frame(&mut sub.outbound, frame.clone());
            done.push(sub);
            delivered.push(ok);
        }
        self.subscribers = done;
        delivered
    }
}

} // verus!
