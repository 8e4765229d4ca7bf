//! Outbound frames and the subscriber queues they travel on.
//!
//! Each subscriber owns one unbounded, ordered queue; the relay enqueues
//! frames without blocking and the connection's writer drains them at its
//! own pace.  The queue is tokio's unbounded channel, taken on trust behind
//! the narrow contract of [`send_frame`].

use vstd::prelude::*;

use tokio::sync::mpsc::UnboundedSender;

verus! {

/// One outbound wire unit: a coalesced batch frame, or the notification
/// that the tenant's producer went away.
#[derive(Debug, PartialEq, Eq)]
pub enum Frame {
    Batch(Vec<u8>),
    ProducerClosed,
}

/// Mathematical image of a [`Frame`].
pub ghost enum FrameView {
    Batch(Seq<u8>),
    ProducerClosed,
}

impl View for Frame {
    type V = FrameView;

    open spec fn view(&self) -> FrameView {
        match self {
            Frame::Batch(bytes) => FrameView::Batch(bytes@),
            Frame::ProducerClosed => FrameView::ProducerClosed,
        }
    }
}

impl Clone for Frame {
    fn clone(&self) -> (r: Frame)
        ensures
            r@ == self@,
    {
        match self {
            Frame::Batch(bytes) => {
                let mut copy: Vec<u8> = Vec::new();
                let mut i: usize = 0;
                while i < bytes.len()
                    invariant
                        i <= bytes@.len(),
                        copy@ == bytes@.subrange(0, i as int),
                    decreases bytes@.len() - i,
                {
                    copy.push(bytes[i]);
                    i += 1;
                    proof {
                        assert(copy@ =~= bytes@.subrange(0, i as int));
                    }
                }
                proof {
                    assert(copy@ =~= bytes@);
                }
                Frame::Batch(copy)
            },
            Frame::ProducerClosed => Frame::ProducerClosed,
        }
    }
}

#[verifier::external_type_specification]
#[verifier::external_body]
#[verifier::reject_recursive_types(T)]
pub struct ExUnboundedSender<T>(UnboundedSender<T>);

/// The frames enqueued through this send endpoint so far, oldest first.
pub uninterp spec fn queued_frames(tx: UnboundedSender<Frame>) -> Seq<FrameView>;

/// Relies on `tokio::sync::mpsc::UnboundedSender::send`: enqueueing on an
/// unbounded channel never blocks, appends the message in order when the
/// receive half is still open, and returns an error leaving the queue
/// untouched when the receiver is gone.
#[verifier::external_body]
pub(crate) fn send_frame(tx: &mut UnboundedSender<Frame>, frame: Frame) -> (ok: bool)
    ensures
        ok ==> queued_frames(*final(tx)) == queued_frames(*old(tx)).push(frame@),
        !ok ==> queued_frames(*final(tx)) == queued_frames(*old(tx)),
{
    tx.send(frame).is_ok()
}

} // verus!
