//! Producer and subscriber session logic.
//!
//! A producer session passes one authentication gate, then feeds parsed
//! records into its tenant's pending buffer while an independent
//! fixed-interval flush drains the buffer through the coalescer and hands
//! the batch to fanout.  A subscriber session attaches, forwards queued
//! frames, and detaches.  The connection plumbing and task supervision run
//! outside; the decisions they drive are the functions and transition
//! tables here.

use vstd::prelude::*;

use crate::coalesce::{coalesce, coalesce_seq};
use crate::codec::{batch_bytes, encode_batch, is_record_encoding, parse_record};
use crate::registry::{find_org, lemma_find_org, Org, Registry};
use crate::update::{views_of, UpdateRecord, UpdateRecordView};
use crate::wire::{queued_frames, Frame, FrameView};

verus! {

/// True when the presented credential equals the configured shared secret,
/// compared in full; an absent credential never passes.
pub open spec fn credential_ok(credential: Option<&String>, secret: &String) -> bool {
    match credential {
        Some(c) => c@ == secret@,
        None => false,
    }
}

/// The authentication check alone, with no effect on any state: true
/// exactly when the presented credential equals the shared secret.  The
/// transport layer asks this before upgrading a connection; the
/// authoritative gate-and-attach is [`Registry::producer_connect`].
pub fn credential_matches(credential: Option<&String>, secret: &String) -> (ok: bool)
    ensures
        ok == credential_ok(credential, secret),
{
    match credential {
        Some(c) => *c == *secret,
        None => false,
    }
}

impl Registry {
    /// The producer's authentication gate and attach, in one step: on a
    /// matching credential the tenant's org (created on first touch) gets
    /// `producer_connected` set; on a missing or wrong credential the
    /// registry is left exactly as it was, so a rejected producer has no
    /// side effect.
    pub fn producer_connect(&mut self, tenant: &String, credential: Option<&String>, secret:
        &String) -> (ok: bool)
        requires
            old(self).wf(),
        ensures
            final(self).wf(),
            ok == credential_ok(credential, secret),
            !ok ==> *final(self) == *old(self),
            final(self).next_client_id == old(self).next_client_id,
            ok && old(self).has_tenant(tenant@) ==> {
                let i = find_org(old(self).orgs@, tenant@);
                &&& final(self).orgs@.len() == old(self).orgs@.len()
                &&& find_org(final(self).orgs@, tenant@) == i
                &&& forall|j: int|
                    0 <= j < old(self).orgs@.len() && j != i ==> final(self).orgs@[j] == old(
                        self,
                    ).orgs@[j]
                &&& final(self).orgs@[i].id == old(self).orgs@[i].id
                &&& final(self).orgs@[i].producer_connected == true
                &&& final(self).orgs@[i].subscribers == old(self).orgs@[i].subscribers
            },
            ok && !old(self).has_tenant(tenant@) ==> {
                &&& final(self).orgs@.len() == old(self).orgs@.len() + 1
                &&& forall|j: int|
                    0 <= j < old(self).orgs@.len() ==> final(self).orgs@[j] == old(self).orgs@[j]
                &&& final(self).orgs@.last().id@ == tenant@
                &&& final(self).orgs@.last().producer_connected == true
                &&& final(self).orgs@.last().subscribers@.len() == 0
            },
    {
        let presented_ok = match credential {
            Some(c) => *c == *secret,
            None => false,
        };
        if !presented_ok {
            return false;
        }
        proof {
            lemma_find_org(self.orgs@, tenant@);
        }
        match self.get(tenant) {
            Some(i) => {
                let org = &mut self.orgs[i];
                org.producer_connected = true;
                proof {
                    lemma_find_org(self.orgs@, tenant@);
                    assert(self.orgs@[i as int].id@ == tenant@);
                    let f = find_org(self.orgs@, tenant@);
                    if f < i {
                        assert(self.orgs@[f].id@ == tenant@);
                    }
                }
            },
            None => {
                let org = Org {
                    id: tenant.clone(),
                    subscribers: Vec::new(),
                    producer_connected: true,
                };
                self.orgs.push(org);
                proof {
                    assert(forall|j: int|
                        0 <= j < old(self).orgs@.len() ==> #[trigger] self.orgs@[j] == old(
                            self,
                        ).orgs@[j]);
                }
            },
        }
        true
    }

    /// The producer went away: the org keeps running for its subscribers,
    /// each of whom is sent one final close notification, and the org is
    /// removed when no subscriber remains.  An unknown tenant means there
    /// is nothing to do.
    pub fn producer_disconnect(&mut self, tenant: &String) -> (delivered: Vec<bool>)
        requires
            old(self).wf(),
        ensures
            final(self).wf(),
            final(self).next_client_id == old(self).next_client_id,
            !old(self).has_tenant(tenant@) ==> *final(self) == *old(self) && delivered@.len()
                == 0,
            old(self).has_tenant(tenant@) ==> {
                let i = find_org(old(self).orgs@, tenant@);
                let subs = old(self).orgs@[i].subscribers@;
                &&& delivered@.len() == subs.len()
                &&& if subs.len() == 0 {
                    final(self).orgs@ == old(self).orgs@.remove(i) && !final(self).has_tenant(
                        tenant@,
                    )
                } else {
                    &&& final(self).orgs@.len() == old(self).orgs@.len()
                    &&& find_org(final(self).orgs@, tenant@) == i
                    &&& forall|j: int|
                        0 <= j < old(self).orgs@.len() && j != i ==> final(self).orgs@[j] == old(
                            self,
                        ).orgs@[j]
                    &&& final(self).orgs@[i].id == old(self).orgs@[i].id
                    &&& final(self).orgs@[i].producer_connected == false
                    &&& final(self).orgs@[i].subscribers@.len() == subs.len()
                    &&& forall|j: int|
                        0 <= j < subs.len() ==> (#[trigger] final(self).orgs@[i].subscribers@[j]).client_id == subs[j].client_id
                    &&& forall|j: int|
                        0 <= j < subs.len() && delivered@[j] ==> queued_frames(
                            (#[trigger] final(self).orgs@[i].subscribers@[j]).outbound,
                        ) == queued_frames(subs[j].outbound).push(FrameView::ProducerClosed)
                    &&& forall|j: int|
                        0 <= j < subs.len() && !delivered@[j] ==> queued_frames(
                            (#[trigger] final(self).orgs@[i].subscribers@[j]).outbound,
                        ) == queued_frames(subs[j].outbound)
                }
            },
    {
        proof {
            lemma_find_org(self.orgs@, tenant@);
        }
        match self.get(tenant) {
            None => Vec::new(),
            Some(i) => {
                let ghost old_orgs = self.orgs@;
                let delivered;
                {
                    let org = &mut self.orgs[i];
                    org.producer_connected = false;
                    let frame = Frame::ProducerClosed;
                    delivered = org.deliver(&frame);
                }
                if self.orgs[i].subscribers.len() == 0 {
                    self.orgs.remove(i);
                    proof {
                        lemma_find_org(self.orgs@, tenant@);
                        assert forall|j: int| 0 <= j < self.orgs@.len() implies (
                        #[trigger] self.orgs@[j]).id@ != tenant@ by {
                            if j < i {
                                assert(self.orgs@[j] == old_orgs[j]);
                            } else {
                                assert(self.orgs@[j] == old_orgs[j + 1]);
                            }
                        }
                        assert(self.orgs@ =~= old_orgs.remove(i as int));
                    }
                } else {
                    proof {
                        lemma_find_org(self.orgs@, tenant@);
                        assert(self.orgs@[i as int].id@ == tenant@);
                        let f = find_org(self.orgs@, tenant@);
                        if f < i {
                            assert(self.orgs@[f].id@ == tenant@);
                        }
                    }
                }
                delivered
            },
        }
    }
}

/// Subscriber session lifecycle: `Connecting` → `Attached` → `Draining` →
/// `Closed`.
#[derive(Clone, Copy, Debug, PartialEq, Eq, Structural)]
pub enum SubscriberPhase {
    Connecting,
    Attached,
    Draining,
    Closed,
}

/// What one of a subscriber session's two duties just observed.
#[derive(Clone, Copy, Debug, PartialEq, Eq, Structural)]
pub enum SubscriberEvent {
    /// The session registered itself with the tenant's org.
    Attached,
    /// The writer took one frame off the outbound queue.
    QueueFrame,
    /// The outbound queue was closed under the writer.
    QueueClosed,
    /// Writing a frame to the connection failed.
    WriteFailed,
    /// The reader saw an inbound text frame; subscribers are receive-only,
    /// so it carries no meaning for relay state.
    InboundText,
    /// The reader saw a close frame.
    InboundClose,
    /// Reading from the connection failed.
    ReadFailed,
    /// The surviving duty was cancelled.
    SiblingCancelled,
}

/// What the surrounding session runner must do next.
#[derive(Clone, Copy, Debug, PartialEq, Eq, Structural)]
pub enum SubscriberAction {
    /// Nothing; the event is inert in this phase.
    Ignore,
    /// Write the frame taken from the queue onto the connection.
    ForwardFrame,
    /// Log the observation; it has no effect on relay state.
    LogOnly,
    /// Cancel the sibling duty at once; no further writes.
    CancelSibling,
    /// Remove this subscriber from the org, then drop the org if it is
    /// empty and producer-less.
    DetachFromOrg,
}

/// The subscriber session's transition table.  Whichever duty finishes
/// first (close, error, or queue closure) starts draining; the cancelled
/// sibling then detaches the session from the registry.
pub open spec fn spec_subscriber_step(phase: SubscriberPhase, event: SubscriberEvent) -> (
    SubscriberPhase,
    SubscriberAction,
) {
    match (phase, event) {
        (SubscriberPhase::Connecting, SubscriberEvent::Attached) => (
            SubscriberPhase::Attached,
            SubscriberAction::Ignore,
        ),
        (SubscriberPhase::Attached, SubscriberEvent::QueueFrame) => (
            SubscriberPhase::Attached,
            SubscriberAction::ForwardFrame,
        ),
        (SubscriberPhase::Attached, SubscriberEvent::InboundText) => (
            SubscriberPhase::Attached,
            SubscriberAction::LogOnly,
        ),
        (SubscriberPhase::Attached, SubscriberEvent::QueueClosed) => (
            SubscriberPhase::Draining,
            SubscriberAction::CancelSibling,
        ),
        (SubscriberPhase::Attached, SubscriberEvent::WriteFailed) => (
            SubscriberPhase::Draining,
            SubscriberAction::CancelSibling,
        ),
        (SubscriberPhase::Attached, SubscriberEvent::InboundClose) => (
            SubscriberPhase::Draining,
            SubscriberAction::CancelSibling,
        ),
        (SubscriberPhase::Attached, SubscriberEvent::ReadFailed) => (
            SubscriberPhase::Draining,
            SubscriberAction::CancelSibling,
        ),
        (SubscriberPhase::Draining, SubscriberEvent::SiblingCancelled) => (
            SubscriberPhase::Closed,
            SubscriberAction::DetachFromOrg,
        ),
        (p, _) => (p, SubscriberAction::Ignore),
    }
}

/// Steps a subscriber session by one observed event.
pub fn subscriber_step(phase: SubscriberPhase, event: SubscriberEvent) -> (r: (
    SubscriberPhase,
    SubscriberAction,
))
    ensures
        r == spec_subscriber_step(phase, event),
{
    match (phase, event) {
        (SubscriberPhase::Connecting, SubscriberEvent::Attached) => (
            SubscriberPhase::Attached,
            SubscriberAction::Ignore,
        ),
        (SubscriberPhase::Attached, SubscriberEvent::QueueFrame) => (
            SubscriberPhase::Attached,
            SubscriberAction::ForwardFrame,
        ),
        (SubscriberPhase::Attached, SubscriberEvent::InboundText) => (
            SubscriberPhase::Attached,
            SubscriberAction::LogOnly,
        ),
        (SubscriberPhase::Attached, SubscriberEvent::QueueClosed) => (
            SubscriberPhase::Draining,
            SubscriberAction::CancelSibling,
        ),
        (SubscriberPhase::Attached, SubscriberEvent::WriteFailed) => (
            SubscriberPhase::Draining,
            SubscriberAction::CancelSibling,
        ),
        (SubscriberPhase::Attached, SubscriberEvent::InboundClose) => (
            SubscriberPhase::Draining,
            SubscriberAction::CancelSibling,
        ),
        (SubscriberPhase::Attached, SubscriberEvent::ReadFailed) => (
            SubscriberPhase::Draining,
            SubscriberAction::CancelSibling,
        ),
        (SubscriberPhase::Draining, SubscriberEvent::SiblingCancelled) => (
            SubscriberPhase::Closed,
            SubscriberAction::DetachFromOrg,
        ),
        (p, _) => (p, SubscriberAction::Ignore),
    }
}

/// Producer session lifecycle: the authentication gate, then the running
/// ingest/flush pair, then teardown.
#[derive(Clone, Copy, Debug, PartialEq, Eq, Structural)]
pub enum ProducerPhase {
    Authenticating,
    Running,
    Stopping,
    Stopped,
    Rejected,
}

/// What one of a producer session's duties just observed.
#[derive(Clone, Copy, Debug, PartialEq, Eq, Structural)]
pub enum ProducerEvent {
    /// The credential matched the shared secret.
    AuthAccepted,
    /// The credential was missing or wrong.
    AuthRejected,
    /// An inbound message parsed as an update record.
    RecordParsed,
    /// An inbound message did not parse; it is skipped, never fatal.
    RecordRejected,
    /// The fixed-interval flush timer fired.
    FlushTick,
    /// The producer closed the connection, or reading from it failed.
    ConnectionEnded,
    /// The surviving duty was cancelled.
    SiblingCancelled,
}

/// What the surrounding session runner must do next.
#[derive(Clone, Copy, Debug, PartialEq, Eq, Structural)]
pub enum ProducerAction {
    /// Nothing; the event is inert in this phase.
    Ignore,
    /// Mark the producer attached on the (lazily created) org.
    MarkAttached,
    /// Answer unauthorized and upgrade nothing; no relay state was touched.
    RefuseUnauthorized,
    /// Append the parsed record to the tenant's pending buffer.
    AppendPending,
    /// Log the parse failure and carry on.
    LogOnly,
    /// Drain, coalesce and broadcast the pending buffer.
    FlushPending,
    /// Cancel the sibling duty at once.
    CancelSibling,
    /// Clear the producer flag, notify the remaining subscribers, and drop
    /// the org if nobody is left.
    AnnounceDisconnect,
}

/// The producer session's transition table.  Exactly one authentication
/// check guards the session; whichever duty (ingest or flush) finishes
/// first cancels the other, and teardown propagates the disconnect.
pub open spec fn spec_producer_step(phase: ProducerPhase, event: ProducerEvent) -> (
    ProducerPhase,
    ProducerAction,
) {
    match (phase, event) {
        (ProducerPhase::Authenticating, ProducerEvent::AuthAccepted) => (
            ProducerPhase::Running,
            ProducerAction::MarkAttached,
        ),
        (ProducerPhase::Authenticating, ProducerEvent::AuthRejected) => (
            ProducerPhase::Rejected,
            ProducerAction::RefuseUnauthorized,
        ),
        (ProducerPhase::Running, ProducerEvent::RecordParsed) => (
            ProducerPhase::Running,
            ProducerAction::AppendPending,
        ),
        (ProducerPhase::Running, ProducerEvent::RecordRejected) => (
            ProducerPhase::Running,
            ProducerAction::LogOnly,
        ),
        (ProducerPhase::Running, ProducerEvent::FlushTick) => (
            ProducerPhase::Running,
            ProducerAction::FlushPending,
        ),
        (ProducerPhase::Running, ProducerEvent::ConnectionEnded) => (
            ProducerPhase::Stopping,
            ProducerAction::CancelSibling,
        ),
        (ProducerPhase::Stopping, ProducerEvent::SiblingCancelled) => (
            ProducerPhase::Stopped,
            ProducerAction::AnnounceDisconnect,
        ),
        (p, _) => (p, ProducerAction::Ignore),
    }
}

/// Steps a producer session by one observed event.
pub fn producer_step(phase: ProducerPhase, event: ProducerEvent) -> (r: (
    ProducerPhase,
    ProducerAction,
))
    ensures
        r == spec_producer_step(phase, event),
{
    match (phase, event) {
        (ProducerPhase::Authenticating, ProducerEvent::AuthAccepted) => (
            ProducerPhase::Running,
            ProducerAction::MarkAttached,
        ),
        (ProducerPhase::Authenticating, ProducerEvent::AuthRejected) => (
            ProducerPhase::Rejected,
            ProducerAction::RefuseUnauthorized,
        ),
        (ProducerPhase::Running, ProducerEvent::RecordParsed) => (
            ProducerPhase::Running,
            ProducerAction::AppendPending,
        ),
        (ProducerPhase::Running, ProducerEvent::RecordRejected) => (
            ProducerPhase::Running,
            ProducerAction::LogOnly,
        ),
        (ProducerPhase::Running, ProducerEvent::FlushTick) => (
            ProducerPhase::Running,
            ProducerAction::FlushPending,
        ),
        (ProducerPhase::Running, ProducerEvent::ConnectionEnded) => (
            ProducerPhase::Stopping,
            ProducerAction::CancelSibling,
        ),
        (ProducerPhase::Stopping, ProducerEvent::SiblingCancelled) => (
            ProducerPhase::Stopped,
            ProducerAction::AnnounceDisconnect,
        ),
        (p, _) => (p, ProducerAction::Ignore),
    }
}

/// What one flush tick amounted to.
#[derive(Debug, PartialEq, Eq)]
pub enum FlushOutcome {
    /// Nothing had arrived in this window; no frame was sent.
    Idle,
    /// Updates were pending but the tenant has no entry: nothing to
    /// deliver to.
    NoTenant,
    /// One batch frame went to fanout; one flag per subscriber says
    /// whether its enqueue succeeded.
    Sent(Vec<bool>),
}

/// Ingests one inbound producer message.  A message spelling a well-formed
/// update record is accepted, if and only if: the record is appended at the
/// buffer's tail, arrival order preserved.  Anything else is rejected and
/// the buffer left alone (the caller logs and carries on; a bad message is
/// never fatal to the session).
pub fn ingest_update(pending: &mut Vec<UpdateRecord>, text: &Vec<u8>) -> (accepted: bool)
    ensures
        accepted <==> (exists|v: UpdateRecordView| v.wf() && is_record_encoding(text@, v)),
        accepted ==> {
            &&& final(pending)@.len() == old(pending)@.len() + 1
            &&& forall|j: int|
                0 <= j < old(pending)@.len() ==> final(pending)@[j] == old(pending)@[j]
            &&& final(pending)@.last()@.wf()
            &&& is_record_encoding(text@, final(pending)@.last()@)
        },
        !accepted ==> *final(pending) == *old(pending),
{
    match parse_record(text) {
        Some(rec) => {
            pending.push(rec);
            true
        },
        None => false,
    }
}

impl Registry {
    /// One tick of the fixed-interval flush: drain everything that arrived
    /// in this window, coalesce it, and when anything is left hand the one
    /// encoded batch frame to fanout for this tenant.  An empty drain sends
    /// nothing; an unknown tenant has nothing to deliver to.  The buffer is
    /// empty afterwards in every case.
    pub fn flush_tenant(&mut self, tenant: &String, pending: &mut Vec<UpdateRecord>) -> (outcome:
        FlushOutcome)
        requires
            old(self).wf(),
        ensures
            final(self).wf(),
            final(self).next_client_id == old(self).next_client_id,
            final(pending)@.len() == 0,
            match outcome {
                FlushOutcome::Idle => old(pending)@.len() == 0 && *final(self) == *old(self),
                FlushOutcome::NoTenant => old(pending)@.len() > 0 && !old(self).has_tenant(
                    tenant@,
                ) && *final(self) == *old(self),
                FlushOutcome::Sent(delivered) => old(pending)@.len() > 0 && old(self).has_tenant(
                    tenant@,
                ) && {
                    let i = find_org(old(self).orgs@, tenant@);
                    let subs = old(self).orgs@[i].subscribers@;
                    let frame = FrameView::Batch(
                        batch_bytes(coalesce_seq(views_of(old(pending)@))),
                    );
                    &&& delivered@.len() == subs.len()
                    &&& final(self).orgs@.len() == old(self).orgs@.len()
                    &&& find_org(final(self).orgs@, tenant@) == i
                    &&& forall|j: int|
                        0 <= j < old(self).orgs@.len() && j != i ==> final(self).orgs@[j] == old(
                            self,
                        ).orgs@[j]
                    &&& final(self).orgs@[i].id == old(self).orgs@[i].id
                    &&& final(self).orgs@[i].producer_connected == old(
                        self,
                    ).orgs@[i].producer_connected
                    &&& final(self).orgs@[i].subscribers@.len() == subs.len()
                    &&& forall|j: int|
                        0 <= j < subs.len() ==> (#[trigger] final(self).orgs@[i].subscribers@[j]).client_id == subs[j].client_id
                    &&& forall|j: int|
                        0 <= j < subs.len() && delivered@[j] ==> queued_frames(
                            (#[trigger] final(self).orgs@[i].subscribers@[j]).outbound,
                        ) == queued_frames(subs[j].outbound).push(frame)
                    &&& forall|j: int|
                        0 <= j < subs.len() && !delivered@[j] ==> queued_frames(
                            (#[trigger] final(self).orgs@[i].subscribers@[j]).outbound,
                        ) == queued_frames(subs[j].outbound)
                },
            },
    {
        if pending.len() == 0 {
            return FlushOutcome::Idle;
        }
        let mut drained: Vec<UpdateRecord> = Vec::new();
        core::mem::swap(pending, &mut drained);
        let merged = coalesce(drained);
        let enc = encode_batch(&merged);
        let frame = Frame::Batch(enc);
        proof {
            lemma_find_org(self.orgs@, tenant@);
        }
        match self.get(tenant) {
            None => FlushOutcome::NoTenant,
            Some(i) => {
                let ghost old_orgs = self.orgs@;
                let delivered;
                {
                    let org = &mut self.orgs[i];
                    delivered = org.deliver(&frame);
                }
                proof {
                    lemma_find_org(self.orgs@, tenant@);
                    assert(self.orgs@[i as int].id@ == tenant@);
                    let f = find_org(self.orgs@, tenant@);
                    if f < i {
                        assert(self.orgs@[f].id@ == tenant@);
                    }
                }
                FlushOutcome::Sent(delivered)
            },
        }
    }
}

} // verus!
