use relay::scene::MeshType;
use relay::session::{
    producer_step, subscriber_step, ProducerAction, ProducerEvent, ProducerPhase,
    SubscriberAction, SubscriberEvent, SubscriberPhase,
};

#[test]
fn subscriber_attaches_then_forwards() {
    let (p, a) = subscriber_step(SubscriberPhase::Connecting, SubscriberEvent::Attached);
    assert_eq!(p, SubscriberPhase::Attached);
    assert_eq!(a, SubscriberAction::Ignore);
    let (p, a) = subscriber_step(p, SubscriberEvent::QueueFrame);
    assert_eq!(p, SubscriberPhase::Attached);
    assert_eq!(a, SubscriberAction::ForwardFrame);
}

#[test]
fn subscriber_inbound_text_is_inert() {
    let (p, a) = subscriber_step(SubscriberPhase::Attached, SubscriberEvent::InboundText);
    assert_eq!(p, SubscriberPhase::Attached);
    assert_eq!(a, SubscriberAction::LogOnly);
}

#[test]
fn subscriber_drains_on_close_error_or_queue_end() {
    for event in [
        SubscriberEvent::InboundClose,
        SubscriberEvent::ReadFailed,
        SubscriberEvent::WriteFailed,
        SubscriberEvent::QueueClosed,
    ] {
        let (p, a) = subscriber_step(SubscriberPhase::Attached, event);
        assert_eq!(p, SubscriberPhase::Draining);
        assert_eq!(a, SubscriberAction::CancelSibling);
    }
}

#[test]
fn subscriber_detaches_once_sibling_cancelled() {
    let (p, a) = subscriber_step(SubscriberPhase::Draining, SubscriberEvent::SiblingCancelled);
    assert_eq!(p, SubscriberPhase::Closed);
    assert_eq!(a, SubscriberAction::DetachFromOrg);
}

#[test]
fn closed_subscriber_ignores_everything() {
    let (p, a) = subscriber_step(SubscriberPhase::Closed, SubscriberEvent::QueueFrame);
    assert_eq!(p, SubscriberPhase::Closed);
    assert_eq!(a, SubscriberAction::Ignore);
}

#[test]
fn producer_auth_gate_decides_the_session() {
    let (p, a) = producer_step(ProducerPhase::Authenticating, ProducerEvent::AuthAccepted);
    assert_eq!(p, ProducerPhase::Running);
    assert_eq!(a, ProducerAction::MarkAttached);
    let (p, a) = producer_step(ProducerPhase::Authenticating, ProducerEvent::AuthRejected);
    assert_eq!(p, ProducerPhase::Rejected);
    assert_eq!(a, ProducerAction::RefuseUnauthorized);
}

#[test]
fn producer_parse_failures_are_not_fatal() {
    let (p, a) = producer_step(ProducerPhase::Running, ProducerEvent::RecordRejected);
    assert_eq!(p, ProducerPhase::Running);
    assert_eq!(a, ProducerAction::LogOnly);
}

#[test]
fn producer_runs_ingest_and_flush() {
    let (p, a) = producer_step(ProducerPhase::Running, ProducerEvent::RecordParsed);
    assert_eq!(p, ProducerPhase::Running);
    assert_eq!(a, ProducerAction::AppendPending);
    let (p, a) = producer_step(ProducerPhase::Running, ProducerEvent::FlushTick);
    assert_eq!(p, ProducerPhase::Running);
    assert_eq!(a, ProducerAction::FlushPending);
}

#[test]
fn producer_teardown_announces_disconnect() {
    let (p, a) = producer_step(ProducerPhase::Running, ProducerEvent::ConnectionEnded);
    assert_eq!(p, ProducerPhase::Stopping);
    assert_eq!(a, ProducerAction::CancelSibling);
    let (p, a) = producer_step(p, ProducerEvent::SiblingCancelled);
    assert_eq!(p, ProducerPhase::Stopped);
    assert_eq!(a, ProducerAction::AnnounceDisconnect);
}

#[test]
fn mesh_types_are_distinct() {
    assert_ne!(MeshType::Cube, MeshType::Sphere);
    assert_ne!(MeshType::Cylinder, MeshType::Plane);
    assert_eq!(MeshType::Cube, MeshType::Cube);
}
