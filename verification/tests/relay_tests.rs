use relay::registry::Registry;
use relay::session::{ingest_update, FlushOutcome};
use relay::update::UpdateRecord;
use relay::wire::Frame;

use tokio::sync::mpsc::error::TryRecvError;
use tokio::sync::mpsc::{unbounded_channel, UnboundedReceiver};

fn channel() -> (tokio::sync::mpsc::UnboundedSender<Frame>, UnboundedReceiver<Frame>) {
    unbounded_channel()
}

#[test]
fn attach_creates_org_without_producer() {
    let mut reg = Registry::new();
    let tenant = String::from("t1");
    let (tx, _rx) = channel();
    let id = reg.attach_subscriber(&tenant, tx);
    assert_eq!(id, 0);
    assert_eq!(reg.orgs.len(), 1);
    assert_eq!(reg.orgs[0].id, tenant);
    assert_eq!(reg.orgs[0].subscribers.len(), 1);
    assert!(!reg.orgs[0].producer_connected);
}

#[test]
fn client_ids_are_fresh_and_distinct() {
    let mut reg = Registry::new();
    let tenant = String::from("t1");
    let other = String::from("t2");
    let (tx1, _rx1) = channel();
    let (tx2, _rx2) = channel();
    let (tx3, _rx3) = channel();
    let a = reg.attach_subscriber(&tenant, tx1);
    let b = reg.attach_subscriber(&tenant, tx2);
    let c = reg.attach_subscriber(&other, tx3);
    assert_eq!((a, b, c), (0, 1, 2));
    assert_eq!(reg.orgs.len(), 2);
}

#[test]
fn last_detach_without_producer_removes_tenant() {
    // The tenant's last subscriber leaves while no producer is attached:
    // the registry forgets the tenant entirely.
    let mut reg = Registry::new();
    let tenant = String::from("t1");
    let (tx, _rx) = channel();
    let id = reg.attach_subscriber(&tenant, tx);
    let remaining = reg.detach_subscriber(&tenant, id);
    assert_eq!(remaining, Some(0));
    assert!(reg.get(&tenant).is_none());
    assert_eq!(reg.orgs.len(), 0);
}

#[test]
fn detach_keeps_tenant_while_others_remain() {
    let mut reg = Registry::new();
    let tenant = String::from("t1");
    let (tx1, _rx1) = channel();
    let (tx2, _rx2) = channel();
    let first = reg.attach_subscriber(&tenant, tx1);
    let _second = reg.attach_subscriber(&tenant, tx2);
    let remaining = reg.detach_subscriber(&tenant, first);
    assert_eq!(remaining, Some(1));
    assert!(reg.get(&tenant).is_some());
    assert_eq!(reg.orgs[0].subscribers.len(), 1);
}

#[test]
fn detach_keeps_tenant_while_producer_attached() {
    let mut reg = Registry::new();
    let tenant = String::from("t1");
    let secret = String::from("relay-test-token");
    assert!(reg.producer_connect(&tenant, Some(&secret), &secret));
    let (tx, _rx) = channel();
    let id = reg.attach_subscriber(&tenant, tx);
    let remaining = reg.detach_subscriber(&tenant, id);
    assert_eq!(remaining, Some(0));
    assert!(reg.get(&tenant).is_some());
    assert!(reg.orgs[0].producer_connected);
}

#[test]
fn detach_of_unknown_tenant_is_a_miss() {
    let mut reg = Registry::new();
    let tenant = String::from("nowhere");
    assert_eq!(reg.detach_subscriber(&tenant, 0), None);
}

#[test]
fn rejected_producer_leaves_no_trace() {
    // A wrong credential is refused before any relay state is touched: no
    // org is created as a side effect of the attempt.
    let mut reg = Registry::new();
    let tenant = String::from("t1");
    let secret = String::from("relay-test-token");
    let wrong = String::from("not-the-secret");
    assert!(!reg.producer_connect(&tenant, Some(&wrong), &secret));
    assert!(reg.get(&tenant).is_none());
    assert_eq!(reg.orgs.len(), 0);
    assert!(!reg.producer_connect(&tenant, None, &secret));
    assert_eq!(reg.orgs.len(), 0);
}

#[test]
fn producer_connect_marks_existing_org() {
    let mut reg = Registry::new();
    let tenant = String::from("t1");
    let secret = String::from("relay-test-token");
    let (tx, _rx) = channel();
    reg.attach_subscriber(&tenant, tx);
    assert!(reg.producer_connect(&tenant, Some(&secret), &secret));
    assert_eq!(reg.orgs.len(), 1);
    assert!(reg.orgs[0].producer_connected);
    assert_eq!(reg.orgs[0].subscribers.len(), 1);
}

#[test]
fn producer_disconnect_notifies_and_keeps_tenant_with_subscriber() {
    // The producer goes away while one subscriber remains: the subscriber
    // gets one close notification, the tenant stays, the flag clears.
    let mut reg = Registry::new();
    let tenant = String::from("t1");
    let secret = String::from("relay-test-token");
    assert!(reg.producer_connect(&tenant, Some(&secret), &secret));
    let (tx, mut rx) = channel();
    reg.attach_subscriber(&tenant, tx);
    let delivered = reg.producer_disconnect(&tenant);
    assert_eq!(delivered, vec![true]);
    assert!(reg.get(&tenant).is_some());
    assert!(!reg.orgs[0].producer_connected);
    assert_eq!(rx.try_recv(), Ok(Frame::ProducerClosed));
    assert_eq!(rx.try_recv(), Err(TryRecvError::Empty));
}

#[test]
fn producer_disconnect_without_subscribers_removes_tenant() {
    let mut reg = Registry::new();
    let tenant = String::from("t1");
    let secret = String::from("relay-test-token");
    assert!(reg.producer_connect(&tenant, Some(&secret), &secret));
    let delivered = reg.producer_disconnect(&tenant);
    assert!(delivered.is_empty());
    assert!(reg.get(&tenant).is_none());
    assert_eq!(reg.orgs.len(), 0);
}

#[test]
fn fanout_delivers_one_frame_per_subscriber() {
    let mut reg = Registry::new();
    let tenant = String::from("t1");
    let (tx1, mut rx1) = channel();
    let (tx2, mut rx2) = channel();
    reg.attach_subscriber(&tenant, tx1);
    reg.attach_subscriber(&tenant, tx2);
    let frame = Frame::Batch(b"[x]".to_vec());
    let delivered = reg.orgs[0].deliver(&frame);
    assert_eq!(delivered, vec![true, true]);
    assert_eq!(rx1.try_recv(), Ok(Frame::Batch(b"[x]".to_vec())));
    assert_eq!(rx2.try_recv(), Ok(Frame::Batch(b"[x]".to_vec())));
    assert_eq!(rx1.try_recv(), Err(TryRecvError::Empty));
}

#[test]
fn one_closed_queue_does_not_block_the_rest() {
    // One subscriber's receiver is already gone when fanout runs: that
    // enqueue fails alone and every other subscriber still gets the frame.
    let mut reg = Registry::new();
    let tenant = String::from("t1");
    let (tx1, rx1) = channel();
    let (tx2, mut rx2) = channel();
    let (tx3, mut rx3) = channel();
    reg.attach_subscriber(&tenant, tx1);
    reg.attach_subscriber(&tenant, tx2);
    reg.attach_subscriber(&tenant, tx3);
    drop(rx1);
    let frame = Frame::Batch(b"[y]".to_vec());
    let delivered = reg.orgs[0].deliver(&frame);
    assert_eq!(delivered, vec![false, true, true]);
    assert_eq!(rx2.try_recv(), Ok(Frame::Batch(b"[y]".to_vec())));
    assert_eq!(rx3.try_recv(), Ok(Frame::Batch(b"[y]".to_vec())));
}

#[test]
fn ingest_appends_parsed_record() {
    let mut pending: Vec<UpdateRecord> = Vec::new();
    let accepted = ingest_update(&mut pending, &br#"{"id":"0","position":[1,2,3]}"#.to_vec());
    assert!(accepted);
    assert_eq!(pending.len(), 1);
    assert_eq!(pending[0].id, b"0".to_vec());
}

#[test]
fn ingest_accepts_serde_spelling_with_nulls() {
    // The simulation and replay producers serialize absent fields as
    // `null`; such frames must reach the pending buffer.
    let mut pending: Vec<UpdateRecord> = Vec::new();
    let text = br##"{"id":"2","rotation":null,"position":null,"color":"#a1b2c3"}"##.to_vec();
    assert!(ingest_update(&mut pending, &text));
    assert_eq!(pending.len(), 1);
    assert_eq!(pending[0].rotation, None);
    assert_eq!(pending[0].position, None);
    assert!(pending[0].color.is_some());
}

#[test]
fn ingest_skips_malformed_record() {
    let mut pending: Vec<UpdateRecord> = Vec::new();
    let accepted = ingest_update(&mut pending, &b"not json".to_vec());
    assert!(!accepted);
    assert!(pending.is_empty());
}

#[test]
fn flush_of_empty_window_sends_nothing() {
    let mut reg = Registry::new();
    let tenant = String::from("t1");
    let (tx, mut rx) = channel();
    reg.attach_subscriber(&tenant, tx);
    let mut pending: Vec<UpdateRecord> = Vec::new();
    let outcome = reg.flush_tenant(&tenant, &mut pending);
    assert_eq!(outcome, FlushOutcome::Idle);
    assert_eq!(rx.try_recv(), Err(TryRecvError::Empty));
}

#[test]
fn flush_for_unknown_tenant_drains_but_delivers_nowhere() {
    let mut reg = Registry::new();
    let tenant = String::from("ghost");
    let mut pending: Vec<UpdateRecord> = Vec::new();
    assert!(ingest_update(&mut pending, &br#"{"id":"0"}"#.to_vec()));
    let outcome = reg.flush_tenant(&tenant, &mut pending);
    assert_eq!(outcome, FlushOutcome::NoTenant);
    assert!(pending.is_empty());
}

#[test]
fn producer_feeds_subscriber_one_merged_batch() {
    // A producer connects with the right credential, a subscriber joins,
    // two partial updates for one item arrive within the window, and the
    // next flush delivers one batch with the merged record.
    let mut reg = Registry::new();
    let tenant = String::from("t1");
    let secret = String::from("relay-test-token");
    assert!(reg.producer_connect(&tenant, Some(&secret), &secret));
    assert_eq!(reg.orgs.len(), 1);
    assert!(reg.orgs[0].producer_connected);
    assert_eq!(reg.orgs[0].subscribers.len(), 0);

    let (tx, mut rx) = channel();
    reg.attach_subscriber(&tenant, tx);
    assert_eq!(reg.orgs[0].subscribers.len(), 1);

    let mut pending: Vec<UpdateRecord> = Vec::new();
    assert!(ingest_update(&mut pending, &br#"{"id":"0","position":[1,2,3]}"#.to_vec()));
    assert!(ingest_update(&mut pending, &br#"{"id":"0","rotation":[0,1,0]}"#.to_vec()));

    let outcome = reg.flush_tenant(&tenant, &mut pending);
    assert_eq!(outcome, FlushOutcome::Sent(vec![true]));
    assert!(pending.is_empty());

    let frame = rx.try_recv().unwrap();
    assert_eq!(
        frame,
        Frame::Batch(br#"[{"id":"0","rotation":[0,1,0],"position":[1,2,3]}]"#.to_vec())
    );
    assert_eq!(rx.try_recv(), Err(TryRecvError::Empty));
}

#[test]
fn flush_delivery_preserves_per_subscriber_order() {
    let mut reg = Registry::new();
    let tenant = String::from("t1");
    let (tx, mut rx) = channel();
    reg.attach_subscriber(&tenant, tx);
    let mut pending: Vec<UpdateRecord> = Vec::new();
    assert!(ingest_update(&mut pending, &br#"{"id":"a"}"#.to_vec()));
    reg.flush_tenant(&tenant, &mut pending);
    assert!(ingest_update(&mut pending, &br#"{"id":"b"}"#.to_vec()));
    reg.flush_tenant(&tenant, &mut pending);
    assert_eq!(rx.try_recv(), Ok(Frame::Batch(br#"[{"id":"a"}]"#.to_vec())));
    assert_eq!(rx.try_recv(), Ok(Frame::Batch(br#"[{"id":"b"}]"#.to_vec())));
}

#[test]
fn org_new_keeps_its_arguments() {
    let org = relay::registry::Org::new(Vec::new(), true, String::from("t9"));
    assert_eq!(org.id, "t9");
    assert!(org.producer_connected);
    assert!(org.subscribers.is_empty());
}
