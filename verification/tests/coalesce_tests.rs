use relay::coalesce::{coalesce, merge_update};
use relay::color::Color;
use relay::update::{UpdateRecord, Vector3};

fn vector(x: &str, y: &str, z: &str) -> Vector3 {
    Vector3 { x: x.as_bytes().to_vec(), y: y.as_bytes().to_vec(), z: z.as_bytes().to_vec() }
}

fn record(id: &str) -> UpdateRecord {
    UpdateRecord { id: id.as_bytes().to_vec(), rotation: None, position: None, color: None }
}

#[test]
fn single_record_is_unchanged() {
    let mut r = record("0");
    r.rotation = Some(vector("0", "0", "0"));
    let out = coalesce(vec![r]);
    assert_eq!(out.len(), 1);
    assert_eq!(out[0].id, b"0".to_vec());
    assert_eq!(out[0].rotation, Some(vector("0", "0", "0")));
    assert_eq!(out[0].position, None);
    assert_eq!(out[0].color, None);
}

#[test]
fn fields_merge_and_later_wins_only_where_present() {
    let mut first = record("0");
    first.rotation = Some(vector("0", "0", "0"));
    let mut second = record("0");
    second.color = Some(Color::new(255, 0, 0));
    let out = coalesce(vec![first, second]);
    assert_eq!(out.len(), 1);
    assert_eq!(out[0].id, b"0".to_vec());
    assert_eq!(out[0].rotation, Some(vector("0", "0", "0")));
    assert_eq!(out[0].color, Some(Color::new(255, 0, 0)));
    assert_eq!(out[0].position, None);
}

#[test]
fn later_record_overwrites_present_fields() {
    let mut first = record("7");
    first.position = Some(vector("1", "2", "3"));
    first.color = Some(Color::new(1, 2, 3));
    let mut second = record("7");
    second.position = Some(vector("4", "5", "6"));
    let out = coalesce(vec![first, second]);
    assert_eq!(out.len(), 1);
    assert_eq!(out[0].position, Some(vector("4", "5", "6")));
    assert_eq!(out[0].color, Some(Color::new(1, 2, 3)));
}

#[test]
fn distinct_ids_keep_first_seen_order() {
    let ids = ["a", "b", "a", "c", "b", "a"];
    let input: Vec<UpdateRecord> = ids.iter().map(|id| record(id)).collect();
    let out = coalesce(input);
    let out_ids: Vec<Vec<u8>> = out.iter().map(|r| r.id.clone()).collect();
    assert_eq!(out_ids, vec![b"a".to_vec(), b"b".to_vec(), b"c".to_vec()]);
}

#[test]
fn empty_window_coalesces_to_nothing() {
    let out = coalesce(Vec::new());
    assert!(out.is_empty());
}

#[test]
fn merge_update_keeps_accumulated_id() {
    let mut acc = record("x");
    acc.rotation = Some(vector("1", "1", "1"));
    let mut inc = record("x");
    inc.rotation = Some(vector("2", "2", "2"));
    let merged = merge_update(acc, inc);
    assert_eq!(merged.id, b"x".to_vec());
    assert_eq!(merged.rotation, Some(vector("2", "2", "2")));
}

#[test]
fn updates_for_different_ids_do_not_mix() {
    let mut first = record("0");
    first.color = Some(Color::new(9, 9, 9));
    let mut second = record("1");
    second.rotation = Some(vector("5", "5", "5"));
    let out = coalesce(vec![first, second]);
    assert_eq!(out.len(), 2);
    assert_eq!(out[0].id, b"0".to_vec());
    assert_eq!(out[0].color, Some(Color::new(9, 9, 9)));
    assert_eq!(out[0].rotation, None);
    assert_eq!(out[1].id, b"1".to_vec());
    assert_eq!(out[1].rotation, Some(vector("5", "5", "5")));
    assert_eq!(out[1].color, None);
}
