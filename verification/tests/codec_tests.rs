use relay::codec::{encode_batch, encode_record, parse_record};
use relay::color::Color;
use relay::update::{UpdateRecord, Vector3};

fn vector(x: &str, y: &str, z: &str) -> Vector3 {
    Vector3 { x: x.as_bytes().to_vec(), y: y.as_bytes().to_vec(), z: z.as_bytes().to_vec() }
}

fn record(id: &str) -> UpdateRecord {
    UpdateRecord { id: id.as_bytes().to_vec(), rotation: None, position: None, color: None }
}

#[test]
fn encode_id_only() {
    let r = record("0");
    assert_eq!(encode_record(&r), br#"{"id":"0"}"#.to_vec());
}

#[test]
fn encode_with_position() {
    let mut r = record("0");
    r.position = Some(vector("1", "2", "3"));
    assert_eq!(encode_record(&r), br#"{"id":"0","position":[1,2,3]}"#.to_vec());
}

#[test]
fn encode_all_fields_in_canonical_order() {
    let mut r = record("item9");
    r.rotation = Some(vector("0", "1.5", "-2"));
    r.position = Some(vector("10", "0", "3e2"));
    r.color = Some(Color::new(255, 0, 171));
    assert_eq!(
        encode_record(&r),
        br##"{"id":"item9","rotation":[0,1.5,-2],"position":[10,0,3e2],"color":"#ff00ab"}"##
            .to_vec()
    );
}

#[test]
fn parse_id_only() {
    let r = parse_record(&br#"{"id":"0"}"#.to_vec()).unwrap();
    assert_eq!(r, record("0"));
}

#[test]
fn parse_position_record() {
    let r = parse_record(&br#"{"id":"0","position":[1,2,3]}"#.to_vec()).unwrap();
    assert_eq!(r.id, b"0".to_vec());
    assert_eq!(r.position, Some(vector("1", "2", "3")));
    assert_eq!(r.rotation, None);
    assert_eq!(r.color, None);
}

#[test]
fn parse_full_record() {
    let text = br##"{"id":"a","rotation":[0,1,0],"position":[1,2,3],"color":"#00ff00"}"##.to_vec();
    let r = parse_record(&text).unwrap();
    assert_eq!(r.rotation, Some(vector("0", "1", "0")));
    assert_eq!(r.position, Some(vector("1", "2", "3")));
    assert_eq!(r.color, Some(Color::new(0, 255, 0)));
}

#[test]
fn parse_then_encode_round_trips() {
    let text = br#"{"id":"box","rotation":[-1.25,0,6e-3]}"#.to_vec();
    let r = parse_record(&text).unwrap();
    assert_eq!(encode_record(&r), text);
}

#[test]
fn encode_then_parse_round_trips() {
    let mut r = record("thing");
    r.color = Some(Color::new(7, 8, 9));
    let bytes = encode_record(&r);
    let back = parse_record(&bytes).unwrap();
    assert_eq!(back, r);
}

#[test]
fn parse_rejects_empty_input() {
    assert!(parse_record(&Vec::new()).is_none());
}

#[test]
fn parse_rejects_missing_closing_brace() {
    assert!(parse_record(&br#"{"id":"0""#.to_vec()).is_none());
}

#[test]
fn parse_rejects_trailing_bytes() {
    assert!(parse_record(&br#"{"id":"0"} "#.to_vec()).is_none());
}

#[test]
fn parse_rejects_fields_out_of_order() {
    let text = br##"{"id":"0","color":"#ff0000","rotation":[0,0,0]}"##.to_vec();
    assert!(parse_record(&text).is_none());
}

#[test]
fn parse_accepts_uppercase_color() {
    let r = parse_record(&br##"{"id":"0","color":"#FF0000"}"##.to_vec()).unwrap();
    assert_eq!(r.color, Some(Color::new(255, 0, 0)));
}

#[test]
fn parse_accepts_null_fields_as_absent() {
    // serde writes absent `Option` fields as `null`; both spellings mean
    // "unchanged since the last flush".
    let text = br#"{"id":"0","rotation":null,"position":[1,2,3],"color":null}"#.to_vec();
    let r = parse_record(&text).unwrap();
    assert_eq!(r.rotation, None);
    assert_eq!(r.position, Some(vector("1", "2", "3")));
    assert_eq!(r.color, None);
}

#[test]
fn parse_accepts_all_fields_null() {
    let r = parse_record(&br#"{"id":"7","rotation":null,"position":null,"color":null}"#.to_vec())
        .unwrap();
    assert_eq!(r, record("7"));
}

#[test]
fn null_spelling_reencodes_canonically() {
    let text = br#"{"id":"0","rotation":null,"position":[1,2,3],"color":null}"#.to_vec();
    let r = parse_record(&text).unwrap();
    assert_eq!(encode_record(&r), br#"{"id":"0","position":[1,2,3]}"#.to_vec());
}

#[test]
fn parse_rejects_misspelled_null() {
    assert!(parse_record(&br#"{"id":"0","rotation":nul}"#.to_vec()).is_none());
    assert!(parse_record(&br#"{"id":"0","rotation":none}"#.to_vec()).is_none());
}

#[test]
fn parse_rejects_components_that_are_not_json_numbers() {
    assert!(parse_record(&br#"{"id":"0","position":[e,e,e]}"#.to_vec()).is_none());
    assert!(parse_record(&br#"{"id":"0","position":[1.,2,3]}"#.to_vec()).is_none());
    assert!(parse_record(&br#"{"id":"0","position":[01,2,3]}"#.to_vec()).is_none());
    assert!(parse_record(&br#"{"id":"0","position":[+1,2,3]}"#.to_vec()).is_none());
    assert!(parse_record(&br#"{"id":"0","position":[1e,2,3]}"#.to_vec()).is_none());
    assert!(parse_record(&br#"{"id":"0","position":[--1,2,3]}"#.to_vec()).is_none());
}

#[test]
fn parse_accepts_the_json_number_shapes() {
    let text = br#"{"id":"0","position":[-1.5,0,3e+2]}"#.to_vec();
    let r = parse_record(&text).unwrap();
    assert_eq!(r.position, Some(vector("-1.5", "0", "3e+2")));
    let text = br#"{"id":"0","rotation":[0.25,10,2E-3]}"#.to_vec();
    assert!(parse_record(&text).is_some());
}

#[test]
fn parse_rejects_two_component_vector() {
    assert!(parse_record(&br#"{"id":"0","position":[1,2]}"#.to_vec()).is_none());
}

#[test]
fn parse_rejects_unknown_field() {
    assert!(parse_record(&br#"{"id":"0","scale":[1,1,1]}"#.to_vec()).is_none());
}

#[test]
fn parse_rejects_unquoted_id() {
    assert!(parse_record(&br#"{"id":0}"#.to_vec()).is_none());
}

#[test]
fn batch_of_one_record() {
    let mut r = record("0");
    r.position = Some(vector("1", "2", "3"));
    assert_eq!(encode_batch(&vec![r]), br#"[{"id":"0","position":[1,2,3]}]"#.to_vec());
}

#[test]
fn batch_joins_records_with_commas() {
    let a = record("a");
    let b = record("b");
    assert_eq!(encode_batch(&vec![a, b]), br#"[{"id":"a"},{"id":"b"}]"#.to_vec());
}

#[test]
fn batch_of_nothing_is_empty_brackets() {
    assert_eq!(encode_batch(&Vec::new()), b"[]".to_vec());
}
