use relay::color::Color;

#[test]
fn default_is_black() {
    let c = Color::default();
    assert_eq!((c.r, c.g, c.b), (0, 0, 0));
}

#[test]
fn new_keeps_components() {
    let c = Color::new(12, 34, 56);
    assert_eq!((c.r, c.g, c.b), (12, 34, 56));
}

#[test]
fn white_is_all_channels_full() {
    let c = Color::white();
    assert_eq!((c.r, c.g, c.b), (255, 255, 255));
}

#[test]
fn from_hex_lowercase() {
    let c = Color::from_hex("#ff0000").unwrap();
    assert_eq!((c.r, c.g, c.b), (255, 0, 0));
}

#[test]
fn from_hex_uppercase() {
    let c = Color::from_hex("#FF8040").unwrap();
    assert_eq!((c.r, c.g, c.b), (0xff, 0x80, 0x40));
}

#[test]
fn from_hex_mixed_case() {
    let c = Color::from_hex("#aBcDeF").unwrap();
    assert_eq!((c.r, c.g, c.b), (0xab, 0xcd, 0xef));
}

#[test]
fn from_hex_rejects_missing_hash() {
    assert!(Color::from_hex("ff0000").is_err());
}

#[test]
fn from_hex_rejects_short_input() {
    assert!(Color::from_hex("#ff00").is_err());
    assert!(Color::from_hex("").is_err());
}

#[test]
fn from_hex_rejects_long_input() {
    assert!(Color::from_hex("#ff000000").is_err());
}

#[test]
fn from_hex_rejects_non_hex_digits() {
    assert!(Color::from_hex("#ff00zz").is_err());
    assert!(Color::from_hex("#ff 000").is_err());
}

#[test]
fn hex_bytes_is_lowercase_canonical() {
    let c = Color::new(255, 0, 171);
    assert_eq!(c.hex_bytes(), b"#ff00ab".to_vec());
}

#[test]
fn hex_round_trip() {
    let c = Color::new(1, 128, 254);
    let bytes = c.hex_bytes();
    let text = String::from_utf8(bytes).unwrap();
    let back = Color::from_hex(&text).unwrap();
    assert_eq!((back.r, back.g, back.b), (1, 128, 254));
}

#[test]
fn increment_counts_red_first() {
    let mut c = Color::new(10, 20, 30);
    c.increment();
    assert_eq!((c.r, c.g, c.b), (11, 20, 30));
}

#[test]
fn increment_moves_to_green_when_red_full() {
    let mut c = Color::new(255, 20, 30);
    c.increment();
    assert_eq!((c.r, c.g, c.b), (255, 21, 30));
}

#[test]
fn increment_moves_to_blue_when_red_and_green_full() {
    let mut c = Color::new(255, 255, 30);
    c.increment();
    assert_eq!((c.r, c.g, c.b), (255, 255, 31));
}

#[test]
fn increment_restarts_from_half_red_when_saturated() {
    let mut c = Color::new(255, 255, 255);
    c.increment();
    assert_eq!((c.r, c.g, c.b), (128, 0, 0));
}
