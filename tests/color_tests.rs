use mflm::color::{rgb, Color, ParseColorError};

#[test]
fn parses_six_digits_with_hash() {
    let c = Color::from_hex("#FF8000").unwrap();
    assert_eq!(c, Color::from_rgba_u8(255, 128, 0, 255));
}

#[test]
fn parses_eight_digits_without_hash() {
    let c = Color::from_hex("80ff8000").unwrap();
    assert_eq!(c, Color::from_rgba_u8(255, 128, 0, 128));
}

#[test]
fn six_digits_pack_opaque() {
    let c = Color::from_hex("#123456").unwrap();
    assert_eq!(c.as_argb8888(), 0xFF123456);
}

#[test]
fn eight_digits_pack_as_written() {
    let c = Color::from_hex("#7Fabcdef").unwrap();
    assert_eq!(c.as_argb8888(), 0x7FABCDEF);
    let c = Color::from_hex("00000000").unwrap();
    assert_eq!(c.as_argb8888(), 0);
}

#[test]
fn packed_bytes_in_memory_are_bgra() {
    let c = Color::from_hex("#112233").unwrap();
    assert_eq!(c.as_argb8888().to_le_bytes(), [0x33, 0x22, 0x11, 0xFF]);
}

#[test]
fn other_lengths_are_refused() {
    for (s, n) in [("", 0usize), ("#", 0), ("#FFF", 3), ("FFFFF", 5), ("#FFFFFFF", 7), ("FFFFFFFFF", 9)] {
        match Color::from_hex(s) {
            Err(ParseColorError::InvalidLength { len }) => assert_eq!(len, n),
            other => panic!("unexpected result for {s:?}: {other:?}"),
        }
    }
}

#[test]
fn only_one_hash_is_optional() {
    match Color::from_hex("##FFFFFF") {
        Err(ParseColorError::InvalidLength { len }) => assert_eq!(len, 7),
        other => panic!("unexpected result: {other:?}"),
    }
}

#[test]
fn non_hex_digits_are_refused() {
    match Color::from_hex("#GG0000") {
        Err(ParseColorError::InvalidHex(s)) => assert_eq!(s, "#GG0000"),
        other => panic!("unexpected result: {other:?}"),
    }
    assert!(matches!(Color::from_hex("+F0000"), Err(ParseColorError::InvalidHex(_))));
    assert!(matches!(Color::from_hex("0000000z"), Err(ParseColorError::InvalidHex(_))));
}

#[test]
fn blend_halfway() {
    let a = rgb(0, 100, 200);
    let b = rgb(255, 50, 200);
    let c = a.blend(&b, 1, 2);
    assert_eq!(c, rgb(128, 75, 200));
}

#[test]
fn blend_ratio_below_zero_is_zero() {
    let a = rgb(10, 20, 30);
    let b = Color::from_rgba_u8(200, 100, 0, 0);
    assert_eq!(a.blend(&b, -5, 3), a.blend(&b, 0, 3));
    assert_eq!(a.blend(&b, -5, 3), a);
}

#[test]
fn blend_ratio_above_one_is_one() {
    let a = rgb(10, 20, 30);
    let b = Color::from_rgba_u8(200, 100, 0, 0);
    assert_eq!(a.blend(&b, 7, 3), a.blend(&b, 3, 3));
    assert_eq!(a.blend(&b, 7, 3), b);
}

#[test]
fn blend_quarter_rounds_to_nearest() {
    let a = rgb(0, 0, 0);
    let b = rgb(255, 255, 255);
    assert_eq!(a.blend(&b, 1, 4), rgb(64, 64, 64));
    assert_eq!(b.blend(&a, 1, 4), rgb(191, 191, 191));
}
