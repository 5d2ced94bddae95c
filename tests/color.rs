use sprite_pack::color::{Color, ColorDecodeError};

#[test]
fn parses_rgb() {
    assert_eq!(Color::from_hex_str("#1a2B3c"), Ok(Color { r: 0x1a, g: 0x2b, b: 0x3c, a: 255 }));
}

#[test]
fn parses_rgba() {
    assert_eq!(Color::from_hex_str("#FFfF0080"), Ok(Color { r: 255, g: 255, b: 0, a: 0x80 }));
    assert_eq!(Color::from_hex_str("#00000000"), Ok(Color { r: 0, g: 0, b: 0, a: 0 }));
}

#[test]
fn every_digit_value() {
    assert_eq!(Color::from_hex_str("#0123ab"), Ok(Color { r: 0x01, g: 0x23, b: 0xab, a: 255 }));
    assert_eq!(Color::from_hex_str("#456789"), Ok(Color { r: 0x45, g: 0x67, b: 0x89, a: 255 }));
    assert_eq!(Color::from_hex_str("#cdefCD"), Ok(Color { r: 0xcd, g: 0xef, b: 0xcd, a: 255 }));
    assert_eq!(Color::from_hex_str("#ABCDEF"), Ok(Color { r: 0xab, g: 0xcd, b: 0xef, a: 255 }));
}

#[test]
fn wrong_length() {
    assert_eq!(Color::from_hex_str(""), Err(ColorDecodeError::InvalidStrLength));
    assert_eq!(Color::from_hex_str("#fff"), Err(ColorDecodeError::InvalidStrLength));
    assert_eq!(Color::from_hex_str("#fffffff"), Err(ColorDecodeError::InvalidStrLength));
    assert_eq!(Color::from_hex_str("#ffffffff0"), Err(ColorDecodeError::InvalidStrLength));
}

#[test]
fn missing_hash() {
    assert_eq!(Color::from_hex_str("0ffffff"), Err(ColorDecodeError::MissingHash));
    assert_eq!(Color::from_hex_str("aabbccdd0"), Err(ColorDecodeError::MissingHash));
}

#[test]
fn invalid_digit() {
    assert_eq!(Color::from_hex_str("#ff00gg"), Err(ColorDecodeError::InvalidHexDigit));
    assert_eq!(Color::from_hex_str("#ff00ff0z"), Err(ColorDecodeError::InvalidHexDigit));
    assert_eq!(Color::from_hex_str("#\u{e9}\u{e9}\u{e9}"), Err(ColorDecodeError::InvalidHexDigit));
}

#[test]
fn constructors_and_array() {
    assert_eq!(Color::rgb(1, 2, 3), Color { r: 1, g: 2, b: 3, a: 255 });
    assert_eq!(Color::rgba(1, 2, 3, 4).to_array(), [1, 2, 3, 4]);
    assert_eq!(Color::white(), Color { r: 255, g: 255, b: 255, a: 255 });
    assert_eq!(Color::black(), Color { r: 0, g: 0, b: 0, a: 255 });
    assert_eq!(Color::transparent(), Color { r: 255, g: 255, b: 255, a: 0 });
    assert_eq!(Color::default(), Color::white());
}

#[test]
fn error_messages() {
    assert_eq!(
        ColorDecodeError::MissingHash.message(),
        "Missing '#' at the beginning of the hex color"
    );
    assert_eq!(
        ColorDecodeError::InvalidStrLength.message(),
        "Hex color string has an invalid length"
    );
    assert_eq!(
        ColorDecodeError::InvalidHexDigit.message(),
        "Hex color string contains invalid hex digits"
    );
}
