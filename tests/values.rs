use fits_preview::samples::{decode_samples, grey_rgb};
use fits_preview::text::{keyword_int, parse_decimal, value_token};
use fits_preview::texture_display::TextureDisplay;

#[test]
fn value_token_drops_comment_and_spaces() {
    assert_eq!(value_token("  10 / image width "), "10");
    assert_eq!(value_token("'abc'"), "'abc'");
    assert_eq!(value_token("/ only comment"), "");
    assert_eq!(value_token(""), "");
}

#[test]
fn decimal_parsing() {
    assert_eq!(parse_decimal("0"), Some(0));
    assert_eq!(parse_decimal("+12"), Some(12));
    assert_eq!(parse_decimal("-32"), Some(-32));
    assert_eq!(parse_decimal("007"), Some(7));
    assert_eq!(parse_decimal(""), None);
    assert_eq!(parse_decimal("-"), None);
    assert_eq!(parse_decimal("1a"), None);
    assert_eq!(parse_decimal(" 1"), None);
    assert_eq!(parse_decimal("9223372036854775807"), Some(i64::MAX));
    assert_eq!(parse_decimal("-9223372036854775808"), Some(i64::MIN));
    assert_eq!(parse_decimal("9223372036854775808"), None);
    assert_eq!(parse_decimal("99999999999999999999999"), None);
}

#[test]
fn keyword_numbers() {
    assert_eq!(keyword_int("16 / bits per pixel"), Some(16));
    assert_eq!(keyword_int("  -64"), Some(-64));
    assert_eq!(keyword_int("T"), None);
}

#[test]
fn samples_are_shifted_signed_big_endian() {
    let payload = [0x00, 0x00, 0xff, 0xff, 0x80, 0x00, 0x7f, 0xff, 0x01, 0x02];
    assert_eq!(decode_samples(&payload), vec![32768, 32767, 0, 65535, 33026]);
    assert_eq!(decode_samples(&[]), Vec::<u16>::new());
}

#[test]
fn grey_levels_are_high_bytes() {
    assert_eq!(grey_rgb(&[0x1234, 0xff00, 0x00ff]), vec![0x12, 0x12, 0x12, 0xff, 0xff, 0xff, 0, 0, 0]);
}

#[test]
fn texture_display_starts_zeroed() {
    let d = TextureDisplay::new(3, 2);
    assert_eq!((d.dx, d.dy), (3, 2));
    assert_eq!(d.image_buffer, vec![vec![0u16; 3]; 2]);
    let d = TextureDisplay::default();
    assert_eq!((d.dx, d.dy), (0, 0));
    assert_eq!(d.image_buffer, vec![Vec::<u16>::new()]);
}

#[test]
fn texture_display_rgba() {
    let mut d = TextureDisplay::new(2, 1);
    d.image_buffer[0] = vec![0xabcd, 0x0100];
    assert_eq!(d.rgba_pixels(), vec![0xab, 0xab, 0xab, 255, 0x01, 0x01, 0x01, 255]);
}
