use fits_preview::geometry::get_image_dims;
use fits_preview::header::{parse_hdu_block, read_header, Metadata};
use fits_preview::payload::{extract_payload, parse_primary_hdu};
use fits_preview::FitsError;

const BLOCK: usize = 2880;

fn card(key: &str, value: &str) -> Vec<u8> {
    let mut c = vec![b' '; 80];
    c[..key.len()].copy_from_slice(key.as_bytes());
    if !value.is_empty() {
        c[8] = b'=';
        c[10..10 + value.len()].copy_from_slice(value.as_bytes());
    }
    c
}

fn block(cards: &[(&str, &str)]) -> Vec<u8> {
    let mut b = Vec::new();
    for (k, v) in cards {
        b.extend(card(k, v));
    }
    b.resize(BLOCK, b' ');
    b
}

fn image_header(width: &str, height: &str) -> Vec<u8> {
    block(&[
        ("SIMPLE", "T"),
        ("BITPIX", "16"),
        ("NAXIS", "2"),
        ("NAXIS1", width),
        ("NAXIS2", height),
        ("END", ""),
    ])
}

fn data_blocks(n: usize) -> Vec<u8> {
    (0..n * BLOCK).map(|i| (i % 251) as u8).collect()
}

fn value_of(m: &Metadata, key: &str) -> Option<String> {
    m.get(key).cloned()
}

#[test]
fn single_block_header_geometry_and_payload() {
    let mut data = image_header("10", "5");
    data.extend(data_blocks(1));
    let (meta, n) = read_header(&data).unwrap();
    assert_eq!(n, 1);
    assert_eq!(get_image_dims(&meta).unwrap(), (10, 5, 2));
    let (meta, pixels) = parse_primary_hdu(&data).unwrap();
    assert_eq!(pixels.len(), 100);
    assert_eq!(pixels, data[BLOCK..BLOCK + 100].to_vec());
    assert_eq!(value_of(&meta, "SIMPLE"), Some("T".to_string()));
    assert!(meta.contains_key("END"));
}

#[test]
fn partial_block_is_truncated_header() {
    for len in [1usize, 80, 2879, 2881, 5000] {
        let data = vec![b' '; len];
        assert_eq!(parse_primary_hdu(&data).unwrap_err(), FitsError::TruncatedHeaderError);
    }
    let mut data = image_header("10", "5");
    data.extend(data_blocks(1));
    data.push(0);
    assert_eq!(parse_primary_hdu(&data).unwrap_err(), FitsError::TruncatedHeaderError);
}

#[test]
fn empty_buffer_is_truncated_header() {
    assert_eq!(parse_primary_hdu(&[]).unwrap_err(), FitsError::TruncatedHeaderError);
}

#[test]
fn header_without_end_is_truncated() {
    let data = block(&[("SIMPLE", "T"), ("BITPIX", "16")]);
    assert_eq!(read_header(&data).unwrap_err(), FitsError::TruncatedHeaderError);
}

#[test]
fn payload_leaves_out_padding() {
    let mut data = image_header("7", "3");
    data.extend(data_blocks(1));
    let (_, pixels) = parse_primary_hdu(&data).unwrap();
    assert_eq!(pixels.len(), 42);
    assert_eq!(pixels, data[BLOCK..BLOCK + 42].to_vec());

    let mut data = image_header("1500", "1");
    data.extend(data_blocks(2));
    let (_, pixels) = parse_primary_hdu(&data).unwrap();
    assert_eq!(pixels.len(), 3000);
}

#[test]
fn block_round_trip_keeps_keywords_and_values() {
    let pairs = [
        ("SIMPLE", "T"),
        ("BITPIX", "-32"),
        ("NAXIS1", "640 / width in pixels"),
        ("OBJECT", "'HD 200775'"),
        ("EXPTIME", "30.0"),
    ];
    let meta = parse_hdu_block(&block(&pairs)).unwrap();
    for (k, v) in pairs {
        assert_eq!(value_of(&meta, k), Some(v.to_string()));
    }
    assert_eq!(value_of(&meta, ""), Some(String::new()));
    assert_eq!(value_of(&meta, "NAXIS2"), None);
}

#[test]
fn end_in_second_block_takes_two_blocks() {
    let mut first: Vec<(String, String)> = vec![
        ("SIMPLE".to_string(), "T".to_string()),
        ("BITPIX".to_string(), "16".to_string()),
        ("NAXIS".to_string(), "2".to_string()),
        ("NAXIS1".to_string(), "4".to_string()),
    ];
    for i in 0..32 {
        first.push((format!("KEY{}", i), format!("{}", i)));
    }
    let first_refs: Vec<(&str, &str)> = first.iter().map(|(k, v)| (k.as_str(), v.as_str())).collect();
    let mut data = block(&first_refs);
    data.extend(block(&[("NAXIS2", "3"), ("KEY5", "changed"), ("END", "")]));
    data.extend(data_blocks(1));
    let (meta, n) = read_header(&data).unwrap();
    assert_eq!(n, 2);
    assert_eq!(value_of(&meta, "KEY0"), Some("0".to_string()));
    assert_eq!(value_of(&meta, "KEY5"), Some("changed".to_string()));
    assert_eq!(value_of(&meta, "NAXIS2"), Some("3".to_string()));
    assert_eq!(value_of(&meta, ""), None);
    let (_, pixels) = parse_primary_hdu(&data).unwrap();
    assert_eq!(pixels, data[2 * BLOCK..2 * BLOCK + 24].to_vec());
}

#[test]
fn invalid_utf8_in_keyword_is_decode_error() {
    let mut data = image_header("10", "5");
    data[80 * 2] = 0xff;
    data.extend(data_blocks(1));
    assert_eq!(parse_primary_hdu(&data).unwrap_err(), FitsError::DecodeError);
}

#[test]
fn invalid_utf8_in_value_is_decode_error() {
    let mut data = image_header("10", "5");
    data[80 * 3 + 20] = 0xc3;
    data.extend(data_blocks(1));
    assert_eq!(parse_primary_hdu(&data).unwrap_err(), FitsError::DecodeError);
    let mut b = image_header("10", "5");
    b[80 * 35 + 79] = 0x80;
    assert_eq!(parse_hdu_block(&b).unwrap_err(), FitsError::DecodeError);
}

#[test]
fn utf8_text_is_decoded_and_trimmed() {
    let b = block(&[("CAFÉ", "  naïve  ")]);
    let meta = parse_hdu_block(&b).unwrap();
    assert_eq!(value_of(&meta, "CAFÉ"), Some("naïve".to_string()));
}

#[test]
fn missing_naxis1_is_reported() {
    let mut meta = Metadata::new();
    meta.insert("BITPIX".to_string(), "16".to_string());
    meta.insert("NAXIS2".to_string(), "5".to_string());
    assert_eq!(
        get_image_dims(&meta).unwrap_err(),
        FitsError::MissingKeywordError("NAXIS1".to_string())
    );
}

#[test]
fn missing_bitpix_is_reported_first() {
    let meta = Metadata::new();
    assert_eq!(
        get_image_dims(&meta).unwrap_err(),
        FitsError::MissingKeywordError("BITPIX".to_string())
    );
}

#[test]
fn malformed_value_is_reported() {
    let mut meta = Metadata::new();
    meta.insert("BITPIX".to_string(), "16".to_string());
    meta.insert("NAXIS1".to_string(), "10".to_string());
    meta.insert("NAXIS2".to_string(), "five / rows".to_string());
    assert_eq!(
        get_image_dims(&meta).unwrap_err(),
        FitsError::MalformedValueError("NAXIS2".to_string(), "five / rows".to_string())
    );
    meta.insert("NAXIS2".to_string(), "-5".to_string());
    assert_eq!(
        get_image_dims(&meta).unwrap_err(),
        FitsError::MalformedValueError("NAXIS2".to_string(), "-5".to_string())
    );
    meta.insert("NAXIS2".to_string(), "4294967296".to_string());
    assert!(matches!(
        get_image_dims(&meta).unwrap_err(),
        FitsError::MalformedValueError(_, _)
    ));
}

#[test]
fn geometry_reads_comments_and_signed_bitpix() {
    let mut meta = Metadata::new();
    meta.insert("BITPIX".to_string(), "-64 / double".to_string());
    meta.insert("NAXIS1".to_string(), "+12/width".to_string());
    meta.insert("NAXIS2".to_string(), "4294967295".to_string());
    assert_eq!(get_image_dims(&meta).unwrap(), (12, 4294967295, 8));
}

#[test]
fn later_value_of_a_keyword_wins() {
    let b = block(&[("NAXIS1", "10"), ("NAXIS1", "20"), ("END", "")]);
    let meta = parse_hdu_block(&b).unwrap();
    assert_eq!(value_of(&meta, "NAXIS1"), Some("20".to_string()));
    let mut meta = Metadata::new();
    meta.insert("A".to_string(), "1".to_string());
    meta.insert("A".to_string(), "2".to_string());
    assert_eq!(value_of(&meta, "A"), Some("2".to_string()));
}

#[test]
fn payload_past_end_is_truncated_data() {
    let mut data = image_header("100", "100");
    data.extend(data_blocks(1));
    assert_eq!(parse_primary_hdu(&data).unwrap_err(), FitsError::TruncatedDataError);
    let data = data_blocks(2);
    assert_eq!(extract_payload(&data, 1, 1441, 1, 2).unwrap_err(), FitsError::TruncatedDataError);
    assert_eq!(
        extract_payload(&data, 1, u32::MAX, u32::MAX, u32::MAX).unwrap_err(),
        FitsError::TruncatedDataError
    );
    assert_eq!(extract_payload(&data, 3, 0, 0, 2).unwrap_err(), FitsError::TruncatedDataError);
}

#[test]
fn payload_may_fill_the_buffer() {
    let data = data_blocks(2);
    let p = extract_payload(&data, 1, 1440, 1, 2).unwrap();
    assert_eq!(p, data[BLOCK..].to_vec());
    assert_eq!(extract_payload(&data, 2, 0, 7, 2).unwrap(), Vec::<u8>::new());
}
