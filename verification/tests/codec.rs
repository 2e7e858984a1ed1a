use labelel::digits::{fmt_coord, fmt_u32, parse_coord, parse_u32};
use labelel::errors::LoadError;
use labelel::geom::Vec2;
use labelel::project::Segment;
use labelel::yolo::{fmt_segment, fmt_sidecar, parse_line, parse_sidecar, split_bytes};

fn seg(cx: i64, cy: i64, w: i64, h: i64, label_id: u32) -> Segment {
    Segment {
        center: Vec2 { x: cx, y: cy },
        size: Vec2 { x: w, y: h },
        label_id,
    }
}

#[test]
fn coord_formatting_drops_trailing_zeros() {
    assert_eq!(fmt_coord(500_000), b"0.5".to_vec());
    assert_eq!(fmt_coord(200_000), b"0.2".to_vec());
    assert_eq!(fmt_coord(250_000), b"0.25".to_vec());
    assert_eq!(fmt_coord(0), b"0".to_vec());
    assert_eq!(fmt_coord(1_000_000), b"1".to_vec());
    assert_eq!(fmt_coord(123_456), b"0.123456".to_vec());
    assert_eq!(fmt_coord(100), b"0.0001".to_vec());
}

#[test]
fn coord_parsing_accepts_decimals() {
    assert_eq!(parse_coord(b"0.5"), Some(500_000));
    assert_eq!(parse_coord(b"1"), Some(1_000_000));
    assert_eq!(parse_coord(b"0"), Some(0));
    assert_eq!(parse_coord(b"0.123456"), Some(123_456));
    assert_eq!(parse_coord(b"2.25"), Some(2_250_000));
    assert_eq!(parse_coord(b"007"), Some(7_000_000));
}

#[test]
fn coord_parsing_rejects_malformed_text() {
    assert_eq!(parse_coord(b""), None);
    assert_eq!(parse_coord(b"."), None);
    assert_eq!(parse_coord(b"1."), None);
    assert_eq!(parse_coord(b".5"), None);
    assert_eq!(parse_coord(b"0..5"), None);
    assert_eq!(parse_coord(b"0.1234567"), None);
    assert_eq!(parse_coord(b"-0.5"), None);
    assert_eq!(parse_coord(b"abc"), None);
    assert_eq!(parse_coord(b"1e3"), None);
    assert_eq!(parse_coord(b"1000000"), None);
}

#[test]
fn label_id_round_trips_in_decimal() {
    assert_eq!(fmt_u32(0), b"0".to_vec());
    assert_eq!(fmt_u32(42), b"42".to_vec());
    assert_eq!(fmt_u32(4_294_967_295), b"4294967295".to_vec());
    assert_eq!(parse_u32(b"42"), Some(42));
    assert_eq!(parse_u32(b"4294967295"), Some(4_294_967_295));
    assert_eq!(parse_u32(b"4294967296"), None);
    assert_eq!(parse_u32(b""), None);
    assert_eq!(parse_u32(b"1x"), None);
}

#[test]
fn segment_line_round_trip() {
    let s = seg(500_000, 500_000, 200_000, 200_000, 0);
    let line = fmt_segment(&s);
    assert_eq!(line, b"0 0.5 0.5 0.2 0.2".to_vec());
    assert_eq!(parse_line(&line), Some(s));
}

#[test]
fn segment_line_round_trip_uneven_values() {
    let s = seg(123_456, 1, 999_999, 1_000_000, 17);
    let line = fmt_segment(&s);
    assert_eq!(line, b"17 0.123456 0.000001 0.999999 1".to_vec());
    assert_eq!(parse_line(&line), Some(s));
}

#[test]
fn serialization_clamps_out_of_range_values() {
    let s = seg(1_500_000, -200_000, 2_000_000, -1, 3);
    let line = fmt_segment(&s);
    assert_eq!(line, b"3 1 0 1 0".to_vec());
    assert_eq!(parse_line(&line), Some(seg(1_000_000, 0, 1_000_000, 0, 3)));
}

#[test]
fn line_parsing_rejects_malformed_records() {
    assert_eq!(parse_line(b"0 0.5 0.5 0.2"), None);
    assert_eq!(parse_line(b"0 0.5 0.5 0.2 0.2 extra"), None);
    assert_eq!(parse_line(b"0  0.5 0.5 0.2 0.2"), None);
    assert_eq!(parse_line(b"x 0.5 0.5 0.2 0.2"), None);
    assert_eq!(parse_line(b"0 0.5 0.5 0.2 dog"), None);
    assert_eq!(parse_line(b""), None);
}

#[test]
fn sidecar_round_trip_many_lines() {
    let segs = vec![
        seg(500_000, 500_000, 200_000, 200_000, 0),
        seg(250_000, 750_000, 100_000, 50_000, 1),
        seg(0, 1_000_000, 1_000_000, 0, 9),
    ];
    let bytes = fmt_sidecar(&segs);
    let parsed = parse_sidecar(&bytes).expect("sidecar should parse");
    assert_eq!(parsed, segs);
}

#[test]
fn sidecar_parsing_skips_empty_lines() {
    let parsed = parse_sidecar(b"\n0 0.5 0.5 0.2 0.2\n\n1 0.1 0.1 0.1 0.1\n\n").unwrap();
    assert_eq!(parsed.len(), 2);
    assert_eq!(parsed[0], seg(500_000, 500_000, 200_000, 200_000, 0));
    assert_eq!(parsed[1], seg(100_000, 100_000, 100_000, 100_000, 1));
}

#[test]
fn sidecar_parsing_fails_on_bad_line() {
    let r = parse_sidecar(b"0 0.5 0.5 0.2 0.2\nbroken line\n");
    assert!(matches!(r, Err(LoadError::MalformedSidecarLine)));
}

#[test]
fn empty_sidecar_parses_to_no_segments() {
    assert_eq!(parse_sidecar(b"").unwrap(), vec![]);
    assert_eq!(parse_sidecar(b"\n\n").unwrap(), vec![]);
}

#[test]
fn split_bytes_keeps_empty_tokens() {
    let parts = split_bytes(b"a,,b", b',');
    assert_eq!(parts, vec![b"a".to_vec(), b"".to_vec(), b"b".to_vec()]);
    let parts = split_bytes(b"", b',');
    assert_eq!(parts, vec![b"".to_vec()]);
}

#[test]
fn padded_fraction_digits_parse_to_the_same_value() {
    assert_eq!(parse_coord(b"0.500000"), Some(500_000));
    assert_eq!(parse_coord(b"1.000000"), Some(1_000_000));
    assert_eq!(parse_coord(b"0.000001"), Some(1));
}
