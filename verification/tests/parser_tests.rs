use tsdb::parser::{
    convert_field_value, nanos_to_seconds, outcome_of_scan, LineScan, parse_batch, parse_line_protocol, point_from_parsed,
    ParsedLine, RawFieldValue, RawLine,
};
use tsdb::types::FieldValue;

fn int_field(v: &FieldValue) -> Option<i64> {
    match v {
        FieldValue::Int(i) => Some(*i),
        _ => None,
    }
}

#[test]
fn parses_a_full_line() {
    let p = parse_line_protocol("cpu,host=a,region=eu usage=42i,load=0.5,up=true,name=\"x y\" 1700000000123456789", "node-a")
        .expect("line parses");
    assert_eq!(p.metric, "cpu");
    assert_eq!(p.tags, vec![("host".to_string(), "a".to_string()), ("region".to_string(), "eu".to_string())]);
    assert_eq!(p.fields.len(), 4);
    assert_eq!(p.fields[0].0, "usage");
    assert_eq!(int_field(&p.fields[0].1), Some(42));
    assert_eq!(p.fields[1].0, "load");
    assert!(matches!(p.fields[1].1, FieldValue::Float(bits) if bits == 0.5f64.to_bits()));
    assert!(matches!(p.fields[2].1, FieldValue::Bool(true)));
    assert!(matches!(&p.fields[3].1, FieldValue::Str(s) if s == "x y"));
    assert_eq!(p.timestamp, 1_700_000_000);
    assert_eq!(p.node_id, "node-a");
}

#[test]
fn unsigned_fields_become_signed_with_wrap() {
    let p = parse_line_protocol("m a=5u,b=18446744073709551615u 0", "n").unwrap();
    assert_eq!(int_field(&p.fields[0].1), Some(5));
    assert_eq!(int_field(&p.fields[1].1), Some(-1));
}

#[test]
fn line_without_tags_has_none() {
    let p = parse_line_protocol("m v=1i 2000000000", "n").unwrap();
    assert!(p.tags.is_empty());
    assert_eq!(p.timestamp, 2);
}

#[test]
fn negative_timestamps_round_toward_zero() {
    let p = parse_line_protocol("m v=1i -1500000000", "n").unwrap();
    assert_eq!(p.timestamp, -1);
    assert_eq!(nanos_to_seconds(-1_500_000_000), -1);
    assert_eq!(nanos_to_seconds(-999_999_999), 0);
    assert_eq!(nanos_to_seconds(1_999_999_999), 1);
    assert_eq!(nanos_to_seconds(i64::MIN), -9_223_372_036);
}

#[test]
fn missing_timestamp_takes_the_clock() {
    let before = std::time::SystemTime::now()
        .duration_since(std::time::UNIX_EPOCH)
        .unwrap()
        .as_secs() as i64;
    let p = parse_line_protocol("m v=1i", "n").unwrap();
    assert!(p.timestamp >= before && p.timestamp <= before + 5);
}

#[test]
fn blank_or_comment_text_has_no_line() {
    assert_eq!(parse_line_protocol("", "n").unwrap_err(), "No line found");
    assert_eq!(parse_line_protocol("   ", "n").unwrap_err(), "No line found");
    assert_eq!(parse_line_protocol("# just a comment", "n").unwrap_err(), "No line found");
}

#[test]
fn malformed_line_reports_reader_error() {
    let err = parse_line_protocol("cpu", "n").unwrap_err();
    assert!(!err.is_empty());
    assert_ne!(err, "No line found");
    assert!(parse_line_protocol("cpu v=1i trailing garbage", "n").is_err());
}

#[test]
fn point_from_parsed_is_exact() {
    let raw = RawLine(
        "disk".to_string(),
        None,
        vec![
            ("a".to_string(), RawFieldValue::U64(7)),
            ("b".to_string(), RawFieldValue::F64Bits(2.25f64.to_bits())),
            ("c".to_string(), RawFieldValue::Str("s".to_string())),
            ("d".to_string(), RawFieldValue::Boolean(false)),
            ("e".to_string(), RawFieldValue::I64(-3)),
        ],
        None,
    );
    let p = point_from_parsed(raw, 77, "node-b");
    assert_eq!(p.metric, "disk");
    assert!(p.tags.is_empty());
    assert_eq!(p.timestamp, 77);
    assert_eq!(p.node_id, "node-b");
    assert_eq!(int_field(&p.fields[0].1), Some(7));
    assert!(matches!(p.fields[1].1, FieldValue::Float(bits) if bits == 2.25f64.to_bits()));
    assert!(matches!(&p.fields[2].1, FieldValue::Str(s) if s == "s"));
    assert!(matches!(p.fields[3].1, FieldValue::Bool(false)));
    assert_eq!(int_field(&p.fields[4].1), Some(-3));

    let timed = RawLine(
        "m".to_string(),
        Some(vec![("k".to_string(), "v".to_string())]),
        vec![],
        Some(5_000_000_001),
    );
    let q = point_from_parsed(timed, 77, "n");
    assert_eq!(q.timestamp, 5);
    assert_eq!(q.tags, vec![("k".to_string(), "v".to_string())]);
}

#[test]
fn convert_field_value_maps_kinds() {
    assert_eq!(int_field(&convert_field_value(RawFieldValue::U64(1 << 63))), Some(i64::MIN));
    assert!(matches!(convert_field_value(RawFieldValue::Boolean(true)), FieldValue::Bool(true)));
}

#[test]
fn batch_reports_every_line_in_order() {
    let out = parse_batch("cpu v=1i 1000000000\nbad\n\r\nmem v=2i 2000000000\n", "n");
    assert_eq!(out.len(), 4);
    assert!(matches!(&out[0], ParsedLine::Point(p) if p.metric == "cpu" && p.timestamp == 1));
    assert!(matches!(&out[1], ParsedLine::Invalid { line: 2, .. }));
    assert!(matches!(&out[2], ParsedLine::Invalid { line: 3, error } if error == "No line found"));
    assert!(matches!(&out[3], ParsedLine::Point(p) if p.metric == "mem" && p.node_id == "n"));
}

#[test]
fn empty_batch_has_no_outcomes() {
    assert!(parse_batch("", "n").is_empty());
}

#[test]
fn outcome_of_scan_settles_each_finding() {
    assert_eq!(outcome_of_scan(LineScan::NoLine, 5, "n").unwrap_err(), "No line found");
    assert_eq!(outcome_of_scan(LineScan::Rejected("bad".to_string()), 5, "n").unwrap_err(), "bad");
    let raw = RawLine("m".to_string(), None, vec![("v".to_string(), RawFieldValue::I64(1))], None);
    let p = outcome_of_scan(LineScan::Parsed(raw), 42, "node").unwrap();
    assert_eq!(p.timestamp, 42);
    assert_eq!(p.node_id, "node");
    let timed = RawLine("m".to_string(), None, vec![], Some(-2_000_000_000));
    assert_eq!(outcome_of_scan(LineScan::Parsed(timed), 42, "node").unwrap().timestamp, -2);
}
