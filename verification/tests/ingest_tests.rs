use tsdb::ingest::{ingest_batch, ingest_request, summarize_batch};
use tsdb::parser::ParsedLine;
use tsdb::types::TimeSeriesPoint;

fn point(metric: &str) -> TimeSeriesPoint {
    TimeSeriesPoint {
        metric: metric.to_string(),
        tags: vec![],
        fields: vec![],
        timestamp: 0,
        node_id: "n".to_string(),
    }
}

#[test]
fn all_valid_lines_answer_ok() {
    let report = ingest_batch("cpu v=1i 1\nmem v=2i 2", "node-a");
    assert_eq!(report.response, "OK");
    assert_eq!(report.accepted.len(), 2);
    assert_eq!(report.accepted[0].metric, "cpu");
    assert_eq!(report.accepted[1].metric, "mem");
    assert_eq!(report.accepted[1].node_id, "node-a");
}

#[test]
fn mixed_batch_counts_and_lists_errors() {
    let report = summarize_batch(vec![
        ParsedLine::Point(point("a")),
        ParsedLine::Invalid { line: 2, error: "bad".to_string() },
        ParsedLine::Point(point("b")),
        ParsedLine::Invalid { line: 10, error: "worse".to_string() },
    ]);
    assert_eq!(report.response, "OK (2 lines inserted)\nLine 2: bad\nLine 10: worse");
    assert_eq!(report.accepted.len(), 2);
    assert_eq!(report.accepted[1].metric, "b");
}

#[test]
fn nothing_valid_is_an_error() {
    let report = summarize_batch(vec![ParsedLine::Invalid { line: 1, error: "No line found".to_string() }]);
    assert_eq!(report.response, "Error: No valid lines found.\nLine 1: No line found");
    assert!(report.accepted.is_empty());

    let empty = ingest_batch("", "n");
    assert_eq!(empty.response, "Error: No valid lines found.\n");
    assert!(empty.accepted.is_empty());
}

#[test]
fn ingest_reports_parser_errors_by_line() {
    let report = ingest_batch("cpu v=1i 1\nnot valid\n", "n");
    assert!(report.response.starts_with("OK (1 lines inserted)\nLine 2: "));
    assert_eq!(report.accepted.len(), 1);
}

#[test]
fn request_bodies_are_decoded_before_parsing() {
    let report = ingest_request(b"cpu v=1i 1\nm\xff v=2i 2", "n");
    assert_eq!(report.accepted.len(), 2);
    assert_eq!(report.accepted[1].metric, "m\u{fffd}");
    assert_eq!(report.response, "OK");
}
