use std::sync::Arc;

use tsdb::app_config::AppConfig;
use tsdb::storage::Storage;

fn storage() -> Storage {
    Storage { config: Arc::new(AppConfig::default()) }
}

#[test]
fn segment_named_by_utc_date() {
    let s = storage();
    assert_eq!(s.segment_file_name(0).as_deref(), Some("1970-01-01.tsdata"));
    assert_eq!(s.segment_file_name(1_700_000_000).as_deref(), Some("2023-11-14.tsdata"));
    assert_eq!(s.segment_file_name(-1).as_deref(), Some("1969-12-31.tsdata"));
    assert_eq!(s.segments_dir(), "segments");
}

#[test]
fn out_of_range_timestamp_has_no_segment() {
    assert_eq!(storage().segment_file_name(i64::MAX), None);
}
