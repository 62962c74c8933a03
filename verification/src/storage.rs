//! Where stored points go: one segment file per UTC calendar day.

use std::sync::Arc;

use chrono::TimeZone;
use vstd::prelude::*;

use crate::app_config::AppConfig;
use crate::text::{owned, push_text};

verus! {

/// The point store; segment files live in `<data_dir>/segments/`.
pub struct Storage {
    pub config: Arc<AppConfig>,
}

/// The UTC calendar date (`YYYY-MM-DD`) of the UNIX time `timestamp` as
/// `chrono` formats it, or `None` where `chrono` has no such instant.
pub uninterp spec fn utc_date_text(timestamp: i64) -> Option<Seq<char>>;

/// Formats the UTC date of `timestamp` with
/// `chrono::Utc.timestamp_opt(timestamp, 0).single()` and `format("%Y-%m-%d")`.
/// Trusted: the result is `utc_date_text(timestamp)`, a function of the
/// timestamp alone.
#[verifier::external_body]
fn utc_date(timestamp: i64) -> (date: Option<String>)
    ensures
        match date {
            Some(d) => utc_date_text(timestamp) == Some(d@),
            None => utc_date_text(timestamp) is None,
        },
{
    match chrono::Utc.timestamp_opt(timestamp, 0).single() {
        Some(instant) => Some(instant.format("%Y-%m-%d").to_string()),
        None => None,
    }
}

/// The name of the directory, under the data directory, that holds segments.
pub open spec fn segments_dir_text() -> Seq<char> {
    "segments"@
}

/// The name of the segment file that holds points stamped `timestamp`:
/// `<YYYY-MM-DD>.tsdata` of their UTC date.
pub open spec fn segment_file_text(timestamp: i64) -> Option<Seq<char>> {
    match utc_date_text(timestamp) {
        Some(date) => Some(date + ".tsdata"@),
        None => None,
    }
}

impl Storage {
    /// The directory name under the data directory that holds the segments.
    pub fn segments_dir(&self) -> (name: &'static str)
        ensures
            name@ == segments_dir_text(),
    {
        "segments"
    }

    /// The segment file for a point stamped `timestamp`; `None` when the
    /// timestamp is not a valid instant.
    pub fn segment_file_name(&self, timestamp: i64) -> (name: Option<String>)
        ensures
            match name {
                Some(n) => segment_file_text(timestamp) == Some(n@),
                None => segment_file_text(timestamp) is None,
            },
    {
        match utc_date(timestamp) {
            Some(date) => {
                let mut name = owned(date.as_str());
                push_text(&mut name, ".tsdata");
                Some(name)
            },
            None => None,
        }
    }
}

} // verus!
