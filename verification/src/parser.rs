//! Turning InfluxDB line protocol text into [`TimeSeriesPoint`]s.
//!
//! The grammar itself is read by the `influxdb_line_protocol` crate; this module
//! decides what becomes of each line it reads: how field values map onto the
//! point's value kinds, how the timestamp is brought to seconds, and which lines
//! of a batch are accepted or rejected.

use vstd::prelude::*;

use influxdb_line_protocol::parse_lines;
use influxdb_line_protocol::FieldValue::{Boolean as Bo, F64 as Fl, I64 as Si, String as St, U64 as Su};

use self::LineScan::{NoLine, Parsed, Rejected};
use self::RawFieldValue::{Boolean, F64Bits, I64, Str, U64};
use crate::text::{owned, split_lines, text_lines};
use crate::types::{FieldValue, FieldValueView, PointView, TimeSeriesPoint};

verus! {

broadcast use vstd::std_specs::vec::group_vec_axioms;

/// A field value as the line protocol reader gives it.
pub enum RawFieldValue {
    I64(i64),
    U64(u64),
    /// The bit pattern of a binary64 float.
    F64Bits(u64),
    Str(String),
    Boolean(bool),
}

/// The mathematical content of a [`RawFieldValue`].
pub enum RawFieldView {
    I64(i64),
    U64(u64),
    F64Bits(u64),
    Str(Seq<char>),
    Boolean(bool),
}

impl DeepView for RawFieldValue {
    type V = RawFieldView;

    open spec fn deep_view(&self) -> RawFieldView {
        match self {
            RawFieldValue::I64(i) => RawFieldView::I64(*i),
            RawFieldValue::U64(u) => RawFieldView::U64(*u),
            RawFieldValue::F64Bits(b) => RawFieldView::F64Bits(*b),
            RawFieldValue::Str(s) => RawFieldView::Str(s@),
            RawFieldValue::Boolean(b) => RawFieldView::Boolean(*b),
        }
    }
}

/// One line as the line protocol reader gives it: measurement, tag set (absent
/// when the line has none), field set, and the timestamp in nanoseconds.
pub struct RawLine(
    pub String,
    pub Option<Vec<(String, String)>>,
    pub Vec<(String, RawFieldValue)>,
    pub Option<i64>,
);

/// The mathematical content of a [`RawLine`].
pub struct RawLineView {
    pub measurement: Seq<char>,
    pub tags: Option<Seq<(Seq<char>, Seq<char>)>>,
    pub fields: Seq<(Seq<char>, RawFieldView)>,
    pub timestamp: Option<i64>,
}

impl DeepView for RawLine {
    type V = RawLineView;

    open spec fn deep_view(&self) -> RawLineView {
        RawLineView {
            measurement: self.0@,
            tags: self.1.deep_view(),
            fields: self.2.deep_view(),
            timestamp: self.3,
        }
    }
}

/// What the reader finds first in a piece of text.
pub enum LineScan {
    /// Only blank lines and comments.
    NoLine,
    /// A well-formed line.
    Parsed(RawLine),
    /// A malformed line, with the reader's message.
    Rejected(String),
}

/// The mathematical content of a [`LineScan`].
pub enum LineScanView {
    NoLine,
    Parsed(RawLineView),
    Rejected(Seq<char>),
}

impl DeepView for LineScan {
    type V = LineScanView;

    open spec fn deep_view(&self) -> LineScanView {
        match self {
            LineScan::NoLine => LineScanView::NoLine,
            LineScan::Parsed(raw) => LineScanView::Parsed(raw.deep_view()),
            LineScan::Rejected(e) => LineScanView::Rejected(e@),
        }
    }
}

/// What `influxdb_line_protocol::parse_lines(input).next()` yields for `input`.
pub uninterp spec fn influx_first_line(input: Seq<char>) -> LineScanView;

/// Reads the first line of `input` with `influxdb_line_protocol::parse_lines`.
/// Trusted: the result is `influx_first_line(input@)`, a function of the text
/// alone; the grammar is not restated here.
#[verifier::external_body]
fn scan_first_line(input: &str) -> (scan: LineScan)
    ensures
        scan.deep_view() == influx_first_line(input@),
{
    match parse_lines(input).next() {
        None => NoLine,
        Some(Err(e)) => Rejected(e.to_string()),
        Some(Ok(p)) => Parsed(RawLine(
            p.series.measurement.to_string(),
            p.series.tag_set.map(|t| t.into_iter().map(|(k, v)| (k.to_string(), v.to_string())).collect()),
            p.field_set.into_iter().map(|(k, v)| (k.to_string(), match v {
                Si(i) => I64(i), Su(u) => U64(u), Fl(x) => F64Bits(x.to_bits()),
                Bo(b) => Boolean(b), St(s) => Str(s.to_string()) })).collect(),
            p.timestamp,
        )),
    }
}

/// The current time in UNIX seconds (`chrono::Utc::now().timestamp()`).
/// Trusted: when it returns, the reading is not before 1970 (`Utc::now`
/// measures from the UNIX epoch and panics when the system clock is set
/// before it, which no precondition can rule out); its value is the clock's
/// and is not stated further.
#[verifier::external_body]
fn current_unix_seconds() -> (t: i64)
    ensures
        t >= 0,
{
    chrono::Utc::now().timestamp()
}

/// The point's value for a field as the reader gave it: unsigned integers are
/// reinterpreted as `i64` (two's complement wrap, as `u64 as i64`).
pub open spec fn field_value_of(v: RawFieldView) -> FieldValueView {
    match v {
        RawFieldView::I64(i) => FieldValueView::Int(i),
        RawFieldView::U64(u) => FieldValueView::Int(u as i64),
        RawFieldView::F64Bits(b) => FieldValueView::Float(b),
        RawFieldView::Str(s) => FieldValueView::Str(s),
        RawFieldView::Boolean(b) => FieldValueView::Bool(b),
    }
}

/// Nanoseconds to whole seconds, rounding toward zero.
pub open spec fn seconds_from_nanos(ns: i64) -> i64 {
    if ns >= 0 {
        (ns / 1_000_000_000) as i64
    } else {
        (-((-ns) / 1_000_000_000)) as i64
    }
}

/// The timestamp a point gets: the line's own, in seconds, or `now`.
pub open spec fn line_seconds(raw: RawLineView, now: i64) -> i64 {
    match raw.timestamp {
        Some(ns) => seconds_from_nanos(ns),
        None => now,
    }
}

/// The point made of a read line, stamped with `timestamp` and `node_id`.
pub open spec fn point_from_line(raw: RawLineView, timestamp: i64, node_id: Seq<char>) -> PointView {
    PointView {
        metric: raw.measurement,
        tags: match raw.tags {
            Some(t) => t,
            None => Seq::<(Seq<char>, Seq<char>)>::empty(),
        },
        fields: raw.fields.map_values(|f: (Seq<char>, RawFieldView)| (f.0, field_value_of(f.1))),
        timestamp,
        node_id,
    }
}

/// The message for text that holds no line.
pub open spec fn no_line_message() -> Seq<char> {
    "No line found"@
}

/// `outcome` is what parsing a line can give when the reader found `scan`: the
/// reader's error, the missing-line error, or the point made of the line whose
/// timestamp is the line's own (or a clock reading, not before 1970, when it
/// has none).
pub open spec fn parse_outcome(scan: LineScanView, node_id: Seq<char>, outcome: Result<PointView, Seq<char>>) -> bool {
    match scan {
        LineScanView::NoLine => outcome == Err::<PointView, Seq<char>>(no_line_message()),
        LineScanView::Rejected(e) => outcome == Err::<PointView, Seq<char>>(e),
        LineScanView::Parsed(raw) => match outcome {
            Ok(p) => {
                &&& p == point_from_line(raw, p.timestamp, node_id)
                &&& (raw.timestamp matches Some(ns) ==> p.timestamp == seconds_from_nanos(ns))
                &&& (raw.timestamp is None ==> p.timestamp >= 0)
            },
            Err(_) => false,
        },
    }
}

/// The mathematical content of a parse result.
pub open spec fn outcome_view(r: Result<TimeSeriesPoint, String>) -> Result<PointView, Seq<char>> {
    match r {
        Ok(p) => Ok(p.deep_view()),
        Err(e) => Err(e@),
    }
}

/// Whole seconds from nanoseconds round toward zero: the seconds never
/// overshoot the instant, and the remainder is under one second.
pub proof fn lemma_seconds_round_toward_zero(ns: i64)
    ensures
        ns >= 0 ==> seconds_from_nanos(ns) * 1_000_000_000 <= ns < (seconds_from_nanos(ns) + 1) * 1_000_000_000,
        ns < 0 ==> (seconds_from_nanos(ns) - 1) * 1_000_000_000 < ns <= seconds_from_nanos(ns) * 1_000_000_000,
        ns >= 0 ==> seconds_from_nanos(ns) >= 0,
        ns <= 0 ==> seconds_from_nanos(ns) <= 0,
{
}

/// Brings a timestamp in nanoseconds to whole seconds, rounding toward zero.
pub fn nanos_to_seconds(ns: i64) -> (s: i64)
    ensures
        s == seconds_from_nanos(ns),
        ns >= 0 ==> s * 1_000_000_000 <= ns < (s + 1) * 1_000_000_000,
        ns < 0 ==> (s - 1) * 1_000_000_000 < ns <= s * 1_000_000_000,
{
    proof {
        lemma_seconds_round_toward_zero(ns);
    }
    ns / 1_000_000_000
}

/// A field keeps its kind: a float stays a float with the very same bits (a
/// whole-number float is not turned into an integer), a signed integer keeps
/// its value, an unsigned one becomes the integer with the same 64 bits, and
/// booleans and strings are kept.
pub proof fn lemma_field_kind_kept(v: RawFieldView)
    ensures
        v matches RawFieldView::F64Bits(b) ==> field_value_of(v) == FieldValueView::Float(b),
        field_value_of(v) is Float <==> v is F64Bits,
        v matches RawFieldView::I64(i) ==> field_value_of(v) == FieldValueView::Int(i),
        v matches RawFieldView::U64(u) ==> field_value_of(v) == FieldValueView::Int(u as i64),
        v matches RawFieldView::Boolean(b) ==> field_value_of(v) == FieldValueView::Bool(b),
        v matches RawFieldView::Str(t) ==> field_value_of(v) == FieldValueView::Str(t),
{
}

/// The point made of a line has the line's measurement, its fields in order
/// under the same names, each float field with its own bits, the given time
/// and node.
pub proof fn lemma_point_keeps_line(raw: RawLineView, timestamp: i64, node_id: Seq<char>)
    ensures
        ({
            let p = point_from_line(raw, timestamp, node_id);
            &&& p.metric == raw.measurement
            &&& p.timestamp == timestamp
            &&& p.node_id == node_id
            &&& p.fields.len() == raw.fields.len()
            &&& forall|i: int| 0 <= i < raw.fields.len() ==> {
                &&& (#[trigger] p.fields[i]).0 == raw.fields[i].0
                &&& (raw.fields[i].1 matches RawFieldView::F64Bits(b) ==> p.fields[i].1 == FieldValueView::Float(b))
                &&& (p.fields[i].1 is Float <==> raw.fields[i].1 is F64Bits)
            }
        }),
{
    let p = point_from_line(raw, timestamp, node_id);
    assert forall|i: int| 0 <= i < raw.fields.len() implies {
        &&& (#[trigger] p.fields[i]).0 == raw.fields[i].0
        &&& (raw.fields[i].1 matches RawFieldView::F64Bits(b) ==> p.fields[i].1 == FieldValueView::Float(b))
        &&& (p.fields[i].1 is Float <==> raw.fields[i].1 is F64Bits)
    } by {
        lemma_field_kind_kept(raw.fields[i].1);
    }
}

/// Maps a read field value onto the point's value kinds.
pub fn convert_field_value(v: RawFieldValue) -> (out: FieldValue)
    ensures
        out.deep_view() == field_value_of(v.deep_view()),
        match v {
            RawFieldValue::I64(i) => out == FieldValue::Int(i),
            RawFieldValue::U64(u) => out == FieldValue::Int(u as i64),
            RawFieldValue::F64Bits(b) => out == FieldValue::Float(b),
            RawFieldValue::Str(t) => out matches FieldValue::Str(o) && o@ == t@,
            RawFieldValue::Boolean(b) => out == FieldValue::Bool(b),
        },
{
    match v {
        RawFieldValue::I64(i) => FieldValue::Int(i),
        RawFieldValue::U64(u) => FieldValue::Int(u as i64),
        RawFieldValue::F64Bits(b) => FieldValue::Float(b),
        RawFieldValue::Str(s) => FieldValue::Str(s),
        RawFieldValue::Boolean(b) => FieldValue::Bool(b),
    }
}

/// Builds the point for a read line: its measurement as metric, its tags (none
/// when absent), its fields converted, the line's timestamp in seconds or `now`
/// when the line has none, and `node_id`.
pub fn point_from_parsed(raw: RawLine, now: i64, node_id: &str) -> (p: TimeSeriesPoint)
    ensures
        p.deep_view() == point_from_line(raw.deep_view(), line_seconds(raw.deep_view(), now), node_id@),
{
    let ghost raw_view = raw.deep_view();
    let timestamp = match raw.3 {
        Some(ns) => nanos_to_seconds(ns),
        None => now,
    };
    let tags = match raw.1 {
        Some(t) => t,
        None => Vec::new(),
    };
    let mut fields: Vec<(String, FieldValue)> = Vec::new();
    let ghost raw_fields = raw.2@;
    for entry in iter: raw.2
        invariant
            raw_fields.len() == raw_view.fields.len(),
            forall|j: int| 0 <= j < raw_fields.len() ==> #[trigger] raw_view.fields[j] == raw_fields[j].deep_view(),
            iter.seq() == raw_fields,
            fields.deep_view() == raw_view.fields.take(iter.index()).map_values(
                |f: (Seq<char>, RawFieldView)| (f.0, field_value_of(f.1)),
            ),
    {
        let ghost k = iter.index();
        assert(entry == raw_fields[k]);
        let ghost before = fields.deep_view();
        let (name, value) = entry;
        proof {
            assert(raw_view.fields[k] == raw_fields[k].deep_view());
            assert(raw_view.fields[k].0 == name@);
            assert(raw_view.fields[k].1 == value.deep_view());
        }
        let converted = convert_field_value(value);
        fields.push((name, converted));
        proof {
            assert(fields.deep_view() =~= before.push((name@, converted.deep_view())));
            assert(raw_view.fields.take(k + 1) =~= raw_view.fields.take(k).push(raw_view.fields[k]));
            assert(fields.deep_view() =~= raw_view.fields.take(k + 1).map_values(
                |f: (Seq<char>, RawFieldView)| (f.0, field_value_of(f.1)),
            ));
        }
    }
    proof {
        assert(raw_view.fields.take(raw_fields.len() as int) =~= raw_view.fields);
    }
    let p = TimeSeriesPoint { metric: raw.0, tags, fields, timestamp, node_id: owned(node_id) };
    proof {
        assert(p.deep_view().fields =~= raw_view.fields.map_values(
            |f: (Seq<char>, RawFieldView)| (f.0, field_value_of(f.1)),
        ));
        assert(p.deep_view().tags == point_from_line(raw_view, timestamp, node_id@).tags);
    }
    p
}

/// The outcome the reader's finding `scan` gives: the missing-line error, the
/// reader's error, or the point of the read line stamped with `node_id` and
/// with the line's own time, or `now` when it has none.
pub open spec fn scan_outcome(scan: LineScanView, now: i64, node_id: Seq<char>) -> Result<PointView, Seq<char>> {
    match scan {
        LineScanView::NoLine => Err(no_line_message()),
        LineScanView::Rejected(e) => Err(e),
        LineScanView::Parsed(raw) => Ok(point_from_line(raw, line_seconds(raw, now), node_id)),
    }
}

/// Settles the outcome of one line from what the reader found in it.
pub fn outcome_of_scan(scan: LineScan, now: i64, node_id: &str) -> (res: Result<TimeSeriesPoint, String>)
    ensures
        outcome_view(res) == scan_outcome(scan.deep_view(), now, node_id@),
{
    match scan {
        LineScan::NoLine => Err(owned("No line found")),
        LineScan::Rejected(e) => Err(e),
        LineScan::Parsed(raw) => Ok(point_from_parsed(raw, now, node_id)),
    }
}

/// Parses the first line of `line` into a point stamped with `node_id`.
///
/// Errors: the reader's message for a malformed line, `"No line found"` when
/// the text holds only blank lines or comments. A line without a timestamp
/// gets the current time.
pub fn parse_line_protocol(line: &str, node_id: &str) -> (res: Result<TimeSeriesPoint, String>)
    ensures
        parse_outcome(influx_first_line(line@), node_id@, outcome_view(res)),
{
    let scan = scan_first_line(line);
    let needs_clock = match &scan {
        LineScan::Parsed(raw) => raw.3.is_none(),
        _ => false,
    };
    let now = if needs_clock {
        current_unix_seconds()
    } else {
        0
    };
    outcome_of_scan(scan, now, node_id)
}

/// The outcome for one line of a batch: its point, or its 1-based line number
/// and the error.
#[derive(Debug)]
pub enum ParsedLine {
    Point(TimeSeriesPoint),
    Invalid { line: usize, error: String },
}

/// Entry `i` of a batch result is the outcome of parsing line `lines[i]`, an
/// error carrying the line number `i + 1`.
pub open spec fn batch_entry_matches(lines: Seq<Seq<char>>, node_id: Seq<char>, i: int, entry: ParsedLine) -> bool {
    match entry {
        ParsedLine::Point(p) => parse_outcome(influx_first_line(lines[i]), node_id, Ok(p.deep_view())),
        ParsedLine::Invalid { line, error } => {
            &&& line == i + 1
            &&& parse_outcome(influx_first_line(lines[i]), node_id, Err(error@))
        },
    }
}

/// Parses every line of `input` (as `str::lines` splits it), in order, one
/// outcome per line.
pub fn parse_batch(input: &str, node_id: &str) -> (out: Vec<ParsedLine>)
    ensures
        out.len() == text_lines(input@).len(),
        forall|i: int| 0 <= i < out.len() ==> batch_entry_matches(text_lines(input@), node_id@, i, #[trigger] out[i]),
        forall|i: int| 0 <= i < out.len() ==> (#[trigger] out[i] matches ParsedLine::Invalid { line, .. } ==> line == i + 1),
        forall|i: int| 0 <= i < out.len() ==> (#[trigger] out[i] matches ParsedLine::Point(p) ==> p.node_id@ == node_id@),
{
    let lines = split_lines(input);
    let ghost texts = lines.deep_view();
    let mut out: Vec<ParsedLine> = Vec::new();
    let mut i: usize = 0;
    while i < lines.len()
        invariant
            0 <= i <= lines.len(),
            texts == lines.deep_view(),
            texts == text_lines(input@),
            out.len() == i,
            forall|j: int| 0 <= j < i ==> batch_entry_matches(texts, node_id@, j, #[trigger] out[j]),
        decreases lines.len() - i,
    {
        let entry = match parse_line_protocol(lines[i].as_str(), node_id) {
            Ok(p) => ParsedLine::Point(p),
            Err(error) => ParsedLine::Invalid { line: i + 1, error },
        };
        assert(texts[i as int] == lines[i as int]@);
        out.push(entry);
        i = i + 1;
    }
    out
}

} // verus!
