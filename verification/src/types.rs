//! The data model of a stored measurement.

use vstd::prelude::*;

verus! {

/// The value of one field of a point.
///
/// A floating-point value is carried as its IEEE-754 binary64 bit pattern
/// (what `f64::to_bits` gives); the library never computes with it.
#[derive(Clone, Debug)]
pub enum FieldValue {
    Int(i64),
    Float(u64),
    Bool(bool),
    Str(String),
}

/// The mathematical content of a [`FieldValue`].
pub enum FieldValueView {
    Int(i64),
    Float(u64),
    Bool(bool),
    Str(Seq<char>),
}

impl DeepView for FieldValue {
    type V = FieldValueView;

    open spec fn deep_view(&self) -> FieldValueView {
        match self {
            FieldValue::Int(i) => FieldValueView::Int(*i),
            FieldValue::Float(bits) => FieldValueView::Float(*bits),
            FieldValue::Bool(b) => FieldValueView::Bool(*b),
            FieldValue::Str(s) => FieldValueView::Str(s@),
        }
    }
}

/// One measurement: a metric name, its tags and fields, the time in UNIX
/// seconds, and the node that accepted it.
#[derive(Clone, Debug)]
pub struct TimeSeriesPoint {
    pub metric: String,
    pub tags: Vec<(String, String)>,
    pub fields: Vec<(String, FieldValue)>,
    pub timestamp: i64,
    pub node_id: String,
}

/// The mathematical content of a [`TimeSeriesPoint`].
pub struct PointView {
    pub metric: Seq<char>,
    pub tags: Seq<(Seq<char>, Seq<char>)>,
    pub fields: Seq<(Seq<char>, FieldValueView)>,
    pub timestamp: i64,
    pub node_id: Seq<char>,
}

impl DeepView for TimeSeriesPoint {
    type V = PointView;

    open spec fn deep_view(&self) -> PointView {
        PointView {
            metric: self.metric@,
            tags: self.tags.deep_view(),
            fields: self.fields.deep_view(),
            timestamp: self.timestamp,
            node_id: self.node_id@,
        }
    }
}

} // verus!
