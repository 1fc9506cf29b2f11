use super::point::Point;
use super::time_range::TimeRange;
use vstd::prelude::*;

verus! {

/// A series as a mathematical value; times are seconds since the Unix epoch, UTC.
pub struct SeriesView {
    pub unit: TimeRange,
    pub start: i64,
    pub end: i64,
    pub data: Seq<Point>,
}

/// Points of one instrument between two instants, oldest first.
pub struct TimeSeries {
    time_range_unit: TimeRange,
    start: i64,
    end: i64,
    data: Vec<Point>,
}

/// Relies on chrono's `Utc::now` and `DateTime::timestamp`: the current time
/// as whole seconds since the Unix epoch.
#[verifier::external_body]
fn now_unix_seconds() -> (r: i64) {
    chrono::Utc::now().timestamp()
}

impl View for TimeSeries {
    type V = SeriesView;

    closed spec fn view(&self) -> SeriesView {
        SeriesView {
            unit: self.time_range_unit,
            start: self.start,
            end: self.end,
            data: self.data@,
        }
    }
}

impl TimeSeries {
    pub fn new(time_range_unit: TimeRange, start: i64, end: i64, data: Vec<Point>) -> (r: Self)
        ensures
            r@ == (SeriesView { unit: time_range_unit, start, end, data: data@ }),
    {
        Self { time_range_unit, start, end, data }
    }

    /// An empty daily series stamped with the current time.
    pub fn default() -> (r: Self)
        ensures
            r@.unit == TimeRange::Day,
            r@.data.len() == 0,
    {
        let start = now_unix_seconds();
        let end = now_unix_seconds();
        TimeSeries::new(TimeRange::Day, start, end, Vec::new())
    }

    pub fn time_range_unit(&self) -> (r: &TimeRange)
        ensures
            *r == self@.unit,
    {
        &self.time_range_unit
    }

    pub fn start(&self) -> (r: &i64)
        ensures
            *r == self@.start,
    {
        &self.start
    }

    pub fn end(&self) -> (r: &i64)
        ensures
            *r == self@.end,
    {
        &self.end
    }

    pub fn data(&self) -> (r: &Vec<Point>)
        ensures
            r@ == self@.data,
    {
        &self.data
    }
}

} // verus!
