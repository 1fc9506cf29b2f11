//! Order matching and OHLCV aggregation for traded instruments.
//!
//! Prices are integer ticks (the smallest price increment of an instrument);
//! quantities and volumes are whole units.
pub mod quote;
pub mod structs;

use std::time::SystemTime;
use vstd::prelude::*;

verus! {

/// std's `SystemTime`, carried opaquely as the bounds of a block series;
/// nothing is assumed of its values.
#[verifier::external_type_specification]
#[verifier::external_body]
pub struct ExSystemTime(SystemTime);

/// One OHLCV bucket with every field an unsigned integer.
#[derive(Clone, Copy, Debug, PartialEq, Eq, Structural)]
pub struct Block {
    pub open: u32,
    pub high: u32,
    pub low: u32,
    pub close: u32,
    pub volume: u32,
}

impl Block {
    pub fn new(open: u32, high: u32, low: u32, close: u32, volume: u32) -> (r: Self)
        ensures
            r == (Block { open, high, low, close, volume }),
    {
        Self { open, high, low, close, volume }
    }
}

/// The length of the interval each block of a series covers.
#[derive(Clone, Copy, Debug, PartialEq, Eq, Structural)]
pub enum TimeRange {
    Second,
    Minute,
    Hour,
    Daily,
    Montly,
}

/// A block series as a mathematical value.
pub struct BlockSeriesView {
    pub unit: TimeRange,
    pub start: SystemTime,
    pub end: SystemTime,
    pub data: Seq<Block>,
}

/// Blocks between two instants, oldest first.
pub struct TimeSeries {
    time_range_unit: TimeRange,
    start: SystemTime,
    end: SystemTime,
    data: Vec<Block>,
}

impl View for TimeSeries {
    type V = BlockSeriesView;

    closed spec fn view(&self) -> BlockSeriesView {
        BlockSeriesView {
            unit: self.time_range_unit,
            start: self.start,
            end: self.end,
            data: self.data@,
        }
    }
}

impl TimeSeries {
    pub fn new(time_range_unit: TimeRange, start: SystemTime, end: SystemTime, data: Vec<Block>) -> (r: Self)
        ensures
            r@ == (BlockSeriesView { unit: time_range_unit, start, end, data: data@ }),
    {
        Self { time_range_unit, start, end, data }
    }
}

} // verus!
