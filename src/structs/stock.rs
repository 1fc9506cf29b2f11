use super::time_series::{SeriesView, TimeSeries};
use vstd::prelude::*;

verus! {

/// A stock as a mathematical value.
pub struct StockView {
    pub name: Seq<char>,
    pub symbol: Seq<char>,
    pub cur_price: u32,
    pub time_series: SeriesView,
}

/// A listed stock, its current price in ticks and its price history.
pub struct Stock {
    name: String,
    symbol: String,
    cur_price: u32,
    time_series: TimeSeries,
}

impl View for Stock {
    type V = StockView;

    closed spec fn view(&self) -> StockView {
        StockView {
            name: self.name@,
            symbol: self.symbol@,
            cur_price: self.cur_price,
            time_series: self.time_series@,
        }
    }
}

impl Stock {
    pub fn new(name: String, symbol: String, cur_price: u32, time_series: TimeSeries) -> (r: Self)
        ensures
            r@ == (StockView {
                name: name@,
                symbol: symbol@,
                cur_price,
                time_series: time_series@,
            }),
    {
        Self { name, symbol, cur_price, time_series }
    }
}

} // verus!
