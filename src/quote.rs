//! Records of a vendor's intraday quote feed.
use vstd::prelude::*;

verus! {

/// One candle of a quote feed, each figure still the decimal text the feed sent.
#[derive(Debug)]
pub struct CandleStick {
    pub open: String,
    pub high: String,
    pub low: String,
    pub close: String,
    pub volume: String,
}

} // verus!
