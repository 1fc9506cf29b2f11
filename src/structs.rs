//! The order book, its orders and the candles it aggregates.
mod operation;
mod order_book;
mod order_side;
mod point;
mod stock;
mod time_range;
mod time_series;
mod transaction;

pub use operation::Operation;
pub use order_book::{
    BookView, OrderBook, after_fill, crossing, fill_amount, lemma_execute_idle_when_a_side_is_empty,
    lemma_match_conserves_quantity, lemma_matching_keeps_close_in_band, match_all, match_step,
    SIM_AMOUNT_MAX, SIM_AMOUNT_MIN, SIM_PAIRS, SIM_PRICE_MAX, SIM_PRICE_MIN, residual, with_pairs,
};
pub use order_side::{
    OrderError, OrderSide, count_le, insert_sorted, lemma_total_insert, side_wf, sorted_by_price,
    total,
};
pub use point::{Point, in_band, lemma_traded_in_band, lemma_weighted_mean_between, traded};
pub use stock::{Stock, StockView};
pub use time_range::TimeRange;
pub use time_series::{SeriesView, TimeSeries};
pub use transaction::{OrderView, Transaction};
