use dashmap::DashMap;
use rusty_trading_model::structs::{
    Operation, OrderBook, OrderError, OrderSide, Point, Transaction,
};

fn side_with(orders: Vec<Transaction>) -> OrderSide {
    let mut side = OrderSide::new();
    for t in orders {
        side.push(t).unwrap();
    }
    side
}

#[test]
pub fn test_order_execution() {
    let buy = Transaction::buy("NVDA".to_string(), 500, 1000);
    let sell = Transaction::sell("NVDA".to_string(), 500, 1000);
    let prv_point = Point::new(400, 400, 400, 400, 1000);
    let mut book = OrderBook::new(side_with(vec![buy]), side_with(vec![sell]), Vec::new(), prv_point);
    book.execute();
    assert_eq!(book.cur_point().high, 500);
    assert_eq!(book.cur_point().close, 450);
    assert_eq!(book.cur_point().low, 400);
    assert_eq!(book.cur_point().volume, 2000);
    assert!(book.buy_orders().is_empty());
    assert!(book.sell_orders().is_empty());
}

#[test]
pub fn test_order_not_executed() {
    let buy = Transaction::buy("NVDA".to_string(), 500, 1000);
    let sell = Transaction::sell("NVDA".to_string(), 1000, 1000);
    let now = Point::new(400, 400, 400, 400, 1000);
    let mut book = OrderBook::new(side_with(vec![buy]), side_with(vec![sell]), Vec::new(), now);
    book.execute();
    assert_eq!(book.cur_point().volume, 1000);
    assert!(book.buy_orders().len() == 1);
    assert!(book.sell_orders().len() == 1);
    assert_eq!(book.cur_point(), now);
}

#[test]
fn main_test_flush_working() {
    let order_book_map: DashMap<String, OrderBook> = DashMap::new();
    order_book_map.insert("NVDA".to_string(), OrderBook::default());
    for i in 0..5u32 {
        {
            let mut order_book = order_book_map.get_mut("NVDA").unwrap();
            let price = (i + 1) * 100;
            order_book.add_buy_order(Transaction::buy("NVDA".to_string(), price, 1000)).unwrap();
            order_book.add_sell_order(Transaction::sell("NVDA".to_string(), price, 1000)).unwrap();
            order_book.execute();
            assert_eq!(order_book.points().len(), i as usize);
            assert_eq!(order_book.cur_point().close, price);
        }
        for mut entry in order_book_map.iter_mut() {
            entry.value_mut().flush();
        }
        {
            let order_book = order_book_map.get("NVDA").unwrap();
            assert_eq!(order_book.points().len(), i as usize + 1);
        }
    }
}

#[test]
fn partial_fill_leaves_residual_sell() {
    let mut book = OrderBook::default();
    book.add_buy_order(Transaction::buy("NVDA".to_string(), 500, 700)).unwrap();
    book.add_sell_order(Transaction::sell("NVDA".to_string(), 500, 1000)).unwrap();
    book.execute();
    assert_eq!(book.cur_point().volume, 700);
    assert!(book.buy_orders().is_empty());
    assert_eq!(book.sell_orders().len(), 1);
    let rest = book.sell_orders().peek_best().unwrap();
    assert_eq!(rest.amount(), 300);
    assert_eq!(rest.price(), 500);
    assert_eq!(rest.symbol(), "NVDA");
    assert_eq!(*rest.operation(), Operation::Sell);
}

#[test]
fn partial_fill_leaves_residual_buy() {
    let mut book = OrderBook::default();
    book.add_sell_order(Transaction::sell("NVDA".to_string(), 480, 200)).unwrap();
    book.add_buy_order(Transaction::buy("NVDA".to_string(), 500, 700)).unwrap();
    book.execute();
    assert!(book.sell_orders().is_empty());
    let rest = book.buy_orders().peek_best().unwrap();
    assert_eq!(rest.amount(), 500);
    assert_eq!(rest.price(), 500);
    assert_eq!(*rest.operation(), Operation::Buy);
    // traded at the buy price
    assert_eq!(book.cur_point().close, 500);
    assert_eq!(book.cur_point().high, 500);
}

#[test]
fn execute_with_an_empty_side_changes_nothing() {
    let start = Point::new(10, 20, 5, 15, 30);
    let mut book = OrderBook::new(
        side_with(vec![Transaction::buy("X".to_string(), 900, 5)]),
        OrderSide::new(),
        vec![Point::new(1, 2, 1, 2, 3)],
        start,
    );
    book.execute();
    assert_eq!(book.cur_point(), start);
    assert_eq!(book.buy_orders().len(), 1);
    assert_eq!(book.points_mut(), vec![Point::new(1, 2, 1, 2, 3)]);

    let mut book = OrderBook::new(
        OrderSide::new(),
        side_with(vec![Transaction::sell("X".to_string(), 1, 5)]),
        Vec::new(),
        start,
    );
    book.execute();
    assert_eq!(book.cur_point(), start);
    assert_eq!(book.sell_orders().len(), 1);
}

#[test]
fn matching_conserves_quantity() {
    let mut book = OrderBook::default();
    for (price, qty) in [(500u32, 300u32), (450, 200), (300, 400)] {
        book.add_buy_order(Transaction::buy("X".to_string(), price, qty)).unwrap();
    }
    for (price, qty) in [(400u32, 250u32), (350, 100), (300, 50)] {
        book.add_sell_order(Transaction::sell("X".to_string(), price, qty)).unwrap();
    }
    book.execute();
    let buy_left = book.buy_orders().total_quantity() as u64;
    let sell_left = book.sell_orders().total_quantity() as u64;
    let traded = book.cur_point().volume;
    assert_eq!(900 - buy_left, traded);
    assert_eq!(400 - sell_left, traded);
    // 250 and 50 at 500, then 50 and 50 at 450
    assert_eq!(traded, 400);
    assert_eq!(buy_left, 500);
    assert_eq!(sell_left, 0);
}

#[test]
fn close_stays_between_low_and_high() {
    let mut book = OrderBook::new(OrderSide::new(), OrderSide::new(), Vec::new(), Point::new(400, 400, 400, 400, 1000));
    let rounds = [(700u32, 30u32), (410, 500), (900, 1), (401, 9999), (650, 77)];
    for (price, qty) in rounds {
        book.add_buy_order(Transaction::buy("X".to_string(), price, qty)).unwrap();
        book.add_sell_order(Transaction::sell("X".to_string(), 1, qty)).unwrap();
        book.execute();
        let p = book.cur_point();
        assert!(p.low <= p.close && p.close <= p.high, "{:?}", p);
    }
    let p = book.cur_point();
    assert_eq!(p.high, 900);
    assert_eq!(p.low, 400);
    assert_eq!(p.volume, 1000 + 30 + 500 + 1 + 9999 + 77);
}

#[test]
fn flush_appends_point_and_resets() {
    let mut book = OrderBook::new(OrderSide::new(), OrderSide::new(), Vec::new(), Point::new(400, 400, 400, 400, 1000));
    book.add_buy_order(Transaction::buy("X".to_string(), 500, 1000)).unwrap();
    book.add_sell_order(Transaction::sell("X".to_string(), 500, 1000)).unwrap();
    book.execute();
    let before = book.cur_point();
    book.flush();
    assert_eq!(book.points().len(), 1);
    assert_eq!(book.points()[0], before);
    assert_eq!(book.cur_point(), Point::new(450, 450, 450, 450, 0));
    book.flush();
    assert_eq!(book.points_mut(), vec![before, Point::new(450, 450, 450, 450, 0)]);
}

#[test]
fn weighted_close_after_flush_is_the_trade_price() {
    let mut book = OrderBook::default();
    book.submit(Transaction::buy("X".to_string(), 300, 10)).unwrap();
    book.submit(Transaction::sell("X".to_string(), 100, 10)).unwrap();
    assert_eq!(book.cur_point(), Point::new(0, 300, 0, 300, 10));
    book.flush();
    book.submit(Transaction::buy("X".to_string(), 200, 30)).unwrap();
    book.submit(Transaction::sell("X".to_string(), 200, 10)).unwrap();
    // (10 * 200 + 0 * 300) / 10
    assert_eq!(book.cur_point(), Point::new(300, 300, 200, 200, 10));
    book.submit(Transaction::sell("X".to_string(), 150, 20)).unwrap();
    // (20 * 200 + 10 * 200) / 30 = 200; buy side emptied
    assert_eq!(book.cur_point().volume, 30);
    assert!(book.buy_orders().is_empty());
}

#[test]
fn rounding_of_the_close_goes_down() {
    let mut book = OrderBook::new(OrderSide::new(), OrderSide::new(), Vec::new(), Point::new(100, 100, 100, 100, 2));
    book.submit(Transaction::sell("X".to_string(), 1, 1)).unwrap();
    book.submit(Transaction::buy("X".to_string(), 101, 1)).unwrap();
    // (1 * 101 + 2 * 100) / 3 = 100.33..
    assert_eq!(book.cur_point().close, 100);
    assert_eq!(book.cur_point().high, 101);
}

#[test]
fn equal_prices_cross() {
    let mut book = OrderBook::default();
    book.submit(Transaction::sell("X".to_string(), 250, 5)).unwrap();
    book.submit(Transaction::buy("X".to_string(), 250, 5)).unwrap();
    assert_eq!(book.cur_point().volume, 5);
    assert!(book.buy_orders().is_empty() && book.sell_orders().is_empty());
}

#[test]
fn sell_side_serves_highest_price_first() {
    let mut book = OrderBook::default();
    book.submit(Transaction::sell("X".to_string(), 100, 5)).unwrap();
    book.submit(Transaction::sell("X".to_string(), 300, 5)).unwrap();
    book.submit(Transaction::sell("X".to_string(), 200, 5)).unwrap();
    assert_eq!(book.sell_orders().peek_best().unwrap().price(), 300);
    // the best sell (300) does not cross 250, so nothing trades
    book.submit(Transaction::buy("X".to_string(), 250, 5)).unwrap();
    assert_eq!(book.cur_point().volume, 0);
    assert_eq!(book.sell_orders().len(), 3);
}

#[test]
fn refuses_zero_price() {
    let mut book = OrderBook::default();
    assert_eq!(book.submit(Transaction::buy("X".to_string(), 0, 5)), Err(OrderError::NonPositivePrice));
    assert_eq!(book.add_sell_order(Transaction::sell("X".to_string(), 0, 0)), Err(OrderError::NonPositivePrice));
    assert!(book.buy_orders().is_empty() && book.sell_orders().is_empty());
}

#[test]
fn refuses_zero_quantity() {
    let mut book = OrderBook::default();
    assert_eq!(book.submit(Transaction::sell("X".to_string(), 10, 0)), Err(OrderError::NonPositiveQuantity));
    assert_eq!(book.add_buy_order(Transaction::buy("X".to_string(), 10, 0)), Err(OrderError::NonPositiveQuantity));
    let mut side = OrderSide::new();
    assert_eq!(side.push(Transaction::buy("X".to_string(), 10, 0)), Err(OrderError::NonPositiveQuantity));
    assert!(side.is_empty());
}

#[test]
fn order_side_pops_in_price_order() {
    let mut side = OrderSide::new();
    for p in [5u32, 1, 9, 3, 9, 7] {
        side.push(Transaction::buy("X".to_string(), p, 1)).unwrap();
    }
    let mut out = Vec::new();
    while let Some(t) = side.pop_best() {
        out.push(t.price());
    }
    assert_eq!(out, vec![9, 9, 7, 5, 3, 1]);
    assert!(side.peek_best().is_none());
}

#[test]
fn first_orders_for_a_new_symbol_share_one_book() {
    let registry: DashMap<String, OrderBook> = DashMap::new();
    for t in [Transaction::buy("X".to_string(), 100, 5), Transaction::sell("X".to_string(), 200, 5)] {
        registry.entry("X".to_string()).or_default().submit(t).unwrap();
    }
    assert_eq!(registry.len(), 1);
    let book = registry.get("X").unwrap();
    assert_eq!(book.buy_orders().len(), 1);
    assert_eq!(book.sell_orders().len(), 1);
}

#[test]
fn simulate_adds_matching_pairs() {
    let mut book = OrderBook::default();
    book.simulate(&"X".to_string());
    let p = book.cur_point();
    assert!(p.volume >= 100, "{:?}", p);
    assert!(p.high >= 50 && p.high <= 100);
    assert!(book.buy_orders().is_empty());
    assert!(book.sell_orders().is_empty());
    assert!(book.points().is_empty());
}
