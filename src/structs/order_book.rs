use super::operation::Operation;
use super::order_side::{
    OrderError, OrderSide, count_le, insert_sorted, lemma_count_le_len, lemma_drop_last_wf,
    lemma_insert_sorted_wf, side_wf, total,
};
use super::point::{Point, in_band, lemma_traded_in_band, traded};
use super::transaction::{OrderView, Transaction};
use rand::Rng;
use vstd::prelude::*;

verus! {

/// An order book as a mathematical value.
pub struct BookView {
    pub buy: Seq<OrderView>,
    pub sell: Seq<OrderView>,
    pub history: Seq<Point>,
    pub point: Point,
}

/// The quantity that changes hands when `b` meets `s`.
pub open spec fn fill_amount(b: OrderView, s: OrderView) -> u32 {
    if b.amount < s.amount {
        b.amount
    } else {
        s.amount
    }
}

/// The best buy and the best sell cross, and the volume can take the fill.
pub open spec fn crossing(buy: Seq<OrderView>, sell: Seq<OrderView>, p: Point) -> bool {
    &&& buy.len() > 0
    &&& sell.len() > 0
    &&& buy.last().price >= sell.last().price
    &&& p.volume + fill_amount(buy.last(), sell.last()) <= u64::MAX
}

/// The new order for what is left of `o` once `a` of it has filled.
pub open spec fn residual(o: OrderView, a: u32, op: Operation) -> OrderView {
    OrderView { symbol: o.symbol, price: o.price, amount: (o.amount - a) as u32, operation: op }
}

/// A side after its best order filled `a` units: the order leaves, and what
/// is left of it comes back as a new order.
pub open spec fn after_fill(side: Seq<OrderView>, a: u32, op: Operation) -> Seq<OrderView> {
    let o = side.last();
    if a < o.amount {
        insert_sorted(side.drop_last(), residual(o, a, op))
    } else {
        side.drop_last()
    }
}

/// One match of the best buy against the best sell, traded at the buy price.
pub open spec fn match_step(buy: Seq<OrderView>, sell: Seq<OrderView>, p: Point) -> (
    Seq<OrderView>,
    Seq<OrderView>,
    Point,
) {
    let a = fill_amount(buy.last(), sell.last());
    (
        after_fill(buy, a, Operation::Buy),
        after_fill(sell, a, Operation::Sell),
        traded(p, buy.last().price, a),
    )
}

/// Sides and point once every possible match has been made.
pub open spec fn match_all(buy: Seq<OrderView>, sell: Seq<OrderView>, p: Point) -> (
    Seq<OrderView>,
    Seq<OrderView>,
    Point,
)
    decreases buy.len() + sell.len(),
    via match_all_decreases
{
    if crossing(buy, sell, p) {
        let next = match_step(buy, sell, p);
        match_all(next.0, next.1, next.2)
    } else {
        (buy, sell, p)
    }
}

proof fn lemma_after_fill_len(side: Seq<OrderView>, a: u32, op: Operation)
    requires
        side.len() > 0,
    ensures
        a < side.last().amount ==> after_fill(side, a, op).len() == side.len(),
        a >= side.last().amount ==> after_fill(side, a, op).len() == side.len() - 1,
{
    let o = side.last();
    lemma_count_le_len(side.drop_last(), o.price);
    side.drop_last().insert_ensures(
        count_le(side.drop_last(), o.price) as int,
        residual(o, a, op),
    );
}

#[via_fn]
proof fn match_all_decreases(buy: Seq<OrderView>, sell: Seq<OrderView>, p: Point) {
    if crossing(buy, sell, p) {
        let a = fill_amount(buy.last(), sell.last());
        lemma_after_fill_len(buy, a, Operation::Buy);
        lemma_after_fill_len(sell, a, Operation::Sell);
    }
}

proof fn lemma_after_fill(side: Seq<OrderView>, a: u32, op: Operation)
    requires
        side_wf(side),
        side.len() > 0,
        0 < a <= side.last().amount,
    ensures
        side_wf(after_fill(side, a, op)),
        total(after_fill(side, a, op)) == total(side) - a,
{
    lemma_drop_last_wf(side);
    if a < side.last().amount {
        lemma_insert_sorted_wf(side.drop_last(), residual(side.last(), a, op));
    }
}

proof fn lemma_match_step(buy: Seq<OrderView>, sell: Seq<OrderView>, p: Point)
    requires
        side_wf(buy),
        side_wf(sell),
        crossing(buy, sell, p),
    ensures
        ({
            let next = match_step(buy, sell, p);
            let a = fill_amount(buy.last(), sell.last());
            &&& side_wf(next.0)
            &&& side_wf(next.1)
            &&& total(buy) - total(next.0) == a
            &&& total(sell) - total(next.1) == a
            &&& next.2.volume == p.volume + a
            &&& next.0.len() + next.1.len() < buy.len() + sell.len()
        }),
{
    let a = fill_amount(buy.last(), sell.last());
    lemma_after_fill(buy, a, Operation::Buy);
    lemma_after_fill(sell, a, Operation::Sell);
    lemma_after_fill_len(buy, a, Operation::Buy);
    lemma_after_fill_len(sell, a, Operation::Sell);
}

/// Matching when either side is empty changes nothing.
pub proof fn lemma_execute_idle_when_a_side_is_empty(
    buy: Seq<OrderView>,
    sell: Seq<OrderView>,
    p: Point,
)
    requires
        buy.len() == 0 || sell.len() == 0,
    ensures
        match_all(buy, sell, p) == (buy, sell, p),
{
}

/// Matching conserves quantity: what leaves the buy side equals what leaves
/// the sell side, and both equal the volume traded, for one match and for
/// any run of them.
pub proof fn lemma_match_conserves_quantity(buy: Seq<OrderView>, sell: Seq<OrderView>, p: Point)
    requires
        side_wf(buy),
        side_wf(sell),
    ensures
        crossing(buy, sell, p) ==> ({
            let next = match_step(buy, sell, p);
            &&& total(buy) - total(next.0) == fill_amount(buy.last(), sell.last())
            &&& total(sell) - total(next.1) == fill_amount(buy.last(), sell.last())
            &&& next.2.volume - p.volume == fill_amount(buy.last(), sell.last())
        }),
        ({
            let end = match_all(buy, sell, p);
            &&& side_wf(end.0)
            &&& side_wf(end.1)
            &&& total(buy) - total(end.0) == end.2.volume - p.volume
            &&& total(sell) - total(end.1) == end.2.volume - p.volume
            &&& end.2.volume >= p.volume
        }),
    decreases buy.len() + sell.len(),
{
    if crossing(buy, sell, p) {
        lemma_match_step(buy, sell, p);
        let next = match_step(buy, sell, p);
        lemma_match_conserves_quantity(next.0, next.1, next.2);
    }
}

/// Every match prices the close as a weighted mean of the old close and the
/// crossed buy price, so a close between the low and the high stays there
/// through any run of matches.
pub proof fn lemma_matching_keeps_close_in_band(
    buy: Seq<OrderView>,
    sell: Seq<OrderView>,
    p: Point,
)
    requires
        side_wf(buy),
        side_wf(sell),
        in_band(p),
    ensures
        in_band(match_all(buy, sell, p).2),
    decreases buy.len() + sell.len(),
{
    if crossing(buy, sell, p) {
        lemma_match_step(buy, sell, p);
        let a = fill_amount(buy.last(), sell.last());
        assert(a > 0);
        lemma_traded_in_band(p, buy.last().price, a);
        let next = match_step(buy, sell, p);
        lemma_matching_keeps_close_in_band(next.0, next.1, next.2);
    }
}

/// Lowest and highest price, in ticks, of a simulated order.
pub const SIM_PRICE_MIN: u32 = 50;

pub const SIM_PRICE_MAX: u32 = 100;

/// Lowest and highest quantity of a simulated order.
pub const SIM_AMOUNT_MIN: u32 = 100;

pub const SIM_AMOUNT_MAX: u32 = 500;

/// How many buy and sell pairs one simulation round adds.
pub const SIM_PAIRS: u32 = 9;

/// `side` with an order for `symbol` on side `op` added for each
/// (price, amount) pair of `pairs`, in turn.
pub open spec fn with_pairs(
    side: Seq<OrderView>,
    symbol: Seq<char>,
    pairs: Seq<(u32, u32)>,
    op: Operation,
) -> Seq<OrderView>
    decreases pairs.len(),
{
    if pairs.len() == 0 {
        side
    } else {
        insert_sorted(
            with_pairs(side, symbol, pairs.drop_last(), op),
            OrderView { symbol, price: pairs.last().0, amount: pairs.last().1, operation: op },
        )
    }
}

/// Relies on rand's `Rng::gen_range` on an inclusive range, drawn from
/// `rand::thread_rng`: a value within the range (it panics on an empty one).
#[verifier::external_body]
fn draw_between(lo: u32, hi: u32) -> (r: u32)
    requires
        lo <= hi,
    ensures
        lo <= r <= hi,
{
    rand::thread_rng().gen_range(lo..=hi)
}

/// The book of one instrument: its two sides, the point of the current
/// interval and the points of the intervals already closed, oldest first.
pub struct OrderBook {
    buy_order: OrderSide,
    sell_order: OrderSide,
    points_queue: Vec<Point>,
    cur_point: Point,
}

impl View for OrderBook {
    type V = BookView;

    closed spec fn view(&self) -> BookView {
        BookView {
            buy: self.buy_order@,
            sell: self.sell_order@,
            history: self.points_queue@,
            point: self.cur_point,
        }
    }
}

impl OrderBook {
    pub open spec fn wf(&self) -> bool {
        side_wf(self@.buy) && side_wf(self@.sell)
    }

    pub fn new(
        buy_order: OrderSide,
        sell_order: OrderSide,
        points_queue: Vec<Point>,
        cur_point: Point,
    ) -> (r: Self)
        ensures
            r@ == (BookView {
                buy: buy_order@,
                sell: sell_order@,
                history: points_queue@,
                point: cur_point,
            }),
            r.wf() == (buy_order.wf() && sell_order.wf()),
    {
        Self { buy_order, sell_order, points_queue, cur_point }
    }

    /// Rests an order on the buy side; an order without a positive price and
    /// quantity is refused.
    pub fn add_buy_order(&mut self, buy_order: Transaction) -> (r: Result<(), OrderError>)
        requires
            old(self).wf(),
        ensures
            final(self).wf(),
            r is Ok <==> (buy_order@.price > 0 && buy_order@.amount > 0),
            buy_order@.price == 0 ==> r == Err::<(), OrderError>(OrderError::NonPositivePrice),
            buy_order@.price > 0 && buy_order@.amount == 0 ==> r == Err::<(), OrderError>(
                OrderError::NonPositiveQuantity,
            ),
            r is Ok ==> final(self)@ == (BookView {
                buy: insert_sorted(old(self)@.buy, buy_order@),
                ..old(self)@
            }),
            r is Err ==> final(self)@ == old(self)@,
    {
        self.buy_order.push(buy_order)
    }

    /// Rests an order on the sell side; an order without a positive price and
    /// quantity is refused.
    pub fn add_sell_order(&mut self, sell_order: Transaction) -> (r: Result<(), OrderError>)
        requires
            old(self).wf(),
        ensures
            final(self).wf(),
            r is Ok <==> (sell_order@.price > 0 && sell_order@.amount > 0),
            sell_order@.price == 0 ==> r == Err::<(), OrderError>(OrderError::NonPositivePrice),
            sell_order@.price > 0 && sell_order@.amount == 0 ==> r == Err::<(), OrderError>(
                OrderError::NonPositiveQuantity,
            ),
            r is Ok ==> final(self)@ == (BookView {
                sell: insert_sorted(old(self)@.sell, sell_order@),
                ..old(self)@
            }),
            r is Err ==> final(self)@ == old(self)@,
    {
        self.sell_order.push(sell_order)
    }

    /// The points of the closed intervals, oldest first.
    pub fn points(&self) -> (r: &Vec<Point>)
        ensures
            r@ == self@.history,
    {
        &self.points_queue
    }

    /// A copy of the points of the closed intervals, oldest first.
    pub fn points_mut(&self) -> (r: Vec<Point>)
        ensures
            r@ == self@.history,
    {
        let mut r: Vec<Point> = Vec::new();
        let mut i: usize = 0;
        while i < self.points_queue.len()
            invariant
                i <= self.points_queue@.len(),
                r@ == self.points_queue@.subrange(0, i as int),
            decreases self.points_queue@.len() - i,
        {
            r.push(self.points_queue[i]);
            i = i + 1;
            assert(r@ =~= self.points_queue@.subrange(0, i as int));
        }
        assert(r@ =~= self.points_queue@);
        r
    }

    /// The point of the current interval.
    pub fn cur_point(&self) -> (r: Point)
        ensures
            r == self@.point,
    {
        self.cur_point
    }

    pub fn buy_orders(&self) -> (r: &OrderSide)
        ensures
            r@ == self@.buy,
    {
        &self.buy_order
    }

    pub fn sell_orders(&self) -> (r: &OrderSide)
        ensures
            r@ == self@.sell,
    {
        &self.sell_order
    }

    /// Matches the best buy against the best sell for as long as they cross.
    /// Each match trades the smaller of the two quantities at the buy price,
    /// and puts back what is left of the larger order as a new order. It
    /// stops early rather than let the volume pass `u64::MAX`.
    pub fn execute(&mut self)
        requires
            old(self).wf(),
        ensures
            final(self).wf(),
            final(self)@.history == old(self)@.history,
            (final(self)@.buy, final(self)@.sell, final(self)@.point) == match_all(
                old(self)@.buy,
                old(self)@.sell,
                old(self)@.point,
            ),
            old(self)@.buy.len() == 0 || old(self)@.sell.len() == 0 ==> final(self)@ == old(
                self,
            )@,
    {
        loop
            invariant
                self.wf(),
                self@.history == old(self)@.history,
                match_all(self@.buy, self@.sell, self@.point) == match_all(
                    old(self)@.buy,
                    old(self)@.sell,
                    old(self)@.point,
                ),
            ensures
                self.wf(),
                self@.history == old(self)@.history,
                (self@.buy, self@.sell, self@.point) == match_all(
                    old(self)@.buy,
                    old(self)@.sell,
                    old(self)@.point,
                ),
            decreases self@.buy.len() + self@.sell.len(),
        {
            let (bp, ba) = match self.buy_order.peek_best() {
                Some(b) => (b.price(), b.amount()),
                None => break ,
            };
            let (sp, sa) = match self.sell_order.peek_best() {
                Some(s) => (s.price(), s.amount()),
                None => break ,
            };
            if bp < sp {
                break ;
            }
            let a = if ba < sa {
                ba
            } else {
                sa
            };
            if self.cur_point.volume > u64::MAX - a as u64 {
                break ;
            }
            let ghost before = self@;
            proof {
                lemma_match_step(before.buy, before.sell, before.point);
            }
            let b = match self.buy_order.pop_best() {
                Some(b) => b,
                None => break ,
            };
            let s = match self.sell_order.pop_best() {
                Some(s) => s,
                None => break ,
            };
            self.cur_point.record_trade(bp, a);
            proof {
                lemma_drop_last_wf(before.buy);
                lemma_drop_last_wf(before.sell);
            }
            if a < ba {
                let rest = Transaction::buy(b.symbol().to_owned(), bp, ba - a);
                let _ = self.buy_order.push(rest);
            }
            if a < sa {
                let rest = Transaction::sell(s.symbol().to_owned(), sp, sa - a);
                let _ = self.sell_order.push(rest);
            }
            assert(self@.buy == match_step(before.buy, before.sell, before.point).0);
            assert(self@.sell == match_step(before.buy, before.sell, before.point).1);
        }
    }

    /// Closes the current interval: its point joins the history and the new
    /// point starts flat at the last close with no volume.
    pub fn flush(&mut self)
        ensures
            final(self)@ == (BookView {
                history: old(self)@.history.push(old(self)@.point),
                point: Point {
                    open: old(self)@.point.close,
                    high: old(self)@.point.close,
                    low: old(self)@.point.close,
                    close: old(self)@.point.close,
                    volume: 0,
                },
                ..old(self)@
            }),
            final(self).wf() == old(self).wf(),
    {
        let snapshot = self.cur_point;
        let c = snapshot.close;
        self.cur_point = Point::new(c, c, c, c, 0);
        self.points_queue.push(snapshot);
    }

    /// Takes in one order: rests it on the side its operation names, then
    /// matches. A refused order leaves the book as it was.
    pub fn submit(&mut self, t: Transaction) -> (r: Result<(), OrderError>)
        requires
            old(self).wf(),
        ensures
            final(self).wf(),
            r is Ok <==> (t@.price > 0 && t@.amount > 0),
            t@.price == 0 ==> r == Err::<(), OrderError>(OrderError::NonPositivePrice),
            t@.price > 0 && t@.amount == 0 ==> r == Err::<(), OrderError>(
                OrderError::NonPositiveQuantity,
            ),
            r is Err ==> final(self)@ == old(self)@,
            final(self)@.history == old(self)@.history,
            r is Ok && t@.operation == Operation::Buy ==> (
                final(self)@.buy,
                final(self)@.sell,
                final(self)@.point,
            ) == match_all(insert_sorted(old(self)@.buy, t@), old(self)@.sell, old(self)@.point),
            r is Ok && t@.operation == Operation::Sell ==> (
                final(self)@.buy,
                final(self)@.sell,
                final(self)@.point,
            ) == match_all(old(self)@.buy, insert_sorted(old(self)@.sell, t@), old(self)@.point),
    {
        let added = match t.operation() {
            Operation::Buy => self.add_buy_order(t),
            Operation::Sell => self.add_sell_order(t),
        };
        if added.is_ok() {
            self.execute();
        }
        added
    }

    /// Adds random pairs of orders, each a buy and a sell with one drawn
    /// price and one drawn quantity, then matches. Whatever is drawn, both
    /// sides gain and lose the same quantity and the history is kept.
    pub fn simulate(&mut self, symbol: &String)
        requires
            old(self).wf(),
        ensures
            final(self).wf(),
            final(self)@.history == old(self)@.history,
            exists|pairs: Seq<(u32, u32)>|
                {
                    &&& pairs.len() == SIM_PAIRS
                    &&& forall|k: int|
                        0 <= k < pairs.len() ==> SIM_PRICE_MIN <= (#[trigger] pairs[k]).0
                            <= SIM_PRICE_MAX && SIM_AMOUNT_MIN <= pairs[k].1 <= SIM_AMOUNT_MAX
                    &&& (final(self)@.buy, final(self)@.sell, final(self)@.point) == match_all(
                        with_pairs(old(self)@.buy, symbol@, pairs, Operation::Buy),
                        with_pairs(old(self)@.sell, symbol@, pairs, Operation::Sell),
                        old(self)@.point,
                    )
                },
            total(final(self)@.buy) - total(old(self)@.buy) == total(final(self)@.sell) - total(
                old(self)@.sell,
            ),
            final(self)@.point.volume >= old(self)@.point.volume,
    {
        let mut i: u32 = 0;
        let ghost mut pairs: Seq<(u32, u32)> = Seq::empty();
        while i < SIM_PAIRS
            invariant
                self.wf(),
                self@.history == old(self)@.history,
                self@.point == old(self)@.point,
                i <= SIM_PAIRS,
                pairs.len() == i,
                forall|k: int|
                    0 <= k < pairs.len() ==> SIM_PRICE_MIN <= (#[trigger] pairs[k]).0
                        <= SIM_PRICE_MAX && SIM_AMOUNT_MIN <= pairs[k].1 <= SIM_AMOUNT_MAX,
                self@.buy == with_pairs(old(self)@.buy, symbol@, pairs, Operation::Buy),
                self@.sell == with_pairs(old(self)@.sell, symbol@, pairs, Operation::Sell),
                total(self@.buy) - total(old(self)@.buy) == total(self@.sell) - total(
                    old(self)@.sell,
                ),
            decreases SIM_PAIRS - i,
        {
            let price = draw_between(SIM_PRICE_MIN, SIM_PRICE_MAX);
            let amount = draw_between(SIM_AMOUNT_MIN, SIM_AMOUNT_MAX);
            let buy = Transaction::buy(symbol.clone(), price, amount);
            let sell = Transaction::sell(symbol.clone(), price, amount);
            proof {
                lemma_insert_sorted_wf(self@.buy, buy@);
                lemma_insert_sorted_wf(self@.sell, sell@);
            }
            let _ = self.add_buy_order(buy);
            let _ = self.add_sell_order(sell);
            proof {
                let next = pairs.push((price, amount));
                assert(next.drop_last() =~= pairs);
                pairs = next;
            }
            i = i + 1;
        }
        let ghost before = self@;
        self.execute();
        proof {
            lemma_match_conserves_quantity(before.buy, before.sell, before.point);
        }
    }
}

impl Default for OrderBook {
    /// A book with no orders, no history and a blank point.
    fn default() -> (r: Self)
        ensures
            r@ == (BookView {
                buy: Seq::empty(),
                sell: Seq::empty(),
                history: Seq::empty(),
                point: Point { open: 0, high: 0, low: 0, close: 0, volume: 0 },
            }),
            r.wf(),
    {
        let r = OrderBook::new(OrderSide::new(), OrderSide::new(), Vec::new(), Point::blank());
        assert(r@.history =~= Seq::<Point>::empty());
        r
    }
}

} // verus!
