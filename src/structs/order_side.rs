use super::transaction::{OrderView, Transaction};
use vstd::prelude::*;

verus! {

/// Why an order was turned away before reaching the book.
#[derive(Clone, Copy, Debug, PartialEq, Eq, Structural)]
pub enum OrderError {
    NonPositivePrice,
    NonPositiveQuantity,
}

/// Prices never decrease from front to back.
pub open spec fn sorted_by_price(s: Seq<OrderView>) -> bool {
    forall|i: int, j: int|
        0 <= i <= j < s.len() ==> #[trigger] s[i].price <= #[trigger] s[j].price
}

/// A side holds only priced, non-empty orders, cheapest first.
pub open spec fn side_wf(s: Seq<OrderView>) -> bool {
    &&& sorted_by_price(s)
    &&& forall|i: int| 0 <= i < s.len() ==> #[trigger] s[i].price > 0 && s[i].amount > 0
}

/// How many orders of `s` are priced at most `price`.
pub open spec fn count_le(s: Seq<OrderView>, price: u32) -> nat
    decreases s.len(),
{
    if s.len() == 0 {
        0
    } else {
        count_le(s.drop_last(), price) + if s.last().price <= price {
            1nat
        } else {
            0nat
        }
    }
}

/// `o` placed after every order priced at most its own price.
pub open spec fn insert_sorted(s: Seq<OrderView>, o: OrderView) -> Seq<OrderView> {
    s.insert(count_le(s, o.price) as int, o)
}

/// The quantity resting in `s`.
pub open spec fn total(s: Seq<OrderView>) -> int
    decreases s.len(),
{
    if s.len() == 0 {
        0
    } else {
        total(s.drop_last()) + s.last().amount
    }
}

proof fn lemma_count_le_split(s: Seq<OrderView>, price: u32, i: int)
    requires
        0 <= i <= s.len(),
        forall|k: int| 0 <= k < i ==> #[trigger] s[k].price <= price,
        forall|k: int| i <= k < s.len() ==> #[trigger] s[k].price > price,
    ensures
        count_le(s, price) == i,
    decreases s.len(),
{
    if s.len() > 0 {
        let t = s.drop_last();
        if i == s.len() {
            assert(s.last().price <= price);
            lemma_count_le_split(t, price, i - 1);
        } else {
            assert(s.last().price > price);
            lemma_count_le_split(t, price, i);
        }
    }
}

proof fn lemma_count_le_sorted(s: Seq<OrderView>, price: u32)
    requires
        sorted_by_price(s),
    ensures
        count_le(s, price) <= s.len(),
        forall|k: int| 0 <= k < count_le(s, price) ==> #[trigger] s[k].price <= price,
        forall|k: int| count_le(s, price) <= k < s.len() ==> #[trigger] s[k].price > price,
    decreases s.len(),
{
    if s.len() > 0 {
        let t = s.drop_last();
        assert(sorted_by_price(t)) by {
            assert forall|i: int, j: int| 0 <= i <= j < t.len() implies #[trigger] t[i].price
                <= #[trigger] t[j].price by {
                assert(s[i].price <= s[j].price);
            }
        }
        lemma_count_le_sorted(t, price);
        let c = count_le(t, price) as int;
        if s.last().price <= price {
            assert forall|k: int| 0 <= k < s.len() implies #[trigger] s[k].price <= price by {
                assert(s[k].price <= s[s.len() - 1].price);
            }
            if c < t.len() {
                assert(t[c].price > price);
                assert(s[c].price <= price);
            }
            assert(count_le(s, price) == s.len());
        } else {
            assert(count_le(s, price) == c);
            assert forall|k: int| 0 <= k < c implies #[trigger] s[k].price <= price by {
                assert(t[k] == s[k]);
            }
            assert forall|k: int| c <= k < s.len() implies #[trigger] s[k].price > price by {
                if k < t.len() {
                    assert(t[k] == s[k]);
                }
            }
        }
    }
}

/// Never more orders are priced at most `price` than there are orders.
pub proof fn lemma_count_le_len(s: Seq<OrderView>, price: u32)
    ensures
        count_le(s, price) <= s.len(),
    decreases s.len(),
{
    if s.len() > 0 {
        lemma_count_le_len(s.drop_last(), price);
    }
}

/// Taking the best order off a valid side leaves a valid side.
pub proof fn lemma_drop_last_wf(s: Seq<OrderView>)
    requires
        side_wf(s),
        s.len() > 0,
    ensures
        side_wf(s.drop_last()),
        total(s.drop_last()) == total(s) - s.last().amount,
{
    let t = s.drop_last();
    assert forall|i: int, j: int| 0 <= i <= j < t.len() implies #[trigger] t[i].price
        <= #[trigger] t[j].price by {
        assert(s[i].price <= s[j].price);
    }
    assert forall|i: int| 0 <= i < t.len() implies #[trigger] t[i].price > 0 && t[i].amount > 0 by {
        assert(t[i] == s[i]);
    }
}

/// Inserting an order adds its quantity to the side's total.
pub proof fn lemma_total_insert(s: Seq<OrderView>, i: int, o: OrderView)
    requires
        0 <= i <= s.len(),
    ensures
        total(s.insert(i, o)) == total(s) + o.amount,
    decreases s.len(),
{
    let u = s.insert(i, o);
    s.insert_ensures(i, o);
    if i == s.len() {
        assert(u.drop_last() =~= s);
    } else {
        let t = s.drop_last();
        lemma_total_insert(t, i, o);
        t.insert_ensures(i, o);
        assert(u.drop_last() =~= t.insert(i, o));
    }
}

/// Placing a valid order into a valid side keeps it valid and adds its quantity.
pub proof fn lemma_insert_sorted_wf(s: Seq<OrderView>, o: OrderView)
    requires
        side_wf(s),
        o.price > 0,
        o.amount > 0,
    ensures
        side_wf(insert_sorted(s, o)),
        insert_sorted(s, o).len() == s.len() + 1,
        total(insert_sorted(s, o)) == total(s) + o.amount,
{
    lemma_count_le_sorted(s, o.price);
    let p = count_le(s, o.price) as int;
    let u = insert_sorted(s, o);
    s.insert_ensures(p, o);
    lemma_total_insert(s, p, o);
    assert forall|i: int, j: int| 0 <= i <= j < u.len() implies #[trigger] u[i].price
        <= #[trigger] u[j].price by {
        if i < p && j < p {
            assert(s[i].price <= s[j].price);
        } else if i < p && j > p {
            assert(s[i].price <= s[j - 1].price);
        } else if i > p {
            assert(s[i - 1].price <= s[j - 1].price);
        }
    }
    assert forall|i: int| 0 <= i < u.len() implies #[trigger] u[i].price > 0 && u[i].amount > 0 by {
        if i < p {
            assert(u[i] == s[i]);
        } else if i > p {
            assert(u[i] == s[i - 1]);
        }
    }
}

/// The resting orders of one side of one instrument, ordered by price alone.
/// The best order is the one with the highest price.
pub struct OrderSide {
    orders: Vec<Transaction>,
}

impl View for OrderSide {
    type V = Seq<OrderView>;

    closed spec fn view(&self) -> Seq<OrderView> {
        self.orders@.map_values(|t: Transaction| t@)
    }
}

impl OrderSide {
    pub open spec fn wf(&self) -> bool {
        side_wf(self@)
    }

    pub fn new() -> (r: Self)
        ensures
            r@ == Seq::<OrderView>::empty(),
            r.wf(),
    {
        let r = OrderSide { orders: Vec::new() };
        assert(r@ =~= Seq::<OrderView>::empty());
        r
    }

    pub fn len(&self) -> (r: usize)
        ensures
            r == self@.len(),
    {
        self.orders.len()
    }

    pub fn is_empty(&self) -> (r: bool)
        ensures
            r == (self@.len() == 0),
    {
        self.orders.len() == 0
    }

    /// The quantity resting on this side.
    pub fn total_quantity(&self) -> (r: u128)
        ensures
            r == total(self@),
    {
        let ghost s = self@;
        let mut sum: u128 = 0;
        let mut i: usize = 0;
        while i < self.orders.len()
            invariant
                s == self@,
                i <= s.len(),
                sum == total(s.subrange(0, i as int)),
                sum <= i * 0xffff_ffffu128,
            decreases s.len() - i,
        {
            assert(s[i as int] == self.orders@[i as int]@);
            let amount = self.orders[i].amount();
            assert(sum + amount <= (i + 1) * 0xffff_ffffu128) by (nonlinear_arith)
                requires
                    sum <= i * 0xffff_ffffu128,
                    amount <= 0xffff_ffffu32,
            ;
            assert((i + 1) * 0xffff_ffffu128 <= 0x1_0000_0000_0000_0000 * 0xffff_ffffu128) by (nonlinear_arith)
                requires
                    i < usize::MAX,
                    usize::MAX <= 0xffff_ffff_ffff_ffff,
            ;
            sum = sum + amount as u128;
            assert(s.subrange(0, i + 1).drop_last() =~= s.subrange(0, i as int));
            i = i + 1;
        }
        assert(s.subrange(0, i as int) =~= s);
        sum
    }

    /// The index after every order priced at most `price`.
    fn insertion_index(&self, price: u32) -> (r: usize)
        requires
            self.wf(),
        ensures
            r == count_le(self@, price),
    {
        let ghost s = self@;
        let mut lo: usize = 0;
        let mut hi: usize = self.orders.len();
        while lo < hi
            invariant
                s == self@,
                side_wf(s),
                0 <= lo <= hi <= s.len(),
                forall|k: int| 0 <= k < lo ==> #[trigger] s[k].price <= price,
                forall|k: int| hi <= k < s.len() ==> #[trigger] s[k].price > price,
            decreases hi - lo,
        {
            let mid = lo + (hi - lo) / 2;
            assert(s[mid as int] == self.orders@[mid as int]@);
            if self.orders[mid].price() <= price {
                assert forall|k: int| 0 <= k <= mid implies #[trigger] s[k].price <= price by {
                    assert(s[k].price <= s[mid as int].price);
                }
                lo = mid + 1;
            } else {
                assert forall|k: int| mid <= k < s.len() implies #[trigger] s[k].price > price by {
                    assert(s[mid as int].price <= s[k].price);
                }
                hi = mid;
            }
        }
        proof {
            lemma_count_le_split(s, price, lo as int);
        }
        lo
    }

    /// Adds an order; one without a positive price and quantity is refused
    /// and the side stays as it was.
    pub fn push(&mut self, t: Transaction) -> (r: Result<(), OrderError>)
        requires
            old(self).wf(),
        ensures
            final(self).wf(),
            t@.price == 0 ==> r == Err::<(), OrderError>(OrderError::NonPositivePrice),
            t@.price > 0 && t@.amount == 0 ==> r == Err::<(), OrderError>(
                OrderError::NonPositiveQuantity,
            ),
            r is Ok <==> (t@.price > 0 && t@.amount > 0),
            r is Ok ==> final(self)@ == insert_sorted(old(self)@, t@),
            r is Err ==> final(self)@ == old(self)@,
    {
        if t.price() == 0 {
            return Err(OrderError::NonPositivePrice);
        }
        if t.amount() == 0 {
            return Err(OrderError::NonPositiveQuantity);
        }
        let i = self.insertion_index(t.price());
        proof {
            lemma_count_le_sorted(self@, t@.price);
            lemma_insert_sorted_wf(self@, t@);
        }
        let ghost tv = t@;
        let ghost before = self.orders@;
        self.orders.insert(i, t);
        assert(self@ =~= insert_sorted(old(self)@, tv)) by {
            before.insert_ensures(i as int, t);
            old(self)@.insert_ensures(i as int, tv);
        }
        Ok(())
    }

    /// The highest-priced order, if any.
    pub fn peek_best(&self) -> (r: Option<&Transaction>)
        ensures
            r is Some <==> self@.len() > 0,
            r is Some ==> r->Some_0@ == self@.last(),
    {
        let n = self.orders.len();
        if n == 0 {
            None
        } else {
            Some(&self.orders[n - 1])
        }
    }

    /// Removes and returns the highest-priced order, if any.
    pub fn pop_best(&mut self) -> (r: Option<Transaction>)
        requires
            old(self).wf(),
        ensures
            final(self).wf(),
            old(self)@.len() == 0 ==> r is None && final(self)@ == old(self)@,
            old(self)@.len() > 0 ==> r is Some && r->Some_0@ == old(self)@.last() && final(self)@
                == old(self)@.drop_last(),
    {
        let r = self.orders.pop();
        assert(self@ =~= old(self)@.drop_last() || old(self)@.len() == 0);
        proof {
            let s = self@;
            assert forall|i: int, j: int| 0 <= i <= j < s.len() implies #[trigger] s[i].price
                <= #[trigger] s[j].price by {
                assert(old(self)@[i].price <= old(self)@[j].price);
            }
            assert forall|i: int| 0 <= i < s.len() implies #[trigger] s[i].price > 0
                && s[i].amount > 0 by {
                assert(s[i] == old(self)@[i]);
            }
        }
        r
    }
}

} // verus!
