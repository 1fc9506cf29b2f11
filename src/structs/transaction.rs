use super::operation::Operation;
use vstd::prelude::*;

verus! {

/// What an order is, as a mathematical value.
pub struct OrderView {
    pub symbol: Seq<char>,
    pub price: u32,
    pub amount: u32,
    pub operation: Operation,
}

/// An order for `amount` units of `symbol` at `price` ticks. Orders are never
/// changed in place: a partial fill makes a new order for what is left.
#[derive(Debug)]
pub struct Transaction {
    symbol: String,
    price: u32,
    amount: u32,
    operation: Operation,
}

impl View for Transaction {
    type V = OrderView;

    closed spec fn view(&self) -> OrderView {
        OrderView {
            symbol: self.symbol@,
            price: self.price,
            amount: self.amount,
            operation: self.operation,
        }
    }
}

impl Transaction {
    pub fn buy(symbol: String, price: u32, amount: u32) -> (r: Self)
        ensures
            r@ == (OrderView { symbol: symbol@, price, amount, operation: Operation::Buy }),
    {
        Self { symbol, price, amount, operation: Operation::Buy }
    }

    pub fn sell(symbol: String, price: u32, amount: u32) -> (r: Self)
        ensures
            r@ == (OrderView { symbol: symbol@, price, amount, operation: Operation::Sell }),
    {
        Self { symbol, price, amount, operation: Operation::Sell }
    }

    pub fn symbol(&self) -> (r: &str)
        ensures
            r@ == self@.symbol,
    {
        self.symbol.as_str()
    }

    pub fn price(&self) -> (r: u32)
        ensures
            r == self@.price,
    {
        self.price
    }

    pub fn amount(&self) -> (r: u32)
        ensures
            r == self@.amount,
    {
        self.amount
    }

    pub fn operation(&self) -> (r: &Operation)
        ensures
            *r == self@.operation,
    {
        &self.operation
    }
}

} // verus!
