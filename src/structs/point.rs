use vstd::arithmetic::div_mod::{lemma_div_is_ordered, lemma_div_multiples_vanish};
use vstd::prelude::*;

verus! {

/// The open, high, low and close prices (in ticks) and the traded volume of
/// one interval.
#[derive(Clone, Copy, Debug, PartialEq, Eq, Structural)]
pub struct Point {
    pub open: u32,
    pub high: u32,
    pub low: u32,
    pub close: u32,
    pub volume: u64,
}

/// The close lies between the low and the high.
pub open spec fn in_band(p: Point) -> bool {
    p.low <= p.close <= p.high
}

/// `p` after a trade of `amount` units at `price`: the close becomes the
/// volume-weighted mean of the old close and the price, rounded down.
pub open spec fn traded(p: Point, price: u32, amount: u32) -> Point {
    Point {
        open: p.open,
        high: if price > p.high {
            price
        } else {
            p.high
        },
        low: if price < p.low {
            price
        } else {
            p.low
        },
        close: ((amount * price + p.volume * p.close) / (amount + p.volume)) as u32,
        volume: (p.volume + amount) as u64,
    }
}

/// A weighted mean, rounded down, lies between the two values averaged.
pub proof fn lemma_weighted_mean_between(a: int, x: int, v: int, c: int)
    requires
        a > 0,
        v >= 0,
        x >= 0,
        c >= 0,
    ensures
        (if x < c {
            x
        } else {
            c
        }) <= (a * x + v * c) / (a + v),
        (a * x + v * c) / (a + v) <= if x > c {
            x
        } else {
            c
        },
{
    let m = if x < c {
        x
    } else {
        c
    };
    let hi = if x > c {
        x
    } else {
        c
    };
    let d = a + v;
    assert(d * m <= a * x + v * c) by (nonlinear_arith)
        requires
            m <= x,
            m <= c,
            a > 0,
            v >= 0,
            d == a + v,
    ;
    assert(a * x + v * c <= d * hi) by (nonlinear_arith)
        requires
            x <= hi,
            c <= hi,
            a > 0,
            v >= 0,
            d == a + v,
    ;
    lemma_div_is_ordered(d * m, a * x + v * c, d);
    lemma_div_is_ordered(a * x + v * c, d * hi, d);
    lemma_div_multiples_vanish(m, d);
    lemma_div_multiples_vanish(hi, d);
}

/// A trade keeps the close between the low and the high.
pub proof fn lemma_traded_in_band(p: Point, price: u32, amount: u32)
    requires
        in_band(p),
        amount > 0,
    ensures
        in_band(traded(p, price, amount)),
{
    lemma_weighted_mean_between(amount as int, price as int, p.volume as int, p.close as int);
}

impl Point {
    pub fn new(open: u32, high: u32, low: u32, close: u32, volume: u64) -> (r: Self)
        ensures
            r == (Point { open, high, low, close, volume }),
    {
        Self { open, high, low, close, volume }
    }

    /// The point of an instrument that has not traded yet: all zero.
    pub fn blank() -> (r: Self)
        ensures
            r == (Point { open: 0, high: 0, low: 0, close: 0, volume: 0 }),
    {
        Self { open: 0, high: 0, low: 0, close: 0, volume: 0 }
    }

    pub fn borrow(&self) -> (r: &Self)
        ensures
            *r == *self,
    {
        self
    }

    /// Folds a trade of `amount` units at `price` into the point.
    pub(crate) fn record_trade(&mut self, price: u32, amount: u32)
        requires
            amount > 0,
            old(self).volume + amount <= u64::MAX,
        ensures
            *final(self) == traded(*old(self), price, amount),
    {
        let a = amount as u128;
        let v = self.volume as u128;
        assert(a * (price as u128) <= 0xffff_ffff_ffff_ffff) by (nonlinear_arith)
            requires
                a <= 0xffff_ffff,
                price <= 0xffff_ffff,
        ;
        assert(v * (self.close as u128) <= 0xffff_ffff_ffff_ffff_ffff_ffff) by (nonlinear_arith)
            requires
                v <= 0xffff_ffff_ffff_ffff,
                self.close <= 0xffff_ffff,
        ;
        let num: u128 = a * (price as u128) + v * (self.close as u128);
        let den: u128 = a + v;
        let mean = num / den;
        proof {
            lemma_weighted_mean_between(a as int, price as int, v as int, self.close as int);
        }
        self.close = mean as u32;
        self.volume = self.volume + amount as u64;
        if price > self.high {
            self.high = price;
        }
        if price < self.low {
            self.low = price;
        }
    }
}

} // verus!
