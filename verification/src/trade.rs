//! Positions, trades and the result of a run.

use vstd::prelude::*;

verus! {

/// An open position: capital that entered the market and has not left it yet.
#[derive(Debug)]
pub struct TradeActionIn<P> {
    /// The bar on which the position was opened.
    pub index_in: i32,
    /// The price at that bar.
    pub price_in: P,
    /// The capital committed to it.
    pub amt: i32,
}

/// A completed round trip: a position together with the bar and price at which it was closed.
#[derive(Debug)]
pub struct TradeActionOut<P> {
    pub index_in: i32,
    pub price_in: P,
    pub amt: i32,
    /// The bar on which the position was closed.
    pub index_out: i32,
    /// The price at that bar.
    pub price_out: P,
}

/// What a run reports: the positions that were still open when the table ran out, oldest
/// first, and the trades that were completed, in the order in which they were closed.
#[derive(Debug)]
pub struct BacktestResults<P> {
    pub tradesin: Vec<TradeActionIn<P>>,
    pub tradesout: Vec<TradeActionOut<P>>,
}

/// A report under the name by which callers print it.
#[derive(Debug)]
pub struct TradeInputResults<P> {
    pub returns: BacktestResults<P>,
}

impl<P: Copy> Clone for TradeActionOut<P> {
    /// A copy of the trade, field for field.
    fn clone(&self) -> (t: Self)
        ensures
            t == *self,
    {
        TradeActionOut {
            index_in: self.index_in,
            price_in: self.price_in,
            amt: self.amt,
            index_out: self.index_out,
            price_out: self.price_out,
        }
    }
}

impl<P> TradeActionOut<P> {
    /// The position that this trade closed.
    pub open spec fn entry(self) -> TradeActionIn<P> {
        TradeActionIn { index_in: self.index_in, price_in: self.price_in, amt: self.amt }
    }
}

impl<P> TradeActionIn<P> {
    /// The trade that closing this position on bar `index` at `price` records.
    pub open spec fn closed_at(self, index: i32, price: P) -> TradeActionOut<P> {
        TradeActionOut {
            index_in: self.index_in,
            price_in: self.price_in,
            amt: self.amt,
            index_out: index,
            price_out: price,
        }
    }
}

impl<P: Copy> TradeActionIn<P> {
    /// Closes the position on bar `index` at `price`.
    pub fn close(&self, index: i32, price: P) -> (t: TradeActionOut<P>)
        ensures
            t == self.closed_at(index, price),
    {
        TradeActionOut {
            index_in: self.index_in,
            price_in: self.price_in,
            amt: self.amt,
            index_out: index,
            price_out: price,
        }
    }
}

} // verus!
