//! What the two decision functions are shown, and what it means that they gave an answer.

use vstd::prelude::*;
use crate::model::{state_after, state_at_exits, Decisions};
use crate::portfolio::Portfolio;
use crate::table::rectangular;
use crate::trade::TradeActionIn;

verus! {

/// What the enter decision is shown on a bar: the bar, its price, a copy of the ledger as it
/// stood when the bar began, and the whole table.
#[derive(Debug)]
pub struct EnterMarketInfo<'a, P> {
    pub index: i32,
    pub current_price: P,
    pub holding: i32,
    pub inmarket: i32,
    pub data: &'a Vec<Vec<P>>,
}

/// What the exit decision is shown for one open position on a bar: the bar, its price, the
/// bar and price at which the position was opened, a copy of the ledger as it stood when the
/// bar's entry had been settled, and the whole table.
#[derive(Debug)]
pub struct ExitMarketInfo<'a, P> {
    pub index: i32,
    pub current_price: P,
    pub index_in: i32,
    pub price_in: P,
    pub holding: i32,
    pub inmarket: i32,
    pub data: &'a Vec<Vec<P>>,
}

/// The enter context of bar `index` under `ledger`.
pub open spec fn enter_info<'a, P>(
    values: &'a Vec<Vec<P>>,
    index: i32,
    ledger: Portfolio,
) -> EnterMarketInfo<'a, P> {
    EnterMarketInfo {
        index,
        current_price: values[0][index as int],
        holding: ledger.holding,
        inmarket: ledger.inmarket,
        data: values,
    }
}

/// The exit context of `position` on bar `index` under `ledger`.
pub open spec fn exit_info<'a, P>(
    values: &'a Vec<Vec<P>>,
    index: i32,
    position: TradeActionIn<P>,
    ledger: Portfolio,
) -> ExitMarketInfo<'a, P> {
    ExitMarketInfo {
        index,
        current_price: values[0][index as int],
        index_in: position.index_in,
        price_in: position.price_in,
        holding: ledger.holding,
        inmarket: ledger.inmarket,
        data: values,
    }
}

impl<'a, P> EnterMarketInfo<'a, P> {
    /// What holds of every enter context that a run over `values` with `capital` hands out.
    /// An enter decision has to answer for these contexts, and for no others.
    pub open spec fn shown_in(self, values: &Vec<Vec<P>>, capital: i32) -> bool {
        &&& *self.data == *values
        &&& values.len() > 0
        &&& rectangular(values@)
        &&& 0 <= self.index < values[0].len()
        &&& self.current_price == values[0][self.index as int]
        &&& 0 <= self.holding
        &&& 0 <= self.inmarket
        &&& self.holding + self.inmarket == capital
    }
}

impl<'a, P> ExitMarketInfo<'a, P> {
    /// What holds of every exit context that a run over `values` with `capital` hands out.
    /// An exit decision has to answer for these contexts, and for no others.
    pub open spec fn shown_in(self, values: &Vec<Vec<P>>, capital: i32) -> bool {
        &&& *self.data == *values
        &&& values.len() > 0
        &&& rectangular(values@)
        &&& 0 <= self.index_in <= self.index < values[0].len()
        &&& self.current_price == values[0][self.index as int]
        &&& self.price_in == values[0][self.index_in as int]
        &&& 0 <= self.holding
        &&& 0 < self.inmarket
        &&& self.holding + self.inmarket == capital
    }
}

/// On bar `n` of a run over `values`, the answers in `d` are answers that the decision
/// functions gave: the enter decision was shown the bar under the ledger as it stood when the
/// bar began, and the exit decision was shown each position that was open once the bar's
/// entry had been settled, under the ledger as it stood then.
pub open spec fn bar_answered<P, E, X>(
    values: &Vec<Vec<P>>,
    capital: i32,
    amt: i32,
    enter_fn: E,
    exit_fn: X,
    d: Decisions,
    n: nat,
) -> bool where E: Fn(EnterMarketInfo<P>) -> bool, X: Fn(ExitMarketInfo<P>) -> bool {
    let before = state_after(values[0]@, capital, amt, d, n);
    let at_exits = state_at_exits(values[0]@, capital, amt, d, n);
    &&& enter_fn.ensures((enter_info(values, n as i32, before.portfolio),), d.enter[n as int])
    &&& d.exit[n as int].len() == at_exits.open.len()
    &&& forall|k: int|
        0 <= k < at_exits.open.len() ==> exit_fn.ensures(
            (exit_info(values, n as i32, at_exits.open[k], at_exits.portfolio),),
            #[trigger] d.exit[n as int][k],
        )
}

/// The answers in `d` are answers that the decision functions gave over a whole run over
/// `values`: one enter answer for each bar, and on each bar one exit answer for each
/// position that was open.
pub open spec fn answered<P, E, X>(
    values: &Vec<Vec<P>>,
    capital: i32,
    amt: i32,
    enter_fn: E,
    exit_fn: X,
    d: Decisions,
) -> bool where E: Fn(EnterMarketInfo<P>) -> bool, X: Fn(ExitMarketInfo<P>) -> bool {
    &&& d.enter.len() == values[0].len()
    &&& d.exit.len() == values[0].len()
    &&& forall|n: nat|
        n < values[0].len() ==> #[trigger] bar_answered(values, capital, amt, enter_fn, exit_fn, d, n)
}

} // verus!
