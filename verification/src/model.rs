//! The run as mathematics: the books of a run, and how each decision changes them.
//!
//! A run is determined by its price series, its initial capital, its trade size and the
//! answers that the two decision functions give. The functions here say what the books are
//! after any number of bars, for any answers; the executable engine is proved to follow them.

use vstd::prelude::*;
use crate::portfolio::Portfolio;
use crate::trade::{TradeActionIn, TradeActionOut};

verus! {

/// The books of a run at some moment: the ledger, the open positions, oldest first, and the
/// completed trades in the order in which they were closed.
pub struct RunState<P> {
    pub portfolio: Portfolio,
    pub open: Seq<TradeActionIn<P>>,
    pub closed: Seq<TradeActionOut<P>>,
}

/// The answers of the decision functions over a run. `enter[n]` is the enter decision's
/// answer on bar `n`; `exit[n][k]` is the exit decision's answer on bar `n` for the `k`-th
/// of the positions that were open once the bar's entry had been settled.
pub struct Decisions {
    pub enter: Seq<bool>,
    pub exit: Seq<Seq<bool>>,
}

/// The capital that the positions of `open` have committed between them.
pub open spec fn committed_capital<P>(open: Seq<TradeActionIn<P>>) -> int
    decreases open.len(),
{
    if open.len() == 0 {
        0
    } else {
        committed_capital(open.drop_last()) + open.last().amt
    }
}

impl<P> RunState<P> {
    /// The books balance: the ledger is sound, no position has a negative size, and the
    /// ledger's market side is exactly what the open positions have committed.
    pub open spec fn wf(self) -> bool {
        &&& self.portfolio.wf()
        &&& forall|i: int| 0 <= i < self.open.len() ==> (#[trigger] self.open[i]).amt >= 0
        &&& committed_capital(self.open) == self.portfolio.inmarket
    }
}

/// The books before the first bar: all of `capital` is free, nothing is open, nothing closed.
pub open spec fn opening<P>(capital: i32) -> RunState<P> {
    RunState {
        portfolio: Portfolio { holding: capital, inmarket: 0 },
        open: Seq::empty(),
        closed: Seq::empty(),
    }
}

/// Whether bar's entry is taken: the ledger must afford the trade, and the enter decision
/// must have fired.
pub open spec fn enters<P>(s: RunState<P>, amt: i32, decision: bool) -> bool {
    s.portfolio.affords(amt) && decision
}

/// The books once the entry of bar `index` has been settled. If the entry is taken, a
/// position of size `amt` is opened at `price` behind all the others and `amt` moves into
/// the market; if not, nothing changes.
pub open spec fn after_entry<P>(
    s: RunState<P>,
    index: i32,
    price: P,
    amt: i32,
    decision: bool,
) -> RunState<P> {
    if enters(s, amt, decision) {
        RunState {
            portfolio: s.portfolio.committing(amt),
            open: s.open.push(TradeActionIn { index_in: index, price_in: price, amt }),
            closed: s.closed,
        }
    } else {
        s
    }
}

/// The books once the first `k` open positions of `s` have been examined for an exit on bar
/// `index`, except that `open` holds only the examined positions that stay open. A position
/// whose answer is `true` is closed at `price`: its trade is recorded behind the earlier ones
/// and its capital comes back; a position whose answer is `false` stays, in its place in
/// line.
pub open spec fn exits_examined<P>(
    s: RunState<P>,
    index: i32,
    price: P,
    answers: Seq<bool>,
    k: int,
) -> RunState<P>
    decreases k,
{
    if k <= 0 {
        RunState { portfolio: s.portfolio, open: Seq::empty(), closed: s.closed }
    } else {
        let before = exits_examined(s, index, price, answers, k - 1);
        let position = s.open[k - 1];
        if answers[k - 1] {
            RunState {
                portfolio: before.portfolio.releasing(position.amt),
                open: before.open,
                closed: before.closed.push(position.closed_at(index, price)),
            }
        } else {
            RunState {
                portfolio: before.portfolio,
                open: before.open.push(position),
                closed: before.closed,
            }
        }
    }
}

/// The books once every open position of `s` has been examined for an exit on bar `index`,
/// each exactly once, oldest first.
pub open spec fn after_exits<P>(s: RunState<P>, index: i32, price: P, answers: Seq<bool>) -> RunState<
    P,
> {
    exits_examined(s, index, price, answers, s.open.len() as int)
}

/// The books once bar `index` is over: its entry is settled first, then its exits, so a
/// position may be closed on the bar on which it was opened.
pub open spec fn after_bar<P>(
    s: RunState<P>,
    index: i32,
    price: P,
    amt: i32,
    enter: bool,
    exit: Seq<bool>,
) -> RunState<P> {
    after_exits(after_entry(s, index, price, amt, enter), index, price, exit)
}

/// The books once the first `n` bars of `prices` are over, in a run that began with
/// `capital`, trades `amt` at a time and was given the answers `d`.
pub open spec fn state_after<P>(
    prices: Seq<P>,
    capital: i32,
    amt: i32,
    d: Decisions,
    n: nat,
) -> RunState<P>
    decreases n,
{
    if n == 0 {
        opening(capital)
    } else {
        let bar = (n - 1) as nat;
        after_bar(
            state_after(prices, capital, amt, d, bar),
            bar as i32,
            prices[bar as int],
            amt,
            d.enter[bar as int],
            d.exit[bar as int],
        )
    }
}

/// The books at the moment at which the exits of bar `n` are decided: the first `n` bars are
/// over and the entry of bar `n` has been settled.
pub open spec fn state_at_exits<P>(
    prices: Seq<P>,
    capital: i32,
    amt: i32,
    d: Decisions,
    n: nat,
) -> RunState<P> {
    after_entry(state_after(prices, capital, amt, d, n), n as i32, prices[n as int], amt, d.enter[n as int])
}

/// The positions that the run opened during its first `n` bars, in the order in which it
/// opened them, whether they are still open or not.
pub open spec fn opened<P>(prices: Seq<P>, capital: i32, amt: i32, d: Decisions, n: nat) -> Seq<
    TradeActionIn<P>,
>
    decreases n,
{
    if n == 0 {
        Seq::empty()
    } else {
        let bar = (n - 1) as nat;
        let earlier = opened(prices, capital, amt, d, bar);
        if enters(state_after(prices, capital, amt, d, bar), amt, d.enter[bar as int]) {
            earlier.push(TradeActionIn { index_in: bar as i32, price_in: prices[bar as int], amt })
        } else {
            earlier
        }
    }
}

/// The positions that the trades of `closed` closed, in the same order.
pub open spec fn entries_of<P>(closed: Seq<TradeActionOut<P>>) -> Seq<TradeActionIn<P>> {
    closed.map_values(|t: TradeActionOut<P>| t.entry())
}

/// Opening one more position commits its size on top of what was committed.
pub proof fn committed_capital_push<P>(open: Seq<TradeActionIn<P>>, position: TradeActionIn<P>)
    ensures
        committed_capital(open.push(position)) == committed_capital(open) + position.amt,
{
    assert(open.push(position).drop_last() =~= open);
}

/// Among positions of no negative size, the first `k` have committed no more than all of
/// them, and each further position adds its size.
pub proof fn committed_capital_take<P>(open: Seq<TradeActionIn<P>>, k: int)
    requires
        forall|i: int| 0 <= i < open.len() ==> (#[trigger] open[i]).amt >= 0,
        0 <= k <= open.len(),
    ensures
        0 <= committed_capital(open.take(k)) <= committed_capital(open),
        k < open.len() ==> committed_capital(open.take(k + 1)) == committed_capital(open.take(k))
            + open[k].amt,
    decreases open.len() - k,
{
    if k < open.len() {
        assert(open.take(k + 1).drop_last() =~= open.take(k));
        committed_capital_take(open, k + 1);
        committed_capital_nonnegative(open.take(k));
    } else {
        assert(open.take(k) =~= open);
        committed_capital_nonnegative(open);
    }
}

/// Positions of no negative size have committed no negative capital.
pub proof fn committed_capital_nonnegative<P>(open: Seq<TradeActionIn<P>>)
    requires
        forall|i: int| 0 <= i < open.len() ==> (#[trigger] open[i]).amt >= 0,
    ensures
        0 <= committed_capital(open),
    decreases open.len(),
{
    if open.len() > 0 {
        committed_capital_nonnegative(open.drop_last());
    }
}

} // verus!
