//! The simulation engine: the books in executable form, the two phases of a bar, and the run.

use vstd::prelude::*;
use crate::laws::{
    entry_keeps_order, position_of_run, run_ignores_later_answers, run_stays_orderly,
};
use crate::market::{
    answered, bar_answered, enter_info, exit_info, EnterMarketInfo, ExitMarketInfo,
};
use crate::model::{
    after_entry, after_exits, committed_capital, committed_capital_nonnegative,
    committed_capital_push, committed_capital_take, enters, exits_examined, opening, state_after,
    state_at_exits, Decisions, RunState,
};
use crate::portfolio::Portfolio;
use crate::table::{check_input, input_fault, rectangular, InvalidInput};
use crate::trade::{BacktestResults, TradeActionIn, TradeActionOut};

verus! {

/// The books of a run in progress.
#[derive(Debug)]
pub struct Simulation<P> {
    pub portfolio: Portfolio,
    /// The open positions, oldest first.
    pub tradesin: Vec<TradeActionIn<P>>,
    /// The completed trades, in the order in which they were closed.
    pub tradesout: Vec<TradeActionOut<P>>,
}

impl<P> View for Simulation<P> {
    type V = RunState<P>;

    open spec fn view(&self) -> RunState<P> {
        RunState { portfolio: self.portfolio, open: self.tradesin@, closed: self.tradesout@ }
    }
}

impl<P: Copy> Simulation<P> {
    /// The books before the first bar, with `holding` as the capital of the run.
    pub fn start(holding: i32) -> (sim: Simulation<P>)
        ensures
            sim@ == opening::<P>(holding),
            holding >= 0 ==> sim@.wf(),
    {
        Simulation { portfolio: Portfolio::new(holding), tradesin: Vec::new(), tradesout: Vec::new() }
    }

    /// Settles the entry of bar `index`, given the enter decision's answer: if the ledger
    /// affords a trade of size `amt` and the answer is `true`, a position is opened at
    /// `price`. Tells whether it was.
    pub fn enter(&mut self, index: i32, price: P, amt: i32, decision: bool) -> (taken: bool)
        requires
            old(self)@.wf(),
            amt >= 0,
        ensures
            taken == enters(old(self)@, amt, decision),
            final(self)@ == after_entry(old(self)@, index, price, amt, decision),
            final(self)@.wf(),
            final(self)@.portfolio.total() == old(self)@.portfolio.total(),
    {
        if self.portfolio.have_money(amt) && decision {
            proof {
                committed_capital_push(
                    self.tradesin@,
                    TradeActionIn { index_in: index, price_in: price, amt },
                );
            }
            self.tradesin.push(TradeActionIn { index_in: index, price_in: price, amt });
            self.portfolio.commit(amt);
            true
        } else {
            false
        }
    }

    /// Settles the exits of bar `index`, given the exit decision's answer for each open
    /// position, oldest first: the positions whose answer is `true` are closed at `price`, in
    /// that order, and the others stay open in the order in which they stood.
    pub fn exit(&mut self, index: i32, price: P, answers: &Vec<bool>)
        requires
            old(self)@.wf(),
            answers.len() == old(self).tradesin.len(),
        ensures
            final(self)@ == after_exits(old(self)@, index, price, answers@),
            final(self)@.wf(),
            final(self)@.portfolio.total() == old(self)@.portfolio.total(),
    {
        let ghost before = self@;
        let mut kept: Vec<TradeActionIn<P>> = Vec::new();
        let mut k: usize = 0;
        while k < self.tradesin.len()
            invariant
                before.wf(),
                self.tradesin@ == before.open,
                answers.len() == before.open.len(),
                k <= before.open.len(),
                (RunState { portfolio: self.portfolio, open: kept@, closed: self.tradesout@ })
                    == exits_examined(before, index, price, answers@, k as int),
                self.portfolio.wf(),
                self.portfolio.total() == before.portfolio.total(),
                forall|i: int| 0 <= i < kept.len() ==> (#[trigger] kept[i]).amt >= 0,
                self.portfolio.inmarket + committed_capital(before.open.take(k as int))
                    == before.portfolio.inmarket + committed_capital(kept@),
            decreases before.open.len() - k,
        {
            proof {
                committed_capital_take(before.open, k as int);
                committed_capital_take(before.open, k as int + 1);
                committed_capital_nonnegative(kept@);
                assert(before.open[k as int].amt >= 0);
            }
            let position = &self.tradesin[k];
            if answers[k] {
                let trade = position.close(index, price);
                let amt = position.amt;
                self.tradesout.push(trade);
                self.portfolio.release(amt);
            } else {
                proof {
                    committed_capital_push(kept@, *position);
                }
                kept.push(
                    TradeActionIn {
                        index_in: position.index_in,
                        price_in: position.price_in,
                        amt: position.amt,
                    },
                );
            }
            k = k + 1;
        }
        proof {
            assert(before.open.take(k as int) =~= before.open);
        }
        self.tradesin = kept;
    }

    /// Ends the run and hands out its report.
    pub fn finish(self) -> (results: BacktestResults<P>)
        ensures
            results.tradesin@ == self@.open,
            results.tradesout@ == self@.closed,
    {
        BacktestResults { tradesin: self.tradesin, tradesout: self.tradesout }
    }
}

impl<P> BacktestResults<P> {
    /// The report is that of a run that ended with the books `s`.
    pub open spec fn reports(self, s: RunState<P>) -> bool {
        &&& self.tradesin@ == s.open
        &&& self.tradesout@ == s.closed
    }
}

/// Asks the exit decision about each open position of `sim` on bar `index`, oldest first.
fn ask_exits<P: Copy, X>(
    values: &Vec<Vec<P>>,
    index: i32,
    sim: &Simulation<P>,
    exit_fn: &X,
) -> (answers: Vec<bool>) where X: Fn(ExitMarketInfo<P>) -> bool
    requires
        values.len() > 0,
        0 <= index < values[0].len(),
        forall|k: int|
            0 <= k < sim.tradesin.len() ==> exit_fn.requires(
                (exit_info(values, index, #[trigger] sim.tradesin[k], sim.portfolio),),
            ),
    ensures
        answers.len() == sim.tradesin.len(),
        forall|k: int|
            0 <= k < sim.tradesin.len() ==> exit_fn.ensures(
                (exit_info(values, index, sim.tradesin[k], sim.portfolio),),
                #[trigger] answers[k],
            ),
{
    let mut answers: Vec<bool> = Vec::new();
    let mut k: usize = 0;
    while k < sim.tradesin.len()
        invariant
            values.len() > 0,
            0 <= index < values[0].len(),
            k <= sim.tradesin.len(),
            answers.len() == k,
            forall|j: int|
                0 <= j < sim.tradesin.len() ==> exit_fn.requires(
                    (exit_info(values, index, #[trigger] sim.tradesin[j], sim.portfolio),),
                ),
            forall|j: int|
                0 <= j < k ==> exit_fn.ensures(
                    (exit_info(values, index, sim.tradesin[j], sim.portfolio),),
                    #[trigger] answers[j],
                ),
        decreases sim.tradesin.len() - k,
    {
        let position = &sim.tradesin[k];
        let context = ExitMarketInfo {
            index,
            current_price: values[0][index as usize],
            index_in: position.index_in,
            price_in: position.price_in,
            holding: sim.portfolio.holding,
            inmarket: sim.portfolio.inmarket,
            data: values,
        };
        assert(context == exit_info(values, index, sim.tradesin[k as int], sim.portfolio));
        let answer = exit_fn(context);
        answers.push(answer);
        k = k + 1;
    }
    answers
}

/// Replays `values` bar by bar. On each bar the enter decision is asked first, and a position
/// of size `default_amt` is opened at the bar's price if it says so and the ledger holds
/// strictly more than `default_amt`; then the exit decision is asked about every open
/// position, oldest first, and those for which it says so are closed at the bar's price.
/// Positions that are open when the table runs out stay open and are reported as such.
///
/// Inputs that make no run are refused before either decision is asked.
pub fn backtest<P: Copy, E, X>(
    values: Vec<Vec<P>>,
    holding: i32,
    default_amt: i32,
    enter_market_function: E,
    exit_market_function: X,
) -> (r: Result<BacktestResults<P>, InvalidInput>) where
    E: Fn(EnterMarketInfo<P>) -> bool,
    X: Fn(ExitMarketInfo<P>) -> bool,

    requires
        forall|c: EnterMarketInfo<P>|
            c.shown_in(&values, holding) ==> #[trigger] enter_market_function.requires((c,)),
        forall|c: ExitMarketInfo<P>|
            c.shown_in(&values, holding) ==> #[trigger] exit_market_function.requires((c,)),
    ensures
        match r {
            Err(e) => input_fault(values@, holding as int, default_amt as int) == Some(e),
            Ok(results) => input_fault(values@, holding as int, default_amt as int) is None
                && exists|d: Decisions|
                #[trigger] answered(
                    &values,
                    holding,
                    default_amt,
                    enter_market_function,
                    exit_market_function,
                    d,
                ) && results.reports(
                    state_after(values[0]@, holding, default_amt, d, values[0].len() as nat),
                ),
        },
{
    match check_input(&values, holding, default_amt) {
        Err(e) => {
            return Err(e);
        },
        Ok(_) => {},
    }
    let bars: usize = values[0].len();
    let ghost prices = values[0]@;
    let mut sim: Simulation<P> = Simulation::start(holding);
    let ghost mut d = Decisions { enter: Seq::empty(), exit: Seq::empty() };
    let mut n: usize = 0;
    while n < bars
        invariant
            values.len() > 0,
            rectangular(values@),
            bars == values[0].len(),
            prices == values[0]@,
            bars <= i32::MAX,
            holding >= 0,
            default_amt > 0,
            n <= bars,
            d.enter.len() == n,
            d.exit.len() == n,
            sim@ == state_after(prices, holding, default_amt, d, n as nat),
            forall|m: nat|
                m < n ==> #[trigger] bar_answered(
                    &values,
                    holding,
                    default_amt,
                    enter_market_function,
                    exit_market_function,
                    d,
                    m,
                ),
            forall|c: EnterMarketInfo<P>|
                c.shown_in(&values, holding) ==> #[trigger] enter_market_function.requires((c,)),
            forall|c: ExitMarketInfo<P>|
                c.shown_in(&values, holding) ==> #[trigger] exit_market_function.requires((c,)),
        decreases bars - n,
    {
        let index: i32 = n as i32;
        let price: P = values[0][n];
        let ghost before = sim@;
        proof {
            run_stays_orderly(prices, holding, default_amt, d, n as nat);
        }
        let context = EnterMarketInfo {
            index,
            current_price: price,
            holding: sim.portfolio.holding,
            inmarket: sim.portfolio.inmarket,
            data: &values,
        };
        assert(context == enter_info(&values, index, sim.portfolio));
        assert(context.shown_in(&values, holding));
        let enter = enter_market_function(context);
        sim.enter(index, price, default_amt, enter);
        let ghost at_exits = sim@;
        proof {
            entry_keeps_order(before, prices, holding, default_amt, index, enter);
            assert forall|k: int| 0 <= k < sim.tradesin.len() implies exit_market_function.requires(
                (exit_info(&values, index, #[trigger] sim.tradesin[k], sim.portfolio),),
            ) by {
                let c = exit_info(&values, index, sim.tradesin[k], sim.portfolio);
                assert(position_of_run(at_exits.open[k], prices, default_amt, index + 1));
                assert(default_amt * at_exits.open.len() > 0) by (nonlinear_arith)
                    requires
                        default_amt > 0,
                        at_exits.open.len() > 0,
                ;
                assert(c.shown_in(&values, holding));
            }
        }
        let exits = ask_exits(&values, index, &sim, &exit_market_function);
        sim.exit(index, price, &exits);
        proof {
            let e = Decisions { enter: d.enter.push(enter), exit: d.exit.push(exits@) };
            run_ignores_later_answers(prices, holding, default_amt, e, d, n as nat);
            assert forall|m: nat| m < n + 1 implies #[trigger] bar_answered(
                &values,
                holding,
                default_amt,
                enter_market_function,
                exit_market_function,
                e,
                m,
            ) by {
                run_ignores_later_answers(prices, holding, default_amt, e, d, m);
                if m < n {
                    assert(bar_answered(
                        &values,
                        holding,
                        default_amt,
                        enter_market_function,
                        exit_market_function,
                        d,
                        m,
                    ));
                }
            }
            d = e;
        }
        n = n + 1;
    }
    proof {
        assert(answered(
            &values,
            holding,
            default_amt,
            enter_market_function,
            exit_market_function,
            d,
        ));
    }
    Ok(sim.finish())
}

} // verus!
