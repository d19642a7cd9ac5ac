//! What holds of every run, whatever the decision functions answer.

use vstd::prelude::*;
use vstd::multiset::Multiset;
use vstd::seq_lib::to_multiset_build;
use crate::market::{answered, bar_answered, EnterMarketInfo, ExitMarketInfo};
use crate::model::{
    after_entry, after_exits, committed_capital, committed_capital_push, enters, entries_of,
    exits_examined, opened, opening, state_after, state_at_exits, Decisions, RunState,
};
use crate::trade::{TradeActionIn, TradeActionOut};

verus! {

/// A position that a run over `prices` with trade size `amt` may hold: it was opened on one
/// of the first `bars` bars, at that bar's price, with `amt`.
pub open spec fn position_of_run<P>(p: TradeActionIn<P>, prices: Seq<P>, amt: i32, bars: int) -> bool {
    &&& 0 <= p.index_in < bars
    &&& p.price_in == prices[p.index_in as int]
    &&& p.amt == amt
}

/// A trade that a run over `prices` with trade size `amt` may have completed: a position of
/// the run, closed on one of the first `bars` bars, not before it was opened, at that bar's
/// price.
pub open spec fn trade_of_run<P>(t: TradeActionOut<P>, prices: Seq<P>, amt: i32, bars: int) -> bool {
    &&& 0 <= t.index_in <= t.index_out < bars
    &&& t.price_in == prices[t.index_in as int]
    &&& t.price_out == prices[t.index_out as int]
    &&& t.amt == amt
}

/// The open positions stand in the order in which they were opened: a position further back
/// was opened on a later bar.
pub open spec fn in_opening_order<P>(open: Seq<TradeActionIn<P>>) -> bool {
    forall|i: int, j: int|
        0 <= i < j < open.len() ==> (#[trigger] open[i]).index_in < (#[trigger] open[j]).index_in
}

/// The completed trades stand in the order in which they were closed: bar by bar, and within
/// a bar the position that was opened earlier comes first.
pub open spec fn in_closing_order<P>(closed: Seq<TradeActionOut<P>>) -> bool {
    forall|i: int, j: int|
        0 <= i < j < closed.len() ==> {
            let a = #[trigger] closed[i];
            let b = #[trigger] closed[j];
            a.index_out < b.index_out || (a.index_out == b.index_out && a.index_in < b.index_in)
        }
}

/// No bar's position stands twice in the books: no completed trade closed a position that is
/// still open, and no two completed trades closed the same position.
pub open spec fn entered_once<P>(open: Seq<TradeActionIn<P>>, closed: Seq<TradeActionOut<P>>) -> bool {
    &&& forall|i: int, j: int|
        0 <= i < open.len() && 0 <= j < closed.len() ==> (#[trigger] open[i]).index_in != (
        #[trigger] closed[j]).index_in
    &&& forall|i: int, j: int|
        0 <= i < j < closed.len() ==> (#[trigger] closed[i]).index_in != (
        #[trigger] closed[j]).index_in
}

/// The books are those of a run over `prices` that began with `capital` and trades `amt` at
/// a time, at a moment at which every open position was opened before bar `entered` and
/// every trade was completed before bar `exited`.
pub open spec fn orderly<P>(
    s: RunState<P>,
    prices: Seq<P>,
    capital: i32,
    amt: i32,
    entered: int,
    exited: int,
) -> bool {
    &&& s.wf()
    &&& s.portfolio.total() == capital
    &&& s.portfolio.inmarket == amt * s.open.len()
    &&& forall|i: int|
        0 <= i < s.open.len() ==> position_of_run(#[trigger] s.open[i], prices, amt, entered)
    &&& in_opening_order(s.open)
    &&& forall|j: int|
        0 <= j < s.closed.len() ==> trade_of_run(#[trigger] s.closed[j], prices, amt, exited)
    &&& in_closing_order(s.closed)
    &&& entered_once(s.open, s.closed)
}

/// The books with which a run begins are in order.
pub proof fn opening_is_orderly<P>(prices: Seq<P>, capital: i32, amt: i32)
    requires
        capital >= 0,
    ensures
        orderly(opening::<P>(capital), prices, capital, amt, 0, 0),
{
}

/// Settling the entry of bar `index` keeps the books in order; a position that it opens
/// belongs to bar `index`.
pub proof fn entry_keeps_order<P>(
    s: RunState<P>,
    prices: Seq<P>,
    capital: i32,
    amt: i32,
    index: i32,
    decision: bool,
)
    requires
        orderly(s, prices, capital, amt, index as int, index as int),
        amt > 0,
        0 <= index,
    ensures
        orderly(
            after_entry(s, index, prices[index as int], amt, decision),
            prices,
            capital,
            amt,
            index + 1,
            index as int,
        ),
{
    let after = after_entry(s, index, prices[index as int], amt, decision);
    if enters(s, amt, decision) {
        let p = TradeActionIn { index_in: index, price_in: prices[index as int], amt };
        committed_capital_push(s.open, p);
        assert(amt * (s.open.len() + 1) == amt * s.open.len() + amt) by (nonlinear_arith);
        assert forall|i: int| 0 <= i < after.open.len() implies position_of_run(
            #[trigger] after.open[i],
            prices,
            amt,
            index + 1,
        ) by {
            if i < s.open.len() {
                assert(position_of_run(s.open[i], prices, amt, index as int));
            }
        }
        assert forall|i: int, j: int| 0 <= i < j < after.open.len() implies (
        #[trigger] after.open[i]).index_in < (#[trigger] after.open[j]).index_in by {
            assert(position_of_run(s.open[i], prices, amt, index as int));
            if j < s.open.len() {
                assert(s.open[i].index_in < s.open[j].index_in);
            }
        }
        assert forall|i: int, j: int|
            0 <= i < after.open.len() && 0 <= j < after.closed.len() implies (
        #[trigger] after.open[i]).index_in != (#[trigger] after.closed[j]).index_in by {
            assert(trade_of_run(s.closed[j], prices, amt, index as int));
            if i < s.open.len() {
                assert(s.open[i].index_in != s.closed[j].index_in);
            }
        }
    } else {
        assert forall|i: int| 0 <= i < after.open.len() implies position_of_run(
            #[trigger] after.open[i],
            prices,
            amt,
            index + 1,
        ) by {
            assert(position_of_run(s.open[i], prices, amt, index as int));
        }
    }
}

/// What holds while the exits of bar `index` are being settled: `r` is what the books `s`
/// have become once the first `k` open positions of `s` have been examined.
spec fn exits_in_progress<P>(
    s: RunState<P>,
    r: RunState<P>,
    prices: Seq<P>,
    capital: i32,
    amt: i32,
    index: i32,
    k: int,
) -> bool {
    &&& r.portfolio.wf()
    &&& r.portfolio.total() == capital
    &&& r.portfolio.inmarket == amt * (r.open.len() + s.open.len() - k)
    &&& committed_capital(r.open) == amt * r.open.len()
    &&& forall|i: int|
        0 <= i < r.open.len() ==> position_of_run(#[trigger] r.open[i], prices, amt, index + 1)
    &&& in_opening_order(r.open)
    &&& forall|i: int, j: int|
        0 <= i < r.open.len() && k <= j < s.open.len() ==> (#[trigger] r.open[i]).index_in < (
        #[trigger] s.open[j]).index_in
    &&& s.closed.len() <= r.closed.len()
    &&& forall|j: int| 0 <= j < s.closed.len() ==> #[trigger] r.closed[j] == s.closed[j]
    &&& forall|j: int|
        s.closed.len() <= j < r.closed.len() ==> (#[trigger] r.closed[j]).index_out == index
            && trade_of_run(r.closed[j], prices, amt, index + 1)
    &&& forall|i: int, j: int|
        s.closed.len() <= i < r.closed.len() && k <= j < s.open.len() ==> (
        #[trigger] r.closed[i]).index_in < (#[trigger] s.open[j]).index_in
    &&& in_closing_order(r.closed)
    &&& entered_once(r.open, r.closed)
}

proof fn exits_progress<P>(
    s: RunState<P>,
    prices: Seq<P>,
    capital: i32,
    amt: i32,
    index: i32,
    answers: Seq<bool>,
    k: int,
)
    requires
        orderly(s, prices, capital, amt, index + 1, index as int),
        amt > 0,
        0 <= index,
        0 <= k <= s.open.len(),
    ensures
        exits_in_progress(
            s,
            exits_examined(s, index, prices[index as int], answers, k),
            prices,
            capital,
            amt,
            index,
            k,
        ),
    decreases k,
{
    let price = prices[index as int];
    let r = exits_examined(s, index, price, answers, k);
    if k == 0 {
        assert forall|j: int| 0 <= j < s.closed.len() implies trade_of_run(
            #[trigger] s.closed[j],
            prices,
            amt,
            index as int,
        ) by {}
    } else {
        exits_progress(s, prices, capital, amt, index, answers, k - 1);
        let b = exits_examined(s, index, price, answers, k - 1);
        let p = s.open[k - 1];
        assert(position_of_run(p, prices, amt, index + 1));
        assert(amt * (b.open.len() + s.open.len() - (k - 1)) == amt * (b.open.len() + s.open.len()
            - k) + amt) by (nonlinear_arith);
        assert(amt * (b.open.len() + 1) == amt * b.open.len() + amt) by (nonlinear_arith);
        assert(amt * (b.open.len() + s.open.len() - k) >= 0) by (nonlinear_arith)
            requires
                amt > 0,
                b.open.len() + s.open.len() - k >= 0,
        ;
        if answers[k - 1] {
            let t = p.closed_at(index, price);
            assert(r.closed == b.closed.push(t));
            assert(trade_of_run(t, prices, amt, index + 1));
            assert forall|i: int, j: int| 0 <= i < j < r.closed.len() implies ({
                let a = #[trigger] r.closed[i];
                let c = #[trigger] r.closed[j];
                a.index_out < c.index_out || (a.index_out == c.index_out && a.index_in
                    < c.index_in)
            }) by {
                if j < b.closed.len() {
                    assert(r.closed[i] == b.closed[i]);
                    assert(r.closed[j] == b.closed[j]);
                } else {
                    assert(r.closed[j] == t);
                    assert(r.closed[i] == b.closed[i]);
                    if i < s.closed.len() {
                        assert(b.closed[i] == s.closed[i]);
                        assert(trade_of_run(s.closed[i], prices, amt, index as int));
                    } else {
                        assert(b.closed[i].index_in < s.open[k - 1].index_in);
                    }
                }
            }
            assert forall|i: int, j: int|
                s.closed.len() <= i < r.closed.len() && k <= j < s.open.len() implies (
            #[trigger] r.closed[i]).index_in < (#[trigger] s.open[j]).index_in by {
                if i < b.closed.len() {
                    assert(r.closed[i] == b.closed[i]);
                } else {
                    assert(s.open[k - 1].index_in < s.open[j].index_in);
                }
            }
            assert forall|j: int| s.closed.len() <= j < r.closed.len() implies (
            #[trigger] r.closed[j]).index_out == index && trade_of_run(
                r.closed[j],
                prices,
                amt,
                index + 1,
            ) by {
                if j < b.closed.len() {
                    assert(r.closed[j] == b.closed[j]);
                }
            }
            assert forall|j: int| 0 <= j < s.closed.len() implies #[trigger] r.closed[j]
                == s.closed[j] by {
                assert(r.closed[j] == b.closed[j]);
            }
        } else {
            committed_capital_push(b.open, p);
            assert(r.open == b.open.push(p));
            assert forall|i: int| 0 <= i < r.open.len() implies position_of_run(
                #[trigger] r.open[i],
                prices,
                amt,
                index + 1,
            ) by {
                if i < b.open.len() {
                    assert(r.open[i] == b.open[i]);
                }
            }
            assert forall|i: int, j: int| 0 <= i < j < r.open.len() implies (
            #[trigger] r.open[i]).index_in < (#[trigger] r.open[j]).index_in by {
                assert(r.open[i] == b.open[i]);
                if j < b.open.len() {
                    assert(r.open[j] == b.open[j]);
                } else {
                    assert(b.open[i].index_in < s.open[k - 1].index_in);
                }
            }
            assert forall|i: int, j: int|
                0 <= i < r.open.len() && k <= j < s.open.len() implies (
            #[trigger] r.open[i]).index_in < (#[trigger] s.open[j]).index_in by {
                if i < b.open.len() {
                    assert(r.open[i] == b.open[i]);
                } else {
                    assert(s.open[k - 1].index_in < s.open[j].index_in);
                }
            }
        }
    }
}

/// Settling the exits of bar `index` keeps the books in order; the trades that it completes
/// belong to bar `index`.
pub proof fn exits_keep_order<P>(
    s: RunState<P>,
    prices: Seq<P>,
    capital: i32,
    amt: i32,
    index: i32,
    answers: Seq<bool>,
)
    requires
        orderly(s, prices, capital, amt, index + 1, index as int),
        amt > 0,
        0 <= index,
    ensures
        orderly(
            after_exits(s, index, prices[index as int], answers),
            prices,
            capital,
            amt,
            index + 1,
            index + 1,
        ),
{
    exits_progress(s, prices, capital, amt, index, answers, s.open.len() as int);
    let r = after_exits(s, index, prices[index as int], answers);
    assert forall|j: int| 0 <= j < r.closed.len() implies trade_of_run(
        #[trigger] r.closed[j],
        prices,
        amt,
        index + 1,
    ) by {
        if j < s.closed.len() {
            assert(r.closed[j] == s.closed[j]);
            assert(trade_of_run(s.closed[j], prices, amt, index as int));
        }
    }
}

/// The books of a run are in order after any number of bars, whatever the answers were.
pub proof fn run_stays_orderly<P>(prices: Seq<P>, capital: i32, amt: i32, d: Decisions, n: nat)
    requires
        capital >= 0,
        amt > 0,
        n <= i32::MAX,
    ensures
        orderly(state_after(prices, capital, amt, d, n), prices, capital, amt, n as int, n as int),
        orderly(
            state_at_exits(prices, capital, amt, d, n),
            prices,
            capital,
            amt,
            n as int + 1,
            n as int,
        ),
    decreases n,
{
    if n == 0 {
        opening_is_orderly(prices, capital, amt);
    } else {
        let bar = (n - 1) as nat;
        run_stays_orderly(prices, capital, amt, d, bar);
        exits_keep_order(
            state_at_exits(prices, capital, amt, d, bar),
            prices,
            capital,
            amt,
            bar as i32,
            d.exit[bar as int],
        );
    }
    entry_keeps_order(
        state_after(prices, capital, amt, d, n),
        prices,
        capital,
        amt,
        n as i32,
        d.enter[n as int],
    );
}

/// The books after `n` bars depend on the answers for those bars only.
pub proof fn run_ignores_later_answers<P>(
    prices: Seq<P>,
    capital: i32,
    amt: i32,
    d: Decisions,
    e: Decisions,
    n: nat,
)
    requires
        forall|m: int| 0 <= m < n ==> d.enter[m] == e.enter[m] && d.exit[m] == e.exit[m],
    ensures
        state_after(prices, capital, amt, d, n) == state_after(prices, capital, amt, e, n),
    decreases n,
{
    if n > 0 {
        run_ignores_later_answers(prices, capital, amt, d, e, (n - 1) as nat);
    }
}

/// The positions that are open and those that the completed trades closed, taken together.
pub open spec fn all_entries<P>(s: RunState<P>) -> Multiset<TradeActionIn<P>> {
    s.open.to_multiset().add(entries_of(s.closed).to_multiset())
}

/// Two pairs of multisets with the same sum still have the same sum once `p` has joined one
/// multiset of each pair.
proof fn sums_with_one_more<A>(
    a: Multiset<A>,
    b: Multiset<A>,
    c: Multiset<A>,
    e: Multiset<A>,
    a1: Multiset<A>,
    b1: Multiset<A>,
    c1: Multiset<A>,
    e1: Multiset<A>,
    p: A,
)
    requires
        a.add(b) == c.add(e),
        (a1 == a.insert(p) && b1 == b) || (a1 == a && b1 == b.insert(p)),
        (c1 == c.insert(p) && e1 == e) || (c1 == c && e1 == e.insert(p)),
    ensures
        a1.add(b1) == c1.add(e1),
{
    broadcast use vstd::multiset::group_multiset_axioms;

    assert forall|x: A| a1.add(b1).count(x) == c1.add(e1).count(x) by {
        assert(a.add(b).count(x) == c.add(e).count(x));
        assert(a.add(b).count(x) == a.count(x) + b.count(x));
        assert(c.add(e).count(x) == c.count(x) + e.count(x));
    }
    assert(a1.add(b1) =~= c1.add(e1));
}

/// While the exits of a bar are settled, no position is lost and none is made up: the
/// positions that stay and those that were closed are the positions that were examined.
proof fn exits_move_positions<P>(s: RunState<P>, index: i32, price: P, answers: Seq<bool>, k: int)
    requires
        0 <= k <= s.open.len(),
    ensures
        all_entries(exits_examined(s, index, price, answers, k)) == s.open.take(k).to_multiset().add(
            entries_of(s.closed).to_multiset(),
        ),
    decreases k,
{
    let r = exits_examined(s, index, price, answers, k);
    if k == 0 {
        assert(s.open.take(0) =~= Seq::empty());
    } else {
        exits_move_positions(s, index, price, answers, k - 1);
        let b = exits_examined(s, index, price, answers, k - 1);
        let p = s.open[k - 1];
        assert(s.open.take(k) =~= s.open.take(k - 1).push(p));
        to_multiset_build(s.open.take(k - 1), p);
        if answers[k - 1] {
            let t = p.closed_at(index, price);
            assert(t.entry() == p);
            assert(entries_of(b.closed.push(t)) =~= entries_of(b.closed).push(p));
            to_multiset_build(entries_of(b.closed), p);
        } else {
            to_multiset_build(b.open, p);
        }
        sums_with_one_more(
            b.open.to_multiset(),
            entries_of(b.closed).to_multiset(),
            s.open.take(k - 1).to_multiset(),
            entries_of(s.closed).to_multiset(),
            r.open.to_multiset(),
            entries_of(r.closed).to_multiset(),
            s.open.take(k).to_multiset(),
            entries_of(s.closed).to_multiset(),
            p,
        );
    }
}

/// Every position that a run opened is either still open or was closed by exactly one
/// completed trade, and the books hold no other position: the open positions and the
/// positions of the completed trades, taken together, are the positions that were opened.
/// No two of those were opened on the same bar, so each trade's entry matches one of them
/// only.
pub proof fn trades_are_paired<P>(prices: Seq<P>, capital: i32, amt: i32, d: Decisions, n: nat)
    requires
        n <= i32::MAX,
    ensures
        all_entries(state_after(prices, capital, amt, d, n)) == opened(
            prices,
            capital,
            amt,
            d,
            n,
        ).to_multiset(),
        in_opening_order(opened(prices, capital, amt, d, n)),
        forall|i: int|
            0 <= i < opened(prices, capital, amt, d, n).len() ==> position_of_run(
                #[trigger] opened(prices, capital, amt, d, n)[i],
                prices,
                amt,
                n as int,
            ),
    decreases n,
{
    let s = state_after(prices, capital, amt, d, n);
    if n == 0 {
        broadcast use vstd::multiset::group_multiset_axioms;

        assert(entries_of(s.closed) =~= Seq::empty());
        assert(Seq::<TradeActionIn<P>>::empty().to_multiset().len() == 0) by {
            vstd::seq_lib::to_multiset_len(Seq::<TradeActionIn<P>>::empty());
        }
        vstd::multiset::lemma_multiset_empty_len(Seq::<TradeActionIn<P>>::empty().to_multiset());
        assert(all_entries(s) =~= opened(prices, capital, amt, d, n).to_multiset());
    } else {
        let bar = (n - 1) as nat;
        trades_are_paired(prices, capital, amt, d, bar);
        let before = state_after(prices, capital, amt, d, bar);
        let earlier = opened(prices, capital, amt, d, bar);
        let at_exits = state_at_exits(prices, capital, amt, d, bar);
        let p = TradeActionIn { index_in: bar as i32, price_in: prices[bar as int], amt };
        exits_move_positions(
            at_exits,
            bar as i32,
            prices[bar as int],
            d.exit[bar as int],
            at_exits.open.len() as int,
        );
        assert(at_exits.open.take(at_exits.open.len() as int) =~= at_exits.open);
        let now = opened(prices, capital, amt, d, n);
        if enters(before, amt, d.enter[bar as int]) {
            to_multiset_build(before.open, p);
            to_multiset_build(earlier, p);
            assert(all_entries(at_exits) =~= now.to_multiset()) by {
                broadcast use vstd::multiset::group_multiset_axioms;

                assert forall|x: TradeActionIn<P>| all_entries(at_exits).count(x)
                    == now.to_multiset().count(x) by {
                    assert(all_entries(before).count(x) == earlier.to_multiset().count(x));
                }
            }
        }
        assert forall|i: int| 0 <= i < now.len() implies position_of_run(
            #[trigger] now[i],
            prices,
            amt,
            n as int,
        ) by {
            if i < earlier.len() {
                assert(position_of_run(earlier[i], prices, amt, bar as int));
            }
        }
        assert forall|i: int, j: int| 0 <= i < j < now.len() implies (#[trigger] now[i]).index_in
            < (#[trigger] now[j]).index_in by {
            assert(position_of_run(earlier[i], prices, amt, bar as int));
            if j < earlier.len() {
                assert(earlier[i].index_in < earlier[j].index_in);
            }
        }
    }
}

/// A position whose answer was `false` is among the positions that stay.
proof fn exits_keep_unanswered<P>(
    s: RunState<P>,
    index: i32,
    price: P,
    answers: Seq<bool>,
    k: int,
    j: int,
)
    requires
        0 <= j < k <= s.open.len(),
        !answers[j],
    ensures
        exits_examined(s, index, price, answers, k).open.contains(s.open[j]),
    decreases k,
{
    let r = exits_examined(s, index, price, answers, k);
    let b = exits_examined(s, index, price, answers, k - 1);
    if j == k - 1 {
        assert(r.open[b.open.len() as int] == s.open[j]);
    } else {
        exits_keep_unanswered(s, index, price, answers, k - 1, j);
        let i = choose|i: int| 0 <= i < b.open.len() && b.open[i] == s.open[j];
        assert(r.open[i] == s.open[j]);
    }
}

/// Capital is neither made nor lost: after every bar, and between a bar's entry and its
/// exits, the two sides of the ledger add up to the capital with which the run began.
pub proof fn capital_is_conserved<P>(prices: Seq<P>, capital: i32, amt: i32, d: Decisions, n: nat)
    requires
        capital >= 0,
        amt > 0,
        n <= i32::MAX,
    ensures
        state_after(prices, capital, amt, d, n).portfolio.holding + state_after(
            prices,
            capital,
            amt,
            d,
            n,
        ).portfolio.inmarket == capital,
        state_at_exits(prices, capital, amt, d, n).portfolio.holding + state_at_exits(
            prices,
            capital,
            amt,
            d,
            n,
        ).portfolio.inmarket == capital,
{
    run_stays_orderly(prices, capital, amt, d, n);
}

/// Neither side of the ledger is ever in debt, after a bar or between its entry and its
/// exits, and the market side is the trade size times the number of open positions.
pub proof fn capital_is_never_negative<P>(
    prices: Seq<P>,
    capital: i32,
    amt: i32,
    d: Decisions,
    n: nat,
)
    requires
        capital >= 0,
        amt > 0,
        n <= i32::MAX,
    ensures
        state_after(prices, capital, amt, d, n).portfolio.holding >= 0,
        state_after(prices, capital, amt, d, n).portfolio.inmarket >= 0,
        state_after(prices, capital, amt, d, n).portfolio.inmarket == amt * state_after(
            prices,
            capital,
            amt,
            d,
            n,
        ).open.len(),
        state_at_exits(prices, capital, amt, d, n).portfolio.holding >= 0,
        state_at_exits(prices, capital, amt, d, n).portfolio.inmarket >= 0,
        state_at_exits(prices, capital, amt, d, n).portfolio.inmarket == amt * state_at_exits(
            prices,
            capital,
            amt,
            d,
            n,
        ).open.len(),
{
    run_stays_orderly(prices, capital, amt, d, n);
}

/// No trade was completed before it began, and both lists keep their order: the open
/// positions stand oldest first, and the completed trades stand bar by bar in the order in
/// which the bars closed them, within a bar the position that was opened earlier first.
pub proof fn exits_follow_entries<P>(prices: Seq<P>, capital: i32, amt: i32, d: Decisions, n: nat)
    requires
        capital >= 0,
        amt > 0,
        n <= i32::MAX,
    ensures
        forall|j: int|
            0 <= j < state_after(prices, capital, amt, d, n).closed.len() ==> (
            #[trigger] state_after(prices, capital, amt, d, n).closed[j]).index_in <= state_after(
                prices,
                capital,
                amt,
                d,
                n,
            ).closed[j].index_out,
        in_opening_order(state_after(prices, capital, amt, d, n).open),
        in_closing_order(state_after(prices, capital, amt, d, n).closed),
{
    run_stays_orderly(prices, capital, amt, d, n);
    let s = state_after(prices, capital, amt, d, n);
    assert forall|j: int| 0 <= j < s.closed.len() implies (#[trigger] s.closed[j]).index_in
        <= s.closed[j].index_out by {
        assert(trade_of_run(s.closed[j], prices, amt, n as int));
    }
}

/// A position for which the exit decision's answer on bar `n` was `false` is still open when
/// the bar is over, and no completed trade is a trade of that position. On the last bar this
/// says that the position is reported as still open and not as a trade.
pub proof fn position_without_exit_stays_open<P>(
    prices: Seq<P>,
    capital: i32,
    amt: i32,
    d: Decisions,
    n: nat,
    k: int,
)
    requires
        capital >= 0,
        amt > 0,
        n < i32::MAX,
        0 <= k < state_at_exits(prices, capital, amt, d, n).open.len(),
        !d.exit[n as int][k],
    ensures
        state_after(prices, capital, amt, d, n + 1).open.contains(
            state_at_exits(prices, capital, amt, d, n).open[k],
        ),
        forall|j: int|
            0 <= j < state_after(prices, capital, amt, d, n + 1).closed.len() ==> (
            #[trigger] state_after(prices, capital, amt, d, n + 1).closed[j]).index_in
                != state_at_exits(prices, capital, amt, d, n).open[k].index_in,
{
    let at_exits = state_at_exits(prices, capital, amt, d, n);
    let after = state_after(prices, capital, amt, d, n + 1);
    exits_keep_unanswered(
        at_exits,
        n as i32,
        prices[n as int],
        d.exit[n as int],
        at_exits.open.len() as int,
        k,
    );
    run_stays_orderly(prices, capital, amt, d, n + 1);
    let i = choose|i: int| 0 <= i < after.open.len() && after.open[i] == at_exits.open[k];
    assert forall|j: int| 0 <= j < after.closed.len() implies (#[trigger] after.closed[j]).index_in
        != at_exits.open[k].index_in by {
        assert(after.open[i].index_in != after.closed[j].index_in);
    }
}

/// A ledger that holds no more than the trade size opens no position, whatever the enter
/// decision answers: holding exactly the trade size is not enough.
pub proof fn exact_capital_does_not_trade<P>(
    s: RunState<P>,
    index: i32,
    price: P,
    amt: i32,
    decision: bool,
)
    ensures
        s.portfolio.holding <= amt ==> after_entry(s, index, price, amt, decision) == s,
{
}

/// Decision functions that answer each context in one way only leave a run no freedom: any
/// two records of their answers over the run are the same record, and so are the books.
pub proof fn run_is_determined<P, E, X>(
    values: &Vec<Vec<P>>,
    capital: i32,
    amt: i32,
    enter_fn: E,
    exit_fn: X,
    d: Decisions,
    e: Decisions,
) where E: Fn(EnterMarketInfo<P>) -> bool, X: Fn(ExitMarketInfo<P>) -> bool
    requires
        forall|c: EnterMarketInfo<P>, a: bool, b: bool|
            enter_fn.ensures((c,), a) && enter_fn.ensures((c,), b) ==> a == b,
        forall|c: ExitMarketInfo<P>, a: bool, b: bool|
            exit_fn.ensures((c,), a) && exit_fn.ensures((c,), b) ==> a == b,
        answered(values, capital, amt, enter_fn, exit_fn, d),
        answered(values, capital, amt, enter_fn, exit_fn, e),
    ensures
        d == e,
{
    let bars = values[0].len() as nat;
    assert forall|n: nat| n < bars implies d.enter[n as int] == e.enter[n as int] && d.exit[n as int]
        == e.exit[n as int] by {
        answers_agree(values, capital, amt, enter_fn, exit_fn, d, e, n);
    }
    assert(d.enter =~= e.enter);
    assert(d.exit =~= e.exit);
}

/// Under decision functions that answer each context in one way only, two records of their
/// answers agree on bar `n`.
proof fn answers_agree<P, E, X>(
    values: &Vec<Vec<P>>,
    capital: i32,
    amt: i32,
    enter_fn: E,
    exit_fn: X,
    d: Decisions,
    e: Decisions,
    n: nat,
) where E: Fn(EnterMarketInfo<P>) -> bool, X: Fn(ExitMarketInfo<P>) -> bool
    requires
        forall|c: EnterMarketInfo<P>, a: bool, b: bool|
            enter_fn.ensures((c,), a) && enter_fn.ensures((c,), b) ==> a == b,
        forall|c: ExitMarketInfo<P>, a: bool, b: bool|
            exit_fn.ensures((c,), a) && exit_fn.ensures((c,), b) ==> a == b,
        answered(values, capital, amt, enter_fn, exit_fn, d),
        answered(values, capital, amt, enter_fn, exit_fn, e),
        n < values[0].len(),
    ensures
        d.enter[n as int] == e.enter[n as int],
        d.exit[n as int] == e.exit[n as int],
    decreases n,
{
    assert forall|m: int| 0 <= m < n implies d.enter[m] == e.enter[m] && d.exit[m] == e.exit[m] by {
        answers_agree(values, capital, amt, enter_fn, exit_fn, d, e, m as nat);
    }
    run_ignores_later_answers(values[0]@, capital, amt, d, e, n);
    assert(bar_answered(values, capital, amt, enter_fn, exit_fn, d, n));
    assert(bar_answered(values, capital, amt, enter_fn, exit_fn, e, n));
    assert(d.exit[n as int] =~= e.exit[n as int]);
}

} // verus!
