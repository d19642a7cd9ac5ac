use rusty_backtest::{backtest, EnterMarketInfo, ExitMarketInfo};

fn always_enter(_: EnterMarketInfo<f64>) -> bool {
    true
}

fn always_exit(_: ExitMarketInfo<f64>) -> bool {
    true
}

fn never_exit(_: ExitMarketInfo<f64>) -> bool {
    false
}

#[test]
fn position_open_at_the_last_bar_is_reported_open() {
    let table = vec![vec![2.0, 4.0, 8.0]];
    let enter = |info: EnterMarketInfo<f64>| info.index == 2;
    let results = backtest(table, 100, 5, enter, never_exit).unwrap();
    assert!(results.tradesout.is_empty());
    assert_eq!(results.tradesin.len(), 1);
    assert_eq!(results.tradesin[0].index_in, 2);
    assert_eq!(results.tradesin[0].price_in, 8.0);
    assert_eq!(results.tradesin[0].amt, 5);
    let mut score = 0.0;
    for trade in &results.tradesout {
        score += trade.price_out - trade.price_in;
    }
    assert_eq!(score, 0.0);
}

#[test]
fn capital_equal_to_the_trade_size_takes_no_entry() {
    let table = vec![vec![1.0, 2.0, 3.0]];
    let results =
        backtest(table, 5, 5, always_enter, never_exit)
            .unwrap();
    assert!(results.tradesin.is_empty());
    assert!(results.tradesout.is_empty());
}

#[test]
fn capital_one_above_the_trade_size_takes_one_entry() {
    let table = vec![vec![1.0, 2.0, 3.0]];
    let results =
        backtest(table, 6, 5, always_enter, never_exit)
            .unwrap();
    assert_eq!(results.tradesin.len(), 1);
    assert_eq!(results.tradesin[0].index_in, 0);
    assert_eq!(results.tradesin[0].price_in, 1.0);
    assert!(results.tradesout.is_empty());
}

#[test]
fn entries_stop_when_capital_runs_down_to_the_trade_size() {
    // 20 free: entries at 20 and 15 and 10 are refused only once 5 or less is left over
    // the trade size, so three positions are opened and 5 stays free.
    let table = vec![vec![1.0, 2.0, 3.0, 4.0, 5.0]];
    let results =
        backtest(table, 20, 5, always_enter, never_exit)
            .unwrap();
    let bars: Vec<i32> = results.tradesin.iter().map(|p| p.index_in).collect();
    assert_eq!(bars, vec![0, 1, 2]);
    let committed: i32 = results.tradesin.iter().map(|p| p.amt).sum();
    assert_eq!(committed, 15);
}

#[test]
fn position_may_close_on_the_bar_that_opened_it() {
    let table = vec![vec![3.0, 6.0]];
    let results =
        backtest(table, 100, 5, always_enter, always_exit)
            .unwrap();
    assert!(results.tradesin.is_empty());
    assert_eq!(results.tradesout.len(), 2);
    assert_eq!(results.tradesout[0].index_in, 0);
    assert_eq!(results.tradesout[0].index_out, 0);
    assert_eq!(results.tradesout[0].price_in, 3.0);
    assert_eq!(results.tradesout[0].price_out, 3.0);
    assert_eq!(results.tradesout[1].index_in, 1);
    assert_eq!(results.tradesout[1].index_out, 1);
    assert_eq!(results.tradesout[1].price_out, 6.0);
}

#[test]
fn table_without_bars_runs_to_an_empty_report() {
    let table: Vec<Vec<f64>> = vec![vec![], vec![]];
    let results =
        backtest(table, 100, 5, always_enter, always_exit)
            .unwrap();
    assert!(results.tradesin.is_empty());
    assert!(results.tradesout.is_empty());
}

#[test]
fn exits_come_out_oldest_position_first() {
    // Positions open on bars 0, 1 and 2; on bar 3 all three are closed at once.
    let table = vec![vec![1.0, 2.0, 3.0, 4.0]];
    let enter = |info: EnterMarketInfo<f64>| info.index < 3;
    let exit = |info: ExitMarketInfo<f64>| info.index == 3;
    let results = backtest(table, 100, 5, enter, exit).unwrap();
    assert!(results.tradesin.is_empty());
    let entries: Vec<i32> = results.tradesout.iter().map(|t| t.index_in).collect();
    let exits: Vec<i32> = results.tradesout.iter().map(|t| t.index_out).collect();
    assert_eq!(entries, vec![0, 1, 2]);
    assert_eq!(exits, vec![3, 3, 3]);
}

#[test]
fn positions_that_stay_keep_their_order() {
    // Positions open on bars 0..4; the ones opened on odd bars are closed on bar 4.
    let table = vec![vec![1.0, 2.0, 3.0, 4.0, 5.0]];
    let exit = |info: ExitMarketInfo<f64>| info.index == 4 && info.index_in % 2 == 1;
    let results = backtest(table, 100, 5, always_enter, exit).unwrap();
    let open: Vec<i32> = results.tradesin.iter().map(|p| p.index_in).collect();
    let closed: Vec<i32> = results.tradesout.iter().map(|t| t.index_in).collect();
    assert_eq!(open, vec![0, 2, 4]);
    assert_eq!(closed, vec![1, 3]);
    for trade in &results.tradesout {
        assert!(trade.index_out >= trade.index_in);
        assert_eq!(trade.index_out, 4);
        assert_eq!(trade.price_out, 5.0);
        assert_eq!(trade.price_in, (trade.index_in + 1) as f64);
    }
}

#[test]
fn every_entry_is_open_or_closed_exactly_once() {
    let table = vec![vec![1.0, 2.0, 3.0, 4.0, 5.0, 6.0, 7.0, 8.0]];
    let enter = |info: EnterMarketInfo<f64>| info.index % 3 != 1;
    let exit = |info: ExitMarketInfo<f64>| info.index - info.index_in == 2;
    let results = backtest(table, 100, 5, enter, exit).unwrap();
    let mut seen: Vec<i32> = results.tradesin.iter().map(|p| p.index_in).collect();
    seen.extend(results.tradesout.iter().map(|t| t.index_in));
    seen.sort();
    assert_eq!(seen, vec![0, 2, 3, 5, 6]);
    let closed: Vec<(i32, i32)> =
        results.tradesout.iter().map(|t| (t.index_in, t.index_out)).collect();
    assert_eq!(closed, vec![(0, 2), (2, 4), (3, 5), (5, 7)]);
    let open: Vec<i32> = results.tradesin.iter().map(|p| p.index_in).collect();
    assert_eq!(open, vec![6]);
}
