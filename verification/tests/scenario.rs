use rusty_backtest::{backtest, EnterMarketInfo, ExitMarketInfo};

fn table() -> Vec<Vec<f64>> {
    vec![
        vec![1.0, 5.3, 0.5, 5.3, 1.0, 5.3, 1.0],
        vec![0.0, 0.0, 1.0, 0.0, 0.0, 0.0, 0.0],
    ]
}

fn enter_on_signal(info: EnterMarketInfo<f64>) -> bool {
    info.data[1][info.index as usize] >= 0.5
}

fn exit_after_two_bars(info: ExitMarketInfo<f64>) -> bool {
    info.index - info.index_in >= 2
}

#[test]
fn signal_run_makes_one_round_trip() {
    let results = backtest(table(), 100, 5, &enter_on_signal, &exit_after_two_bars).unwrap();
    assert!(results.tradesin.is_empty());
    assert_eq!(results.tradesout.len(), 1);
    let trade = &results.tradesout[0];
    assert_eq!(trade.index_in, 2);
    assert_eq!(trade.price_in, 0.5);
    assert_eq!(trade.amt, 5);
    assert_eq!(trade.index_out, 4);
    assert_eq!(trade.price_out, 1.0);
}

#[test]
fn signal_run_scores_the_price_difference() {
    let results = backtest(table(), 100, 5, enter_on_signal, exit_after_two_bars).unwrap();
    let mut score = 0.0;
    for trade in &results.tradesout {
        score += trade.price_out - trade.price_in;
    }
    assert_eq!(results.tradesout[0].price_out - results.tradesout[0].price_in, 0.5);
    assert_eq!(score, 0.5);
}

#[test]
fn signal_run_ends_with_all_capital_free() {
    let results = backtest(table(), 100, 5, enter_on_signal, exit_after_two_bars).unwrap();
    let committed: i32 = results.tradesin.iter().map(|p| p.amt).sum();
    assert_eq!(committed, 0);
    assert_eq!(100 - committed, 100);
}
