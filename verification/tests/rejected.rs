use rusty_backtest::{backtest, check_input, EnterMarketInfo, ExitMarketInfo, InvalidInput};

fn always_enter(_: EnterMarketInfo<f64>) -> bool {
    true
}

fn always_exit(_: ExitMarketInfo<f64>) -> bool {
    true
}

#[test]
fn empty_table_is_refused() {
    let table: Vec<Vec<f64>> = vec![];
    let r = backtest(table, 100, 5, always_enter, always_exit);
    assert_eq!(r.unwrap_err(), InvalidInput::EmptyTable);
}

#[test]
fn ragged_table_is_refused() {
    let table = vec![vec![1.0, 2.0, 3.0], vec![0.0, 0.0]];
    let r = backtest(table, 100, 5, always_enter, always_exit);
    assert_eq!(r.unwrap_err(), InvalidInput::RaggedRows);
}

#[test]
fn longer_second_series_is_refused() {
    let table = vec![vec![1.0], vec![0.0, 0.0]];
    assert_eq!(check_input(&table, 100, 5), Err(InvalidInput::RaggedRows));
}

#[test]
fn negative_capital_is_refused() {
    let table = vec![vec![1.0, 2.0]];
    let r = backtest(table, -1, 5, always_enter, always_exit);
    assert_eq!(r.unwrap_err(), InvalidInput::NegativeCapital);
}

#[test]
fn zero_capital_is_accepted_and_never_trades() {
    let table = vec![vec![1.0, 2.0]];
    let r = backtest(table, 0, 5, always_enter, always_exit)
        .unwrap();
    assert!(r.tradesin.is_empty());
    assert!(r.tradesout.is_empty());
}

#[test]
fn zero_trade_size_is_refused() {
    let table = vec![vec![1.0, 2.0]];
    let r = backtest(table, 100, 0, always_enter, always_exit);
    assert_eq!(r.unwrap_err(), InvalidInput::NonPositiveTradeSize);
}

#[test]
fn negative_trade_size_is_refused() {
    let table = vec![vec![1.0, 2.0]];
    assert_eq!(check_input(&table, 100, -5), Err(InvalidInput::NonPositiveTradeSize));
}

#[test]
fn table_is_judged_before_capital_and_capital_before_trade_size() {
    let none: Vec<Vec<f64>> = vec![];
    assert_eq!(check_input(&none, -1, 0), Err(InvalidInput::EmptyTable));
    let ragged = vec![vec![1.0], vec![]];
    assert_eq!(check_input(&ragged, -1, 0), Err(InvalidInput::RaggedRows));
    let fine = vec![vec![1.0], vec![2.0]];
    assert_eq!(check_input(&fine, -1, 0), Err(InvalidInput::NegativeCapital));
    assert_eq!(check_input(&fine, 0, 0), Err(InvalidInput::NonPositiveTradeSize));
    assert_eq!(check_input(&fine, 0, 1), Ok(()));
}

#[test]
fn table_with_too_many_bars_is_refused() {
    let bars = i32::MAX as usize + 1;
    let table: Vec<Vec<u8>> = vec![vec![0u8; bars]];
    assert_eq!(check_input(&table, 100, 5), Err(InvalidInput::TooManyBars));
}

#[test]
fn no_decision_is_asked_of_a_refused_run() {
    let asked = std::cell::Cell::new(0);
    let enter = |_: EnterMarketInfo<f64>| {
        asked.set(asked.get() + 1);
        true
    };
    let exit = |_: ExitMarketInfo<f64>| {
        asked.set(asked.get() + 1);
        true
    };
    let table = vec![vec![1.0, 2.0], vec![1.0]];
    assert!(backtest(table, 100, 5, &enter, &exit).is_err());
    assert_eq!(asked.get(), 0);
}
