use std::cell::RefCell;

use rusty_backtest::{backtest, EnterMarketInfo, ExitMarketInfo};

#[test]
fn enter_decision_is_asked_once_on_every_bar() {
    let seen: RefCell<Vec<(i32, f64, i32, i32)>> = RefCell::new(vec![]);
    let enter = |info: EnterMarketInfo<f64>| {
        seen.borrow_mut().push((info.index, info.current_price, info.holding, info.inmarket));
        true
    };
    let exit = |_: ExitMarketInfo<f64>| false;
    let table = vec![vec![1.5, 2.5, 3.5, 4.5]];
    backtest(table, 11, 5, &enter, &exit).unwrap();
    // The ledger shown is the one with which the bar began; on the last two bars 1 is
    // free, no entry is possible, and the decision is asked all the same.
    assert_eq!(
        *seen.borrow(),
        vec![(0, 1.5, 11, 0), (1, 2.5, 6, 5), (2, 3.5, 1, 10), (3, 4.5, 1, 10)]
    );
}

#[test]
fn exit_decision_sees_the_ledger_after_the_entry_of_the_bar() {
    let seen: RefCell<Vec<(i32, i32, f64, f64, i32, i32)>> = RefCell::new(vec![]);
    let enter = |info: EnterMarketInfo<f64>| info.index < 2;
    let exit = |info: ExitMarketInfo<f64>| {
        seen.borrow_mut().push((
            info.index,
            info.index_in,
            info.current_price,
            info.price_in,
            info.holding,
            info.inmarket,
        ));
        info.index == 2
    };
    let table = vec![vec![1.5, 2.5, 3.5, 4.5]];
    let results = backtest(table, 100, 5, &enter, &exit).unwrap();
    assert_eq!(
        *seen.borrow(),
        vec![
            (0, 0, 1.5, 1.5, 95, 5),
            (1, 0, 2.5, 1.5, 90, 10),
            (1, 1, 2.5, 2.5, 90, 10),
            // Both positions leave on bar 2; each is shown the ledger as the bar's entry
            // left it.
            (2, 0, 3.5, 1.5, 90, 10),
            (2, 1, 3.5, 2.5, 90, 10),
        ]
    );
    assert!(results.tradesin.is_empty());
    assert_eq!(results.tradesout.len(), 2);
}

#[test]
fn both_decisions_are_shown_the_whole_table() {
    let table = vec![vec![1.0, 2.0], vec![10.0, 20.0], vec![100.0, 200.0]];
    let expected = table.clone();
    let enter = |info: EnterMarketInfo<f64>| {
        assert_eq!(*info.data, expected);
        info.data[2][info.index as usize] >= 200.0
    };
    let exit = |info: ExitMarketInfo<f64>| {
        assert_eq!(*info.data, expected);
        false
    };
    let results = backtest(table, 100, 5, &enter, &exit).unwrap();
    assert_eq!(results.tradesin.len(), 1);
    assert_eq!(results.tradesin[0].index_in, 1);
    assert_eq!(results.tradesin[0].price_in, 2.0);
}

#[test]
fn same_answers_give_the_same_report() {
    let table = vec![vec![1.0, 2.0, 3.0, 4.0, 5.0, 6.0]];
    let enter = |info: EnterMarketInfo<f64>| info.index % 2 == 0;
    let exit = |info: ExitMarketInfo<f64>| info.current_price - info.price_in >= 3.0;
    let a = backtest(table.clone(), 100, 5, &enter, &exit).unwrap();
    let b = backtest(table, 100, 5, &enter, &exit).unwrap();
    let key = |r: &rusty_backtest::BacktestResults<f64>| {
        (
            r.tradesin.iter().map(|p| (p.index_in, p.amt)).collect::<Vec<_>>(),
            r.tradesout.iter().map(|t| (t.index_in, t.index_out, t.amt)).collect::<Vec<_>>(),
        )
    };
    assert_eq!(key(&a), key(&b));
    assert_eq!(key(&a).1, vec![(0, 3, 5), (2, 5, 5)]);
    assert_eq!(key(&a).0, vec![(4, 5)]);
}
