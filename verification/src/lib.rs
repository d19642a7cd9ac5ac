//! A single-asset strategy simulator: it replays a table of market observations bar by bar,
//! opens a position when the caller's enter decision fires and capital is available, closes
//! open positions when the caller's exit decision fires for them, and reports the trades.
//!
//! The table's values are opaque to the simulator: it copies prices into positions and trades
//! and shows them to the two decision functions, but never computes with them.

pub mod engine;
pub mod laws;
pub mod market;
pub mod model;
pub mod portfolio;
pub mod table;
pub mod trade;

pub use engine::{backtest, Simulation};
pub use market::{EnterMarketInfo, ExitMarketInfo};
pub use portfolio::Portfolio;
pub use table::{check_input, first, InvalidInput};
pub use trade::{BacktestResults, TradeActionIn, TradeActionOut, TradeInputResults};
