//! The indicators, one module each.
pub mod bbands;
pub mod dema;
pub mod ema;
pub mod macd;
pub mod midpoint;
pub mod midprice;
pub mod rsi;
pub mod sma;
pub mod tema;
pub mod trima;
pub mod wma;
