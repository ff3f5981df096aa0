//! Swing-trading engine.

pub mod align;
pub mod amount;
pub mod backtest;
pub mod binance;
pub mod clock;
pub mod closed_bars;
pub mod config;
pub mod costs;
pub mod cycle;
pub mod equity;
pub mod exchange;
pub mod executor;
pub mod indicators;
pub mod json;
pub mod market;
pub mod montecarlo;
pub mod notify;
pub mod number;
pub mod numerals;
pub mod portfolio;
pub mod reconcile;
pub mod report;
pub mod risk;
pub mod rounding;
pub mod signing;
pub mod strategy;
pub mod study;
pub mod text;
pub mod upkeep;
pub mod venue;
