//! Arbitrage bot for prediction markets: the verified core.
//!
//! A market pays one dollar for one of its outcomes. Where all outcomes together
//! cost less, buying every one of them is a profit whatever wins. This crate
//! holds the rules by which the bot finds such markets, sizes and limits its
//! trades, simulates them, and keeps its books.

pub mod circuit_breaker;
pub mod config;
pub mod event_detector;
pub mod execution;
pub mod gamma;
pub mod market_scanner;
pub mod metrics;
pub mod numeral;
pub mod paper_trading;
pub mod polymarket;
pub mod position_tracker;
pub mod quantity;
pub mod seqs;
pub mod session;
pub mod text;
pub mod timestamp;
pub mod types;
