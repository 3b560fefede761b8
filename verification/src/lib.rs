//! A small trading library with a verified simulated broker: an exact
//! rational-number ledger, market/limit order matching with buying-power
//! reservation, and a time-driven simulation environment that replays
//! bar data into the broker's price table.

pub mod api;
pub mod assets;
pub mod broker;
pub mod client;
pub mod common;
pub mod environment;
pub mod errors;
pub mod ledger;
pub mod provider;
pub mod rational;
pub mod request;
pub mod tables;

pub use rational::Rational;
