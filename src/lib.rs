//! A single-asset wagering ledger: per-account balances with a pool total kept
//! equal to their sum, deposits and withdrawals, and the settlement of coin-flip
//! bets with their taxes and history.

pub mod display;
pub mod ledger;
pub mod store;
pub mod tax;
