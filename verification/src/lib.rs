//! A risk engine for a small exchange: it keeps the balances of each user's
//! accounts, checks withdrawals against what is spendable, keeps the pending
//! withdrawals of each user and books settlements against them.
//!
//! Amounts are whole numbers of the smallest unit of a currency
//! (`UNITS_PER_COIN` units make one coin); balances saturate at the limits of
//! `i64` rather than wrap.

pub mod account;
pub mod amount;
mod account_order;
pub mod risk_engine;
