//! Core of a single-round pooled-contribution lottery.
//!
//! The ledger for one round is an explicit value: who contributed how much,
//! the round's lifecycle stage, and the eventually selected winner.  Every
//! operation is pure `decode -> validate -> mutate -> encode` on that value;
//! authorization, storage allocation and the execution of value transfers are
//! left to the host that embeds this crate.

pub mod codec;
pub mod error;
pub mod instructions;
pub mod processor;
pub mod state;
pub mod utils;
