//! The decisions of a liquidator for marginfi.
//!
//! This library holds what the liquidator decides and computes; everything it does to the outside
//! world is done by its caller. Where a decision takes several rounds, it is a value that names
//! the pending request and takes in what came of it, and the contract of each step says what the
//! value becomes.
//!
//! - [`execution`] takes a liquidation from its intent to transactions on the chain,
//! - [`rebalancer`] sells what was seized,
//! - [`utils`] decides which feeds are cranked, takes prices in and refreshes accounts,
//! - [`cache`] holds the banks and the prices,
//! - [`cli`] fills lookup tables,
//! - [`transaction`] compiles messages and signs them.
//!
//! What outside crates compute enters the contracts by name, through functions whose contracts
//! are trusted; each of them says which outside function it calls.

pub mod cache;
pub mod cli;
pub mod execution;
pub mod fixed_point;
pub mod juplend_ixs;
pub mod keyed;
pub mod pubkey;
pub mod rebalancer;
pub mod text;
pub mod time;
pub mod transaction;
pub mod utils;
