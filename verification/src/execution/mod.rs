//! The execution of liquidations: from an account that can be liquidated to transactions that
//! have landed.

pub mod executor;
pub mod inventory;
pub mod submission;

use vstd::prelude::*;

use crate::fixed_point::I80F48;
use crate::pubkey::Pubkey;

verus! {

/// An account that can be liquidated, and how.
#[derive(Debug)]
pub struct LiquidationIntent {
    /// The account to liquidate.
    pub liquidatee: Pubkey,
    /// The bank whose asset is seized.
    pub asset_bank: Pubkey,
    /// The bank whose liability is repaid.
    pub liab_bank: Pubkey,
    /// How much of the asset to seize.
    pub asset_amount: I80F48,
    /// How much of the liability that is worth.
    pub liab_amount: I80F48,
    /// The Switchboard feeds that the liquidation reads.
    pub swb_oracles: Vec<Pubkey>,
}

/// The transactions that carry out a liquidation, in order, and the lookup tables that were
/// created for them.
#[derive(Debug)]
pub struct ExecutionPlan<T> {
    pub txs: Vec<T>,
    pub temp_luts: Vec<Pubkey>,
}

}
