//! What the liquidator keeps in memory of the chain.

pub mod banks;
pub mod swb_prices;
