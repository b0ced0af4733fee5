//! The services around the liquidator: price feeds, cranks and account refreshes.

pub mod client_error;
pub mod integration_account_fetcher;
pub mod simulation_cache;
pub mod swb_cranker;
pub mod swb_price_fetcher;
