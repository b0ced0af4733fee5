//! Instructions of the Juplend lending program.

use vstd::prelude::*;

use crate::pubkey::Pubkey;

verus! {

/// The part of a lending state that its instructions refer to.
#[derive(Clone, Copy, Debug)]
pub struct Lending {
    pub mint: Pubkey,
    pub f_token_mint: Pubkey,
    pub token_reserves_liquidity: Pubkey,
    pub rewards_rate_model: Pubkey,
}

/// The accounts of the instruction that updates a lending rate, in order.
#[derive(Clone, Copy, Debug)]
pub struct UpdateRate {
    pub lending: Pubkey,
    pub mint: Pubkey,
    pub f_token_mint: Pubkey,
    pub supply_token_reserves_liquidity: Pubkey,
    pub rewards_rate_model: Pubkey,
}

/// The instruction that updates the rate of a lending state: the accounts that it works on.
pub fn make_update_lending_rate_ix(lending_state_address: Pubkey, lending_state: &Lending) -> (
accounts: UpdateRate)
    ensures
        accounts == (UpdateRate {
            lending: lending_state_address,
            mint: lending_state.mint,
            f_token_mint: lending_state.f_token_mint,
            supply_token_reserves_liquidity: lending_state.token_reserves_liquidity,
            rewards_rate_model: lending_state.rewards_rate_model,
        }),
{
    UpdateRate {
        lending: lending_state_address,
        mint: lending_state.mint,
        f_token_mint: lending_state.f_token_mint,
        supply_token_reserves_liquidity: lending_state.token_reserves_liquidity,
        rewards_rate_model: lending_state.rewards_rate_model,
    }
}

/// Each account of the instruction is the lending state's own.
pub proof fn law_the_rate_of_a_lending_state_is_updated(
    address: Pubkey,
    lending: &Lending,
    accounts: UpdateRate,
)
    requires
        call_ensures(make_update_lending_rate_ix, (address, lending), accounts),
    ensures
        accounts.lending == address,
        accounts.mint == lending.mint,
        accounts.f_token_mint == lending.f_token_mint,
        accounts.supply_token_reserves_liquidity == lending.token_reserves_liquidity,
        accounts.rewards_rate_model == lending.rewards_rate_model,
{
}

}
