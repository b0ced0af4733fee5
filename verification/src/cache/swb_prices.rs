//! Switchboard prices, by bank.

use vstd::prelude::*;

use crate::fixed_point::I80F48;
use crate::keyed::{with_all, KeyMap};
use crate::pubkey::Pubkey;

verus! {

/// The price of a bank's token, at this moment and weighted over time, each with its confidence.
#[derive(Clone, Copy, Debug, PartialEq, Eq, Structural)]
pub struct SwbPrice {
    pub price_realtime: I80F48,
    pub conf_realtime: I80F48,
    pub price_weighted: I80F48,
    pub conf_weighted: I80F48,
}

/// The latest price of each bank.
#[derive(Debug)]
pub struct SwbPricesCache {
    prices: KeyMap<SwbPrice>,
}

impl View for SwbPricesCache {
    type V = Map<Pubkey, SwbPrice>;

    closed spec fn view(&self) -> Map<Pubkey, SwbPrice> {
        self.prices@
    }
}

impl SwbPricesCache {
    /// No bank stands in the cache twice.
    pub closed spec fn wf(&self) -> bool {
        self.prices.wf()
    }

    /// An empty cache.
    pub fn new() -> (c: SwbPricesCache)
        ensures
            c.wf(),
            c@ == Map::<Pubkey, SwbPrice>::empty(),
    {
        SwbPricesCache { prices: KeyMap::new() }
    }

    /// Records the price of a bank, in place of an earlier one.
    pub fn upsert(&mut self, bank_address: Pubkey, price: SwbPrice)
        requires
            old(self).wf(),
        ensures
            final(self).wf(),
            final(self)@ == old(self)@.insert(bank_address, price),
    {
        self.prices.insert(bank_address, price);
    }

    /// Records the same price of several banks, in place of earlier ones.
    pub fn upsert_all(&mut self, bank_addresses: &Vec<Pubkey>, price: SwbPrice)
        requires
            old(self).wf(),
        ensures
            final(self).wf(),
            final(self)@ == with_all(old(self)@, bank_addresses@, price),
    {
        self.prices.insert_all(bank_addresses, price);
    }

    /// The latest price of a bank.
    pub fn get(&self, bank_address: &Pubkey) -> (price: Option<SwbPrice>)
        requires
            self.wf(),
        ensures
            price == self@.get(*bank_address),
    {
        match self.prices.get(bank_address) {
            Some(price) => Some(*price),
            None => None,
        }
    }
}

/// A price that was recorded is the price of its bank, until another is recorded; the prices of
/// other banks are not concerned.
pub proof fn law_the_recorded_price_is_found(
    one: &mut SwbPricesCache,
    several: &mut SwbPricesCache,
    kept: &SwbPricesCache,
    bank: Pubkey,
    banks: &Vec<Pubkey>,
    price: SwbPrice,
    other: &Pubkey,
    found: Option<SwbPrice>,
)
    requires
        call_ensures(SwbPricesCache::upsert, (one, bank, price), ()),
        call_ensures(SwbPricesCache::upsert_all, (several, banks, price), ()),
        call_ensures(SwbPricesCache::get, (kept, other), found),
    ensures
        final(one)@.get(*other) == if *other == bank {
            Some(price)
        } else {
            old(one)@.get(*other)
        },
        final(several)@.get(*other) == if banks@.contains(*other) {
            Some(price)
        } else {
            old(several)@.get(*other)
        },
        found == kept@.get(*other),
{
}

}
