//! Refreshing the accounts of integrations.
//!
//! Some integrations refuse to work with an account that was not refreshed in the same
//! transaction. The copies that are kept here only serve to read prices, so the field that says
//! when they were last refreshed is overwritten with a time that never comes.

use vstd::prelude::*;

use crate::cache::banks::{keys_held, law_keys_of_each_kind, Account, BanksCache, KeyKind};
use crate::pubkey::Pubkey;

verus! {

/// How long to wait between two refreshes.
pub const FETCH_INTERVAL_SECS: u64 = 1800;

/// Where the slot of the last refresh stands in a Kamino reserve.
pub const KAMINO_SLOT_OFFSET: usize = 16;

/// Where the time of the last refresh stands in a Juplend lending state.
pub const JUPLEND_TIMESTAMP_OFFSET: usize = 123;

/// An integration whose accounts are refreshed.
#[derive(Clone, Copy, Debug, PartialEq, Eq, Structural)]
pub enum Integration {
    Kamino,
    Juplend,
}

/// An account to be put in the cache.
#[derive(Debug)]
pub struct Update {
    pub address: Pubkey,
    pub account: Account,
}

// ── Models ───────────────────────────────────────────────────────────────────

/// The number that bytes spell, the lowest first.
pub open spec fn le_value(bytes: Seq<u8>) -> nat
    decreases bytes.len(),
{
    if bytes.len() == 0 {
        0
    } else {
        bytes[0] as nat + 256 * le_value(bytes.skip(1))
    }
}

/// Where the time of the last refresh stands.
pub open spec fn offset_of(integration: Integration) -> nat {
    match integration {
        Integration::Kamino => KAMINO_SLOT_OFFSET as nat,
        Integration::Juplend => JUPLEND_TIMESTAMP_OFFSET as nat,
    }
}

/// The highest byte of the time that never comes. A slot has no sign, a timestamp has one.
pub open spec fn top_byte(integration: Integration) -> u8 {
    match integration {
        Integration::Kamino => 0xff,
        Integration::Juplend => 0x7f,
    }
}

/// The data with its time of the last refresh overwritten, where it is long enough to hold one.
pub open spec fn masked(integration: Integration, data: Seq<u8>) -> Seq<u8> {
    let at = offset_of(integration) as int;
    if data.len() < at + 8 {
        data
    } else {
        Seq::new(
            data.len(),
            |i: int|
                if at <= i < at + 7 {
                    0xffu8
                } else if i == at + 7 {
                    top_byte(integration)
                } else {
                    data[i]
                },
        )
    }
}

/// The kind of key under which an integration's accounts stand in the banks.
pub open spec fn kind_of(integration: Integration) -> KeyKind {
    match integration {
        Integration::Kamino => KeyKind::KaminoReserve,
        Integration::Juplend => KeyKind::JuplendLendingState,
    }
}

/// The address of an update, and what it makes of an account.
pub open spec fn is_update(
    integration: Integration,
    update: Update,
    address: Pubkey,
    account: Account,
) -> bool {
    &&& update.address == address
    &&& update.account.data@ == masked(integration, account.data@)
    &&& update.account.lamports == account.lamports
    &&& update.account.owner == account.owner
    &&& update.account.executable == account.executable
    &&& update.account.rent_epoch == account.rent_epoch
}

/// The accounts that belong to an address.
pub open spec fn paired(addresses: Seq<Pubkey>, accounts: Seq<Option<Account>>) -> Seq<
    Option<Account>,
> {
    if accounts.len() <= addresses.len() {
        accounts
    } else {
        accounts.take(addresses.len() as int)
    }
}

/// The places of the accounts that were found.
pub open spec fn found_places(accounts: Seq<Option<Account>>) -> Seq<int>
    decreases accounts.len(),
{
    if accounts.len() == 0 {
        Seq::empty()
    } else {
        let before = found_places(accounts.drop_last());
        if accounts.last() is Some {
            before.push(accounts.len() - 1)
        } else {
            before
        }
    }
}

// ── Functions ────────────────────────────────────────────────────────────────

/// The accounts of an integration that are to be fetched.
pub fn addresses_to_refresh(banks: &BanksCache, integration: Integration) -> (
addresses: Vec<Pubkey>)
    requires
        banks.wf(),
    ensures
        addresses@.no_duplicates(),
        addresses@.to_set() == keys_held(banks.banks(), kind_of(integration)),
{
    match integration {
        Integration::Kamino => banks.get_kamino_reserves(),
        Integration::Juplend => banks.get_juplend_lending_states(),
    }
}

/// Overwrites the time of the last refresh.
pub fn mask(integration: Integration, data: &mut Vec<u8>)
    ensures
        final(data)@ == masked(integration, old(data)@),
{
    let at: usize = match integration {
        Integration::Kamino => KAMINO_SLOT_OFFSET,
        Integration::Juplend => JUPLEND_TIMESTAMP_OFFSET,
    };
    let top: u8 = match integration {
        Integration::Kamino => 0xff,
        Integration::Juplend => 0x7f,
    };
    if data.len() >= at + 8 {
        let mut i: usize = 0;
        while i < 7
            invariant
                i <= 7,
                at <= JUPLEND_TIMESTAMP_OFFSET,
                at + 8 <= data@.len(),
                data@.len() == old(data)@.len(),
                forall|j: int|
                    0 <= j < data@.len() ==> #[trigger] data@[j] == if at <= j < at + i {
                        0xffu8
                    } else {
                        old(data)@[j]
                    },
            decreases 7 - i,
        {
            data.set(at + i, 0xff);
            i += 1;
        }
        data.set(at + 7, top);
        assert(data@ =~= masked(integration, old(data)@));
    }
}

/// The updates that fetched accounts make, in order. `accounts` holds, for each address, its
/// account, or `None` where there is none. What has no counterpart is left out.
pub fn refreshed(
    integration: Integration,
    addresses: &Vec<Pubkey>,
    accounts: Vec<Option<Account>>,
) -> (updates: Vec<Update>)
    ensures
        ({
            let places = found_places(paired(addresses@, accounts@));
            &&& updates@.len() == places.len()
            &&& forall|i: int|
                0 <= i < updates@.len() ==> is_update(
                    integration,
                    #[trigger] updates@[i],
                    addresses@[places[i]],
                    accounts@[places[i]]->0,
                )
        }),
{
    let ghost mine = paired(addresses@, accounts@);
    let mut rest = accounts;
    let mut updates: Vec<Update> = Vec::new();
    let mut i: usize = 0;
    while i < rest.len() && i < addresses.len()
        invariant
            mine == paired(addresses@, accounts@),
            i <= mine.len(),
            rest@.len() == accounts@.len(),
            forall|j: int| i <= j < rest@.len() ==> rest@[j] == accounts@[j],
            updates@.len() == found_places(mine.take(i as int)).len(),
            forall|j: int|
                0 <= j < updates@.len() ==> is_update(
                    integration,
                    #[trigger] updates@[j],
                    addresses@[found_places(mine.take(i as int))[j]],
                    accounts@[found_places(mine.take(i as int))[j]]->0,
                ),
        decreases rest@.len() - i,
    {
        assert(mine.take(i + 1).drop_last() =~= mine.take(i as int));
        assert(mine.take(i + 1).last() == accounts@[i as int]);
        let mut slot: Option<Account> = None;
        std::mem::swap(&mut slot, &mut rest[i]);
        if let Some(account) = slot {
            let mut account = account;
            mask(integration, &mut account.data);
            updates.push(Update { address: addresses[i], account });
        }
        i += 1;
    }
    assert(mine.take(i as int) =~= mine);
    updates
}

// ── Laws ─────────────────────────────────────────────────────────────────────

/// A masked account never counts as stale: the time of its last refresh is not before any slot
/// or timestamp.
pub proof fn law_masked_accounts_are_never_stale(
    integration: Integration,
    data: Seq<u8>,
    slot: u64,
    timestamp: i64,
)
    requires
        data.len() >= offset_of(integration) + 8,
    ensures
        ({
            let at = offset_of(integration) as int;
            let refreshed_at = le_value(masked(integration, data).subrange(at, at + 8));
            match integration {
                Integration::Kamino => refreshed_at == u64::MAX && !(refreshed_at < slot),
                Integration::Juplend => refreshed_at == i64::MAX && !(refreshed_at < timestamp),
            }
        }),
{
    reveal_with_fuel(le_value, 9);
    let at = offset_of(integration) as int;
    let bytes = masked(integration, data).subrange(at, at + 8);
    assert(bytes =~= seq![
        0xffu8,
        0xffu8,
        0xffu8,
        0xffu8,
        0xffu8,
        0xffu8,
        0xffu8,
        top_byte(integration),
    ]);
    let b1 = bytes.skip(1);
    let b2 = b1.skip(1);
    let b3 = b2.skip(1);
    let b4 = b3.skip(1);
    let b5 = b4.skip(1);
    let b6 = b5.skip(1);
    let b7 = b6.skip(1);
    assert(b7.skip(1).len() == 0);
    assert(le_value(b7) == top_byte(integration));
}

/// Only the time of the last refresh is overwritten.
pub proof fn law_the_rest_of_an_account_is_kept(integration: Integration, data: Seq<u8>, i: int)
    requires
        0 <= i < data.len(),
        i < offset_of(integration) || i >= offset_of(integration) + 8,
    ensures
        masked(integration, data).len() == data.len(),
        masked(integration, data)[i] == data[i],
{
}

/// In a Kamino reserve the eight bytes from the sixteenth on are overwritten, in a Juplend lending
/// state those from the hundred and twenty-third on; data too short for them is left as it is.
pub proof fn law_the_time_stands_at_its_place(integration: Integration, data: Seq<u8>, i: int)
    requires
        0 <= i < data.len(),
    ensures
        ({
            let at = match integration {
                Integration::Kamino => 16int,
                Integration::Juplend => 123int,
            };
            let masked = masked(integration, data);
            &&& masked.len() == data.len()
            &&& masked[i] == if data.len() < at + 8 || i < at || i >= at + 8 {
                data[i]
            } else if i < at + 7 {
                255u8
            } else {
                match integration {
                    Integration::Kamino => 255u8,
                    Integration::Juplend => 127u8,
                }
            }
        }),
{
}

/// The places of the accounts that were found are in order, and no other place is among them.
pub proof fn law_just_the_found_accounts_have_places(accounts: Seq<Option<Account>>, place: int)
    ensures
        found_places(accounts).contains(place) <==> 0 <= place < accounts.len() && accounts[place] is Some,
        forall|i: int, j: int|
            0 <= i < j < found_places(accounts).len() ==> found_places(accounts)[i] < found_places(
                accounts,
            )[j],
        forall|i: int|
            0 <= i < found_places(accounts).len() ==> 0 <= #[trigger] found_places(accounts)[i]
                < accounts.len(),
    decreases accounts.len(),
{
    if accounts.len() > 0 {
        let front = accounts.drop_last();
        let last = accounts.len() - 1;
        law_just_the_found_accounts_have_places(front, place);
        let before = found_places(front);
        let all = found_places(accounts);
        if accounts.last() is Some {
            assert(all[before.len() as int] == last);
            if before.contains(place) {
                let i = choose|i: int| 0 <= i < before.len() && before[i] == place;
                assert(all[i] == place);
            }
            if all.contains(place) && place != last {
                let i = choose|i: int| 0 <= i < all.len() && all[i] == place;
                assert(before[i] == place);
            }
        }
        if 0 <= place < last {
            assert(front[place] == accounts[place]);
        }
    }
}

/// Each account that was found makes an update under its own address, which is the account with
/// only its data masked; an account that was not found makes none.
pub proof fn law_each_found_account_is_updated(
    integration: Integration,
    addresses: &Vec<Pubkey>,
    accounts: Vec<Option<Account>>,
    updates: Vec<Update>,
    i: int,
)
    requires
        call_ensures(refreshed, (integration, addresses, accounts), updates),
        0 <= i < addresses@.len(),
        i < accounts@.len(),
        accounts@[i] is Some,
    ensures
        exists|j: int|
            0 <= j < updates@.len() && (#[trigger] updates@[j]).address == addresses@[i]
                && updates@[j].account.data@ == masked(integration, accounts@[i]->0.data@)
                && updates@[j].account.owner == accounts@[i]->0.owner
                && updates@[j].account.lamports == accounts@[i]->0.lamports
                && updates@[j].account.executable == accounts@[i]->0.executable
                && updates@[j].account.rent_epoch == accounts@[i]->0.rent_epoch,
{
    let mine = paired(addresses@, accounts@);
    let places = found_places(mine);
    assert(mine[i] == accounts@[i]);
    law_just_the_found_accounts_have_places(mine, i);
    let j = choose|j: int| 0 <= j < places.len() && places[j] == i;
    assert(is_update(integration, updates@[j], addresses@[places[j]], accounts@[places[j]]->0));
}

/// There are no more updates than accounts that were found, and each is under one of the
/// addresses.
pub proof fn law_there_are_no_other_updates(
    integration: Integration,
    addresses: &Vec<Pubkey>,
    accounts: Vec<Option<Account>>,
    updates: Vec<Update>,
    j: int,
)
    requires
        call_ensures(refreshed, (integration, addresses, accounts), updates),
        0 <= j < updates@.len(),
    ensures
        exists|i: int|
            0 <= i < addresses@.len() && i < accounts@.len() && accounts@[i] is Some
                && #[trigger] addresses@[i] == updates@[j].address && updates@[j].account.data@
                == masked(integration, accounts@[i]->0.data@),
{
    let mine = paired(addresses@, accounts@);
    let places = found_places(mine);
    law_just_the_found_accounts_have_places(mine, places[j]);
    assert(places.contains(places[j]));
    assert(mine[places[j]] == accounts@[places[j]]);
    assert(is_update(integration, updates@[j], addresses@[places[j]], accounts@[places[j]]->0));
    assert(addresses@[places[j]] == updates@[j].address);
}

/// What is fetched are the first integration accounts of the banks with the asset tag of the
/// integration, each once.
pub proof fn law_the_integrations_accounts_are_fetched(
    banks: &BanksCache,
    integration: Integration,
    addresses: Vec<Pubkey>,
    k: Pubkey,
)
    requires
        call_ensures(addresses_to_refresh, (banks, integration), addresses),
    ensures
        addresses@.no_duplicates(),
        addresses@.contains(k) <==> exists|a: Pubkey| #[trigger]
            banks.banks().contains_key(a) && banks.banks()[a].bank.integration_acc_1 == k
                && banks.banks()[a].bank.config.asset_tag == match integration {
                Integration::Kamino => 3u8,
                Integration::Juplend => 6u8,
            },
{
    assert(addresses@.to_set().contains(k) <==> addresses@.contains(k));
    law_keys_of_each_kind(banks.banks(), kind_of(integration), k);
}

/// The data is masked as modelled.
pub proof fn law_data_is_masked_as_modelled(integration: Integration, data: &mut Vec<u8>)
    requires
        call_ensures(mask, (integration, data), ()),
    ensures
        final(data)@ == masked(integration, old(data)@),
{
}

}
