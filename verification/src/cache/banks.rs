//! The banks of the group, by address and by mint.

use vstd::prelude::*;

use crate::keyed::{distinct_keys, holds, KeyMap, KeySet};
use crate::pubkey::{base58_text, Pubkey};
use crate::text::{concat, contains_text, lemma_contains_itself, lemma_part_contains};

verus! {

pub const ASSET_TAG_DEFAULT: u8 = 0;
pub const ASSET_TAG_SOL: u8 = 1;
pub const ASSET_TAG_STAKED: u8 = 2;
pub const ASSET_TAG_KAMINO: u8 = 3;
pub const ASSET_TAG_DRIFT: u8 = 4;
pub const ASSET_TAG_JUPLEND: u8 = 6;

/// Where a bank's price comes from, as far as it matters here.
#[derive(Clone, Copy, Debug, PartialEq, Eq, Structural)]
pub enum OracleSetup {
    SwitchboardPull,
    KaminoSwitchboardPull,
    DriftSwitchboardPull,
    JuplendSwitchboardPull,
    Other,
}

/// The part of a bank's configuration that is read here.
#[derive(Clone, Copy, Debug)]
pub struct BankConfig {
    pub asset_tag: u8,
    pub oracle_setup: OracleSetup,
    pub oracle_keys: [Pubkey; 5],
}

/// The part of a bank that is read here.
#[derive(Clone, Copy, Debug)]
pub struct Bank {
    pub mint: Pubkey,
    pub liquidity_vault: Pubkey,
    pub insurance_vault: Pubkey,
    pub fee_vault: Pubkey,
    pub integration_acc_1: Pubkey,
    pub integration_acc_2: Pubkey,
    pub integration_acc_3: Pubkey,
    pub config: BankConfig,
}

/// An account as the chain holds it.
#[derive(Debug)]
pub struct Account {
    pub lamports: u64,
    pub data: Vec<u8>,
    pub owner: Pubkey,
    pub executable: bool,
    pub rent_epoch: u64,
}

/// A bank with its address, the oracle addresses that its configuration resolves to, and the
/// account that it was read from.
#[derive(Debug)]
pub struct BankWrapper {
    pub address: Pubkey,
    pub bank: Bank,
    pub oracles: Vec<Pubkey>,
    pub account: Account,
}

/// A lookup that found nothing.
#[derive(Clone, Copy, Debug)]
pub enum BanksError {
    /// No bank has this address.
    BankNotFound(Pubkey),
    /// No bank of the group's own liquidity is known for this mint.
    MintNotFound(Pubkey),
}

impl BanksError {
    /// What the error says.
    pub open spec fn text(&self) -> Seq<char> {
        match *self {
            BanksError::BankNotFound(address) => "Failed to find the Bank "@ + base58_text(address)
                + " in Cache!"@,
            BanksError::MintNotFound(mint) => "Failed to find Bank for the Mint "@ + base58_text(
                mint,
            ) + " in Cache!"@,
        }
    }

    /// What the error says.
    pub fn message(&self) -> (message: String)
        ensures
            message@ == self.text(),
    {
        match self {
            BanksError::BankNotFound(address) => concat(
                "Failed to find the Bank ",
                address.to_text().as_str(),
                " in Cache!",
            ),
            BanksError::MintNotFound(mint) => concat(
                "Failed to find Bank for the Mint ",
                mint.to_text().as_str(),
                " in Cache!",
            ),
        }
    }
}

/// The banks of the group.
#[derive(Debug)]
pub struct BanksCache {
    banks: KeyMap<BankWrapper>,
    mint_to_p0_bank: KeyMap<Pubkey>,
}

// ── Models ───────────────────────────────────────────────────────────────────

/// A bank that holds its own liquidity, not an integration's.
pub open spec fn is_p0(bank: Bank) -> bool {
    ||| bank.config.asset_tag == ASSET_TAG_DEFAULT
    ||| bank.config.asset_tag == ASSET_TAG_SOL
    ||| bank.config.asset_tag == ASSET_TAG_STAKED
}

/// A kind of key that some banks hold.
#[derive(Clone, Copy, Debug, PartialEq, Eq, Structural)]
pub enum KeyKind {
    /// The feed of a bank that Switchboard prices, directly or through an integration.
    SwbFeed,
    /// The feed of a bank that Switchboard prices directly.
    DirectSwbFeed,
    /// The reserve of a Kamino bank.
    KaminoReserve,
    /// The user account of a Drift bank.
    DriftUser,
    /// The lending state of a Juplend bank.
    JuplendLendingState,
    /// The mint of any bank.
    Mint,
}

/// The key of a kind that a bank holds, if it holds one.
pub open spec fn key_of(kind: KeyKind, bank: Bank) -> Option<Pubkey> {
    let config = bank.config;
    match kind {
        KeyKind::SwbFeed => if config.oracle_setup != OracleSetup::Other {
            Some(config.oracle_keys@[0])
        } else {
            None
        },
        KeyKind::DirectSwbFeed => if config.oracle_setup == OracleSetup::SwitchboardPull {
            Some(config.oracle_keys@[0])
        } else {
            None
        },
        KeyKind::KaminoReserve => if config.asset_tag == ASSET_TAG_KAMINO {
            Some(bank.integration_acc_1)
        } else {
            None
        },
        KeyKind::DriftUser => if config.asset_tag == ASSET_TAG_DRIFT {
            Some(bank.integration_acc_2)
        } else {
            None
        },
        KeyKind::JuplendLendingState => if config.asset_tag == ASSET_TAG_JUPLEND {
            Some(bank.integration_acc_1)
        } else {
            None
        },
        KeyKind::Mint => Some(bank.mint),
    }
}

fn pick(kind: KeyKind, bank: &Bank) -> (key: Option<Pubkey>)
    ensures
        key == key_of(kind, *bank),
{
    let wanted = match kind {
        KeyKind::SwbFeed => bank.config.oracle_setup != OracleSetup::Other,
        KeyKind::DirectSwbFeed => bank.config.oracle_setup == OracleSetup::SwitchboardPull,
        KeyKind::KaminoReserve => bank.config.asset_tag == ASSET_TAG_KAMINO,
        KeyKind::DriftUser => bank.config.asset_tag == ASSET_TAG_DRIFT,
        KeyKind::JuplendLendingState => bank.config.asset_tag == ASSET_TAG_JUPLEND,
        KeyKind::Mint => true,
    };
    if !wanted {
        return None;
    }
    match kind {
        KeyKind::SwbFeed => Some(bank.config.oracle_keys[0]),
        KeyKind::DirectSwbFeed => Some(bank.config.oracle_keys[0]),
        KeyKind::KaminoReserve => Some(bank.integration_acc_1),
        KeyKind::DriftUser => Some(bank.integration_acc_2),
        KeyKind::JuplendLendingState => Some(bank.integration_acc_1),
        KeyKind::Mint => Some(bank.mint),
    }
}

/// The keys of a kind that the banks hold.
pub open spec fn keys_held(banks: Map<Pubkey, BankWrapper>, kind: KeyKind) -> Set<Pubkey> {
    Set::new(
        |k: Pubkey|
            exists|a: Pubkey| #[trigger]
                banks.contains_key(a) && key_of(kind, banks[a].bank) == Some(k),
    )
}

/// The addresses of the banks that hold `key` as their key of a kind.
pub open spec fn holders(banks: Map<Pubkey, BankWrapper>, kind: KeyKind, key: Pubkey) -> Set<
    Pubkey,
> {
    Set::new(|a: Pubkey| banks.contains_key(a) && key_of(kind, banks[a].bank) == Some(key))
}

/// The addresses of the banks that a given oracle prices.
pub open spec fn banks_of_oracle(banks: Map<Pubkey, BankWrapper>, oracle: Pubkey) -> Set<Pubkey> {
    Set::new(|a: Pubkey| banks.contains_key(a) && banks[a].oracles@.contains(oracle))
}

/// The oracles of all banks.
pub open spec fn all_oracles(banks: Map<Pubkey, BankWrapper>) -> Set<Pubkey> {
    Set::new(
        |k: Pubkey|
            exists|a: Pubkey| #[trigger] banks.contains_key(a) && banks[a].oracles@.contains(k),
    )
}

impl BanksCache {
    /// The banks by address.
    pub closed spec fn banks(&self) -> Map<Pubkey, BankWrapper> {
        self.banks@
    }

    /// The addresses of the banks of own liquidity, by mint.
    pub closed spec fn p0_banks(&self) -> Map<Pubkey, Pubkey> {
        self.mint_to_p0_bank@
    }

    /// No key stands in either map twice.
    pub closed spec fn maps_wf(&self) -> bool {
        self.banks.wf() && self.mint_to_p0_bank.wf()
    }

    /// Each bank stands under its own address, and a mint leads to a bank that is there.
    pub open spec fn wf(&self) -> bool {
        &&& self.maps_wf()
        &&& forall|a: Pubkey| #[trigger]
            self.banks().contains_key(a) ==> self.banks()[a].address == a
        &&& forall|m: Pubkey| #[trigger]
            self.p0_banks().contains_key(m) ==> self.banks().contains_key(self.p0_banks()[m])
    }

    // ── Filling ──────────────────────────────────────────────────────────────

    /// An empty cache.
    pub fn new() -> (c: BanksCache)
        ensures
            c.wf(),
            c.banks() == Map::<Pubkey, BankWrapper>::empty(),
            c.p0_banks() == Map::<Pubkey, Pubkey>::empty(),
    {
        BanksCache { banks: KeyMap::new(), mint_to_p0_bank: KeyMap::new() }
    }

    /// Records a bank, in place of an earlier state of it. A bank of own liquidity becomes the
    /// bank of its mint.
    pub fn try_insert(
        &mut self,
        bank_address: Pubkey,
        bank: Bank,
        oracles: Vec<Pubkey>,
        account: Account,
    )
        requires
            old(self).wf(),
        ensures
            final(self).wf(),
            final(self).banks() == old(self).banks().insert(
                bank_address,
                (BankWrapper { address: bank_address, bank, oracles, account }),
            ),
            final(self).p0_banks() == if is_p0(bank) {
                old(self).p0_banks().insert(bank.mint, bank_address)
            } else {
                old(self).p0_banks()
            },
    {
        self.banks.insert(
            bank_address,
            BankWrapper { address: bank_address, bank, oracles, account },
        );
        let tag = bank.config.asset_tag;
        if tag == ASSET_TAG_DEFAULT || tag == ASSET_TAG_SOL || tag == ASSET_TAG_STAKED {
            self.mint_to_p0_bank.insert(bank.mint, bank_address);
        }
        proof {
            assert forall|a: Pubkey| #[trigger] self.banks().contains_key(a) implies self.banks()[a].address
                == a by {
                if a != bank_address {
                    assert(old(self).banks().contains_key(a));
                }
            }
            assert forall|m: Pubkey| #[trigger] self.p0_banks().contains_key(
                m,
            ) implies self.banks().contains_key(self.p0_banks()[m]) by {
                if !(is_p0(bank) && m == bank.mint) {
                    assert(old(self).p0_banks().contains_key(m));
                }
            }
        }
    }

    // ── Lookups ──────────────────────────────────────────────────────────────

    /// The bank with an address.
    pub fn try_get_bank(&self, address: &Pubkey) -> (bank: Result<&BankWrapper, BanksError>)
        requires
            self.wf(),
        ensures
            match bank {
                Ok(b) => self.banks().contains_key(*address) && *b == self.banks()[*address],
                Err(e) => !self.banks().contains_key(*address) && e == BanksError::BankNotFound(
                    *address,
                ),
            },
    {
        match self.banks.get(address) {
            Some(bank) => Ok(bank),
            None => Err(BanksError::BankNotFound(*address)),
        }
    }

    /// The bank of own liquidity for a mint.
    pub fn try_get_account_for_mint(&self, mint_address: &Pubkey) -> (bank: Result<
        Pubkey,
        BanksError,
    >)
        requires
            self.wf(),
        ensures
            match bank {
                Ok(b) => self.p0_banks().contains_key(*mint_address) && b
                    == self.p0_banks()[*mint_address],
                Err(e) => !self.p0_banks().contains_key(*mint_address) && e
                    == BanksError::MintNotFound(*mint_address),
            },
    {
        match self.mint_to_p0_bank.get(mint_address) {
            Some(bank) => Ok(*bank),
            None => Err(BanksError::MintNotFound(*mint_address)),
        }
    }

    /// How many banks are known.
    pub fn len(&self) -> (n: usize)
        requires
            self.wf(),
        ensures
            n == self.banks().len(),
    {
        self.banks.len()
    }

    // ── Collections ──────────────────────────────────────────────────────────

    /// The keys of a kind, each once.
    fn pick_keys(&self, kind: KeyKind) -> (keys: Vec<Pubkey>)
        requires
            self.wf(),
        ensures
            keys@.no_duplicates(),
            keys@.to_set() == keys_held(self.banks(), kind),
    {
        let mut found = KeySet::new();
        let n: usize = self.banks.len();
        let ghost pairs = self.banks.pairs();
        let mut i: usize = 0;
        while i < n
            invariant
                found.wf(),
                i <= n,
                n == pairs.len(),
                pairs == self.banks.pairs(),
                forall|k: Pubkey| #[trigger]
                    found@.contains(k) <==> exists|j: int|
                        0 <= j < i && key_of(kind, (#[trigger] pairs[j]).1.bank) == Some(k),
            decreases n - i,
        {
            let ghost before = found@;
            let (_, wrapper) = self.banks.entry(i);
            match pick(kind, &wrapper.bank) {
                Some(key) => found.insert(key),
                None => {},
            }
            assert forall|k: Pubkey| #[trigger] found@.contains(k) <==> exists|j: int|
                0 <= j < i + 1 && key_of(kind, (#[trigger] pairs[j]).1.bank) == Some(k) by {
                if found@.contains(k) && !before.contains(k) {
                    assert(key_of(kind, pairs[i as int].1.bank) == Some(k));
                }
            }
            i += 1;
        }
        proof {
            self.banks.lemma_pairs();
            assert forall|k: Pubkey| found@.contains(k) <==> keys_held(
                self.banks(),
                kind,
            ).contains(k) by {
                if found@.contains(k) {
                    let j = choose|j: int|
                        0 <= j < n && key_of(kind, (#[trigger] pairs[j]).1.bank) == Some(k);
                    assert(self.banks().contains_key(pairs[j].0));
                }
                if keys_held(self.banks(), kind).contains(k) {
                    let a = choose|a: Pubkey| #[trigger]
                        self.banks().contains_key(a) && key_of(kind, self.banks()[a].bank) == Some(
                            k,
                        );
                    let j = choose|j: int| 0 <= j < pairs.len() && (#[trigger] pairs[j]).0 == a;
                    assert(key_of(kind, pairs[j].1.bank) == Some(k));
                }
            }
            assert(found@ =~= keys_held(self.banks(), kind));
        }
        found.to_vec()
    }

    /// The oracles of all banks.
    pub fn get_oracles(&self) -> (keys: Vec<Pubkey>)
        requires
            self.wf(),
        ensures
            keys@.no_duplicates(),
            keys@.to_set() == all_oracles(self.banks()),
    {
        let mut found = KeySet::new();
        let n: usize = self.banks.len();
        let ghost pairs = self.banks.pairs();
        let mut i: usize = 0;
        while i < n
            invariant
                found.wf(),
                i <= n,
                n == pairs.len(),
                pairs == self.banks.pairs(),
                forall|k: Pubkey| #[trigger]
                    found@.contains(k) <==> exists|j: int|
                        0 <= j < i && (#[trigger] pairs[j]).1.oracles@.contains(k),
            decreases n - i,
        {
            let ghost before = found@;
            let (_, wrapper) = self.banks.entry(i);
            found.insert_all(&wrapper.oracles);
            assert forall|k: Pubkey| #[trigger] found@.contains(k) <==> exists|j: int|
                0 <= j < i + 1 && (#[trigger] pairs[j]).1.oracles@.contains(k) by {
                if found@.contains(k) && !before.contains(k) {
                    assert(pairs[i as int].1.oracles@.contains(k));
                }
            }
            i += 1;
        }
        proof {
            self.banks.lemma_pairs();
            assert forall|k: Pubkey| found@.contains(k) <==> all_oracles(self.banks()).contains(
                k,
            ) by {
                if found@.contains(k) {
                    let j = choose|j: int|
                        0 <= j < n && (#[trigger] pairs[j]).1.oracles@.contains(k);
                    assert(self.banks().contains_key(pairs[j].0));
                }
                if all_oracles(self.banks()).contains(k) {
                    let a = choose|a: Pubkey| #[trigger]
                        self.banks().contains_key(a) && self.banks()[a].oracles@.contains(k);
                    let j = choose|j: int| 0 <= j < pairs.len() && (#[trigger] pairs[j]).0 == a;
                    assert(pairs[j].1.oracles@.contains(k));
                }
            }
            assert(found@ =~= all_oracles(self.banks()));
        }
        found.to_vec()
    }

    /// The banks that an oracle prices.
    pub fn get_banks_for_oracle(&self, oracle: &Pubkey) -> (addresses: Vec<Pubkey>)
        requires
            self.wf(),
        ensures
            addresses@.no_duplicates(),
            addresses@.to_set() == banks_of_oracle(self.banks(), *oracle),
    {
        let mut found = KeySet::new();
        let n: usize = self.banks.len();
        let ghost pairs = self.banks.pairs();
        let mut i: usize = 0;
        while i < n
            invariant
                found.wf(),
                i <= n,
                n == pairs.len(),
                pairs == self.banks.pairs(),
                forall|a: Pubkey| #[trigger]
                    found@.contains(a) <==> exists|j: int|
                        0 <= j < i && (#[trigger] pairs[j]).0 == a && pairs[j].1.oracles@.contains(
                            *oracle,
                        ),
            decreases n - i,
        {
            let ghost before = found@;
            let (address, wrapper) = self.banks.entry(i);
            if holds(&wrapper.oracles, oracle) {
                found.insert(*address);
            }
            assert forall|a: Pubkey| #[trigger] found@.contains(a) <==> exists|j: int|
                0 <= j < i + 1 && (#[trigger] pairs[j]).0 == a && pairs[j].1.oracles@.contains(
                    *oracle,
                ) by {
                if found@.contains(a) && !before.contains(a) {
                    assert(pairs[i as int].0 == a);
                }
            }
            i += 1;
        }
        proof {
            self.banks.lemma_pairs();
            assert forall|a: Pubkey| found@.contains(a) <==> banks_of_oracle(
                self.banks(),
                *oracle,
            ).contains(a) by {
                if banks_of_oracle(self.banks(), *oracle).contains(a) {
                    let j = choose|j: int| 0 <= j < pairs.len() && (#[trigger] pairs[j]).0 == a;
                    assert(pairs[j].1.oracles@.contains(*oracle));
                }
            }
            assert(found@ =~= banks_of_oracle(self.banks(), *oracle));
        }
        found.to_vec()
    }

    /// For each feed of a bank that Switchboard prices directly, the banks that use it. Several
    /// banks can share a feed.
    pub fn get_swb_oracle_to_bank_map(&self) -> (map: KeyMap<Vec<Pubkey>>)
        requires
            self.wf(),
        ensures
            map.wf(),
            map@.dom() == keys_held(self.banks(), KeyKind::DirectSwbFeed),
            forall|feed: Pubkey| #[trigger]
                map@.contains_key(feed) ==> map@[feed]@.no_duplicates() && map@[feed]@.to_set()
                    == holders(self.banks(), KeyKind::DirectSwbFeed, feed),
    {
        let kind = KeyKind::DirectSwbFeed;
        let mut map: KeyMap<Vec<Pubkey>> = KeyMap::new();
        let n: usize = self.banks.len();
        let ghost pairs = self.banks.pairs();
        proof {
            self.banks.lemma_pairs();
        }
        let mut i: usize = 0;
        while i < n
            invariant
                map.wf(),
                i <= n,
                n == pairs.len(),
                pairs == self.banks.pairs(),
                distinct_keys(pairs),
                kind == KeyKind::DirectSwbFeed,
                forall|k: Pubkey| #[trigger]
                    map@.contains_key(k) <==> exists|j: int|
                        0 <= j < i && key_of(kind, (#[trigger] pairs[j]).1.bank) == Some(k),
                forall|k: Pubkey| #[trigger]
                    map@.contains_key(k) ==> map@[k]@.no_duplicates() && forall|a: Pubkey|
                        #[trigger] map@[k]@.contains(a) <==> exists|j: int|
                            0 <= j < i && (#[trigger] pairs[j]).0 == a && key_of(
                                kind,
                                pairs[j].1.bank,
                            ) == Some(k),
            decreases n - i,
        {
            let ghost before = map@;
            let (address, wrapper) = self.banks.entry(i);
            let picked = pick(kind, &wrapper.bank);
            if let Some(feed) = picked {
                let mut list = match map.take(&feed) {
                    Some(list) => list,
                    None => Vec::new(),
                };
                let ghost old_list = list@;
                list.push(*address);
                map.insert(feed, list);
                proof {
                    assert(list@ =~= old_list.push(*address));
                    assert(list@[old_list.len() as int] == *address);
                    assert forall|a: Pubkey| #[trigger] list@.contains(a) <==> old_list.contains(a)
                        || a == *address by {
                        if old_list.contains(a) {
                            let x = choose|x: int| 0 <= x < old_list.len() && old_list[x] == a;
                            assert(list@[x] == a);
                        }
                    }
                    if old_list.contains(*address) {
                        let j = choose|j: int|
                            0 <= j < i && (#[trigger] pairs[j]).0 == *address && key_of(
                                kind,
                                pairs[j].1.bank,
                            ) == Some(feed);
                        assert(pairs[j].0 != pairs[i as int].0);
                    }
                    assert(list@.no_duplicates());
                }
            }
            proof {
                assert forall|k: Pubkey| #[trigger] map@.contains_key(k) <==> exists|j: int|
                    0 <= j < i + 1 && key_of(kind, (#[trigger] pairs[j]).1.bank) == Some(k) by {
                    if map@.contains_key(k) && !before.contains_key(k) {
                        assert(key_of(kind, pairs[i as int].1.bank) == Some(k));
                    }
                }
                assert forall|k: Pubkey| #[trigger] map@.contains_key(k) implies map@[k]@.no_duplicates()
                    && forall|a: Pubkey| #[trigger]
                    map@[k]@.contains(a) <==> exists|j: int|
                        0 <= j < i + 1 && (#[trigger] pairs[j]).0 == a && key_of(
                            kind,
                            pairs[j].1.bank,
                        ) == Some(k) by {
                    assert forall|a: Pubkey| #[trigger]
                        map@[k]@.contains(a) <==> exists|j: int|
                            0 <= j < i + 1 && (#[trigger] pairs[j]).0 == a && key_of(
                                kind,
                                pairs[j].1.bank,
                            ) == Some(k) by {
                        if map@[k]@.contains(a) {
                            if !(before.contains_key(k) && before[k]@.contains(a)) {
                                assert(pairs[i as int].0 == a && key_of(
                                    kind,
                                    pairs[i as int].1.bank,
                                ) == Some(k));
                            }
                        }
                        if exists|j: int|
                            0 <= j < i + 1 && (#[trigger] pairs[j]).0 == a && key_of(
                                kind,
                                pairs[j].1.bank,
                            ) == Some(k) {
                            let j = choose|j: int|
                                0 <= j < i + 1 && (#[trigger] pairs[j]).0 == a && key_of(
                                    kind,
                                    pairs[j].1.bank,
                                ) == Some(k);
                            if j < i {
                                assert(before.contains_key(k));
                                assert(before[k]@.contains(a));
                            }
                        }
                    }
                }
            }
            i += 1;
        }
        proof {
            assert forall|k: Pubkey| map@.dom().contains(k) <==> keys_held(
                self.banks(),
                kind,
            ).contains(k) by {
                if map@.contains_key(k) {
                    let j = choose|j: int|
                        0 <= j < n && key_of(kind, (#[trigger] pairs[j]).1.bank) == Some(k);
                    assert(self.banks().contains_key(pairs[j].0));
                }
                if keys_held(self.banks(), kind).contains(k) {
                    let a = choose|a: Pubkey| #[trigger]
                        self.banks().contains_key(a) && key_of(kind, self.banks()[a].bank) == Some(
                            k,
                        );
                    let j = choose|j: int| 0 <= j < pairs.len() && (#[trigger] pairs[j]).0 == a;
                    assert(key_of(kind, pairs[j].1.bank) == Some(k));
                    assert(map@.contains_key(k));
                }
            }
            assert(map@.dom() =~= keys_held(self.banks(), kind));
            assert forall|feed: Pubkey| #[trigger] map@.contains_key(
                feed,
            ) implies map@[feed]@.to_set() == holders(self.banks(), kind, feed) by {
                assert forall|a: Pubkey| map@[feed]@.contains(a) <==> holders(
                    self.banks(),
                    kind,
                    feed,
                ).contains(a) by {
                    if holders(self.banks(), kind, feed).contains(a) {
                        let j = choose|j: int|
                            0 <= j < pairs.len() && (#[trigger] pairs[j]).0 == a;
                        assert(key_of(kind, pairs[j].1.bank) == Some(feed));
                    }
                }
                assert(map@[feed]@.to_set() =~= holders(self.banks(), kind, feed));
            }
        }
        map
    }

    /// The feeds of all banks that Switchboard prices, directly or through an integration.
    pub fn get_swb_oracles(&self) -> (keys: Vec<Pubkey>)
        requires
            self.wf(),
        ensures
            keys@.no_duplicates(),
            keys@.to_set() == keys_held(self.banks(), KeyKind::SwbFeed),
    {
        self.pick_keys(KeyKind::SwbFeed)
    }

    /// The reserves of the Kamino banks.
    pub fn get_kamino_reserves(&self) -> (keys: Vec<Pubkey>)
        requires
            self.wf(),
        ensures
            keys@.no_duplicates(),
            keys@.to_set() == keys_held(self.banks(), KeyKind::KaminoReserve),
    {
        self.pick_keys(KeyKind::KaminoReserve)
    }

    /// The user accounts of the Drift banks.
    pub fn get_drift_users(&self) -> (keys: Vec<Pubkey>)
        requires
            self.wf(),
        ensures
            keys@.no_duplicates(),
            keys@.to_set() == keys_held(self.banks(), KeyKind::DriftUser),
    {
        self.pick_keys(KeyKind::DriftUser)
    }

    /// The lending states of the Juplend banks.
    pub fn get_juplend_lending_states(&self) -> (keys: Vec<Pubkey>)
        requires
            self.wf(),
        ensures
            keys@.no_duplicates(),
            keys@.to_set() == keys_held(self.banks(), KeyKind::JuplendLendingState),
    {
        self.pick_keys(KeyKind::JuplendLendingState)
    }

    /// The mints of all banks.
    pub fn get_mints(&self) -> (keys: Vec<Pubkey>)
        requires
            self.wf(),
        ensures
            keys@.no_duplicates(),
            keys@.to_set() == keys_held(self.banks(), KeyKind::Mint),
    {
        self.pick_keys(KeyKind::Mint)
    }
}

// ── Laws ─────────────────────────────────────────────────────────────────────

/// A mint that is found leads to a bank that is found.
pub proof fn law_mint_leads_to_a_bank(cache: &BanksCache, mint: Pubkey)
    requires
        cache.wf(),
        cache.p0_banks().contains_key(mint),
    ensures
        cache.banks().contains_key(cache.p0_banks()[mint]),
        cache.banks()[cache.p0_banks()[mint]].address == cache.p0_banks()[mint],
{
}

/// The banks of a feed in the feed map are banks that the cache holds, each of which has the
/// feed among its Switchboard feeds.
pub proof fn law_feed_holders_are_swb_banks(
    banks: Map<Pubkey, BankWrapper>,
    feed: Pubkey,
    address: Pubkey,
)
    requires
        holders(banks, KeyKind::DirectSwbFeed, feed).contains(address),
    ensures
        banks.contains_key(address),
        keys_held(banks, KeyKind::SwbFeed).contains(feed),
{
    assert(key_of(KeyKind::SwbFeed, banks[address].bank) == Some(feed));
}

/// The bank holds the key as its key of the kind.
pub open spec fn has_key(kind: KeyKind, bank: Bank, k: Pubkey) -> bool {
    match kind {
        KeyKind::SwbFeed => k == bank.config.oracle_keys@[0] && (bank.config.oracle_setup
            == OracleSetup::SwitchboardPull || bank.config.oracle_setup
            == OracleSetup::KaminoSwitchboardPull || bank.config.oracle_setup
            == OracleSetup::DriftSwitchboardPull || bank.config.oracle_setup
            == OracleSetup::JuplendSwitchboardPull),
        KeyKind::DirectSwbFeed => k == bank.config.oracle_keys@[0] && bank.config.oracle_setup
            == OracleSetup::SwitchboardPull,
        KeyKind::KaminoReserve => k == bank.integration_acc_1 && bank.config.asset_tag == 3,
        KeyKind::DriftUser => k == bank.integration_acc_2 && bank.config.asset_tag == 4,
        KeyKind::JuplendLendingState => k == bank.integration_acc_1 && bank.config.asset_tag == 6,
        KeyKind::Mint => k == bank.mint,
    }
}

/// The keys of a kind are those that a bank holds as such, and the banks of a key those that hold
/// it.
pub proof fn law_keys_of_each_kind(banks: Map<Pubkey, BankWrapper>, kind: KeyKind, k: Pubkey)
    ensures
        keys_held(banks, kind).contains(k) <==> exists|a: Pubkey| #[trigger]
            banks.contains_key(a) && has_key(kind, banks[a].bank, k),
        forall|a: Pubkey| #[trigger]
            holders(banks, kind, k).contains(a) <==> banks.contains_key(a) && has_key(
                kind,
                banks[a].bank,
                k,
            ),
{
    if keys_held(banks, kind).contains(k) {
        let a = choose|a: Pubkey| #[trigger]
            banks.contains_key(a) && key_of(kind, banks[a].bank) == Some(k);
        assert(has_key(kind, banks[a].bank, k));
    }
    if exists|a: Pubkey| #[trigger] banks.contains_key(a) && has_key(kind, banks[a].bank, k) {
        let a = choose|a: Pubkey| #[trigger]
            banks.contains_key(a) && has_key(kind, banks[a].bank, k);
        assert(key_of(kind, banks[a].bank) == Some(k));
    }
}

/// A bank of own liquidity is one with the tag of an ordinary asset, of SOL or of a staked asset.
pub proof fn law_own_liquidity_is_told_by_the_tag(bank: Bank)
    ensures
        is_p0(bank) <==> bank.config.asset_tag <= 2,
{
}

/// A recorded bank is found under its address, as it was handed in, and all others as before. It
/// becomes the bank of its mint exactly where it holds its own liquidity.
pub proof fn law_a_recorded_bank_is_found(
    cache: &mut BanksCache,
    bank_address: Pubkey,
    bank: Bank,
    oracles: Vec<Pubkey>,
    account: Account,
    other: Pubkey,
)
    requires
        call_ensures(BanksCache::try_insert, (cache, bank_address, bank, oracles, account), ()),
    ensures
        final(cache).banks().contains_key(bank_address),
        final(cache).banks()[bank_address].address == bank_address,
        final(cache).banks()[bank_address].bank == bank,
        final(cache).banks()[bank_address].oracles == oracles,
        final(cache).banks()[bank_address].account == account,
        other != bank_address ==> final(cache).banks().get(other) == old(cache).banks().get(other),
        final(cache).p0_banks().get(other) == if bank.config.asset_tag <= 2 && other == bank.mint {
            Some(bank_address)
        } else {
            old(cache).p0_banks().get(other)
        },
{
}

/// A lookup finds what was recorded under the address, or under the mint, and only that.
pub proof fn law_lookups_find_what_was_recorded(
    cache: &BanksCache,
    key: &Pubkey,
    bank: Result<&BankWrapper, BanksError>,
    address: Result<Pubkey, BanksError>,
)
    requires
        call_ensures(BanksCache::try_get_bank, (cache, key), bank),
        call_ensures(BanksCache::try_get_account_for_mint, (cache, key), address),
    ensures
        match bank {
            Ok(b) => cache.banks().get(*key) == Some(*b),
            Err(e) => cache.banks().get(*key) is None && e == BanksError::BankNotFound(*key),
        },
        match address {
            Ok(a) => cache.p0_banks().get(*key) == Some(a),
            Err(e) => cache.p0_banks().get(*key) is None && e == BanksError::MintNotFound(*key),
        },
{
}

/// The oracles are those of all banks, and the banks of an oracle those that have it.
pub proof fn law_oracles_lead_to_their_banks(
    cache: &BanksCache,
    oracle: &Pubkey,
    oracles: Vec<Pubkey>,
    addresses: Vec<Pubkey>,
    a: Pubkey,
)
    requires
        call_ensures(BanksCache::get_oracles, (cache,), oracles),
        call_ensures(BanksCache::get_banks_for_oracle, (cache, oracle), addresses),
    ensures
        oracles@.no_duplicates(),
        addresses@.no_duplicates(),
        addresses@.contains(a) <==> cache.banks().contains_key(a)
            && cache.banks()[a].oracles@.contains(*oracle),
        oracles@.contains(*oracle) <==> exists|b: Pubkey| #[trigger]
            cache.banks().contains_key(b) && cache.banks()[b].oracles@.contains(*oracle),
{
    assert(addresses@.to_set().contains(a) <==> addresses@.contains(a));
    assert(oracles@.to_set().contains(*oracle) <==> oracles@.contains(*oracle));
}

/// Each collection of keys is that of its kind, each key once.
pub proof fn law_collections_hold_their_kind(
    cache: &BanksCache,
    swb: Vec<Pubkey>,
    kamino: Vec<Pubkey>,
    drift: Vec<Pubkey>,
    juplend: Vec<Pubkey>,
    mints: Vec<Pubkey>,
    map: KeyMap<Vec<Pubkey>>,
    k: Pubkey,
)
    requires
        call_ensures(BanksCache::get_swb_oracles, (cache,), swb),
        call_ensures(BanksCache::get_kamino_reserves, (cache,), kamino),
        call_ensures(BanksCache::get_drift_users, (cache,), drift),
        call_ensures(BanksCache::get_juplend_lending_states, (cache,), juplend),
        call_ensures(BanksCache::get_mints, (cache,), mints),
        call_ensures(BanksCache::get_swb_oracle_to_bank_map, (cache,), map),
    ensures
        swb@.no_duplicates() && swb@.to_set() == keys_held(cache.banks(), KeyKind::SwbFeed),
        kamino@.no_duplicates() && kamino@.to_set() == keys_held(
            cache.banks(),
            KeyKind::KaminoReserve,
        ),
        drift@.no_duplicates() && drift@.to_set() == keys_held(cache.banks(), KeyKind::DriftUser),
        juplend@.no_duplicates() && juplend@.to_set() == keys_held(
            cache.banks(),
            KeyKind::JuplendLendingState,
        ),
        mints@.no_duplicates() && mints@.to_set() == keys_held(cache.banks(), KeyKind::Mint),
        map@.contains_key(k) <==> keys_held(cache.banks(), KeyKind::DirectSwbFeed).contains(k),
        map@.contains_key(k) ==> map@[k]@.no_duplicates() && map@[k]@.to_set() == holders(
            cache.banks(),
            KeyKind::DirectSwbFeed,
            k,
        ),
{
    assert(map@.dom().contains(k) <==> map@.contains_key(k));
}

/// An error names what was not found.
pub proof fn law_errors_name_what_was_not_found(key: Pubkey)
    ensures
        contains_text(BanksError::BankNotFound(key).text(), base58_text(key)),
        contains_text(BanksError::MintNotFound(key).text(), base58_text(key)),
{
    let name = base58_text(key);
    let bank = "Failed to find the Bank "@;
    let mint = "Failed to find Bank for the Mint "@;
    let rest = " in Cache!"@;
    lemma_contains_itself(name);
    lemma_part_contains(bank, name, rest, name);
    lemma_part_contains(mint, name, rest, name);
}

}
