//! The addresses that belong in the lookup tables, by group of banks.
//!
//! Banks fall into groups by the kind of asset they hold, and one liquidation touches banks of
//! one group only:
//! - the first group holds the ordinary banks and SOL,
//! - the second holds SOL and the staked assets,
//! - the third holds the banks of the integrations.

use vstd::prelude::*;

use crate::cache::banks::{
    Bank, ASSET_TAG_DEFAULT, ASSET_TAG_KAMINO, ASSET_TAG_SOL, ASSET_TAG_STAKED,
};
use crate::keyed::KeySet;
use crate::pubkey::{
    keys_in_use, law_keys_in_use_are_kept_in_order, push_keys_in_use, token_account, Pubkey,
};

verus! {

/// The SPL token program.
pub const TOKEN_PROGRAM: [u8; 32] = [
    6, 221, 246, 225, 215, 101, 161, 147, 217, 203, 225, 70, 206, 235, 121, 172, 28, 180, 133, 237,
    95, 91, 55, 145, 58, 140, 245, 133, 126, 255, 0, 169,
];

/// The token program with extensions.
pub const TOKEN_2022_PROGRAM: [u8; 32] = [
    6, 221, 246, 225, 238, 117, 143, 222, 24, 66, 93, 188, 228, 108, 205, 218, 182, 26, 252, 77,
    131, 185, 13, 39, 254, 189, 249, 40, 216, 161, 139, 252,
];

/// The system program.
pub const SYSTEM_PROGRAM: [u8; 32] = [
    0, 0, 0, 0, 0, 0, 0, 0, 0, 0, 0, 0, 0, 0, 0, 0, 0, 0, 0, 0, 0, 0, 0, 0, 0, 0, 0, 0, 0, 0, 0, 0,
];

/// The account through which a program reads the instructions of its transaction.
pub const INSTRUCTIONS_SYSVAR: [u8; 32] = [
    6, 167, 213, 23, 24, 123, 209, 102, 53, 218, 212, 4, 85, 253, 194, 192, 193, 36, 198, 143, 33,
    86, 117, 165, 219, 186, 203, 95, 8, 0, 0, 0,
];

/// How many mint accounts are fetched at once.
pub const MINT_CHUNK: usize = 100;

/// Where the address of the marginfi group stands in a bank account.
pub const BANK_GROUP_PK_OFFSET: usize = 41;

/// A group of banks.
#[derive(Clone, Copy, Debug, PartialEq, Eq, Structural)]
pub enum Group {
    /// The ordinary banks and SOL.
    Default,
    /// SOL and the staked assets.
    Staked,
    /// The banks of the integrations.
    Integrations,
}

/// A bank account of the marginfi group: its address, the authority over its liquidity vault,
/// and the bank, where the account could be decoded.
#[derive(Debug)]
pub struct BankEntry {
    pub address: Pubkey,
    pub vault_authority: Pubkey,
    pub bank: Option<Bank>,
}

/// The addresses and mints of a group, and how many banks it has.
#[derive(Debug)]
pub struct LutGroup {
    pub addresses: KeySet,
    pub mints: KeySet,
    pub banks: usize,
}

// ── Models ───────────────────────────────────────────────────────────────────

/// A bank with this asset tag belongs to the group.
pub open spec fn in_group(group: Group, asset_tag: u8) -> bool {
    match group {
        Group::Default => asset_tag == ASSET_TAG_DEFAULT || asset_tag == ASSET_TAG_SOL,
        Group::Staked => asset_tag == ASSET_TAG_SOL || asset_tag == ASSET_TAG_STAKED,
        Group::Integrations => asset_tag >= ASSET_TAG_KAMINO,
    }
}

/// The entry's bank was decoded and belongs to the group.
pub open spec fn belongs(group: Group, entry: BankEntry) -> bool {
    match entry.bank {
        Some(bank) => in_group(group, bank.config.asset_tag),
        None => false,
    }
}

/// The addresses that a liquidation with this bank may use.
pub open spec fn bank_addresses(entry: BankEntry, bank: Bank) -> Seq<Pubkey> {
    let own = seq![
        entry.address,
        bank.liquidity_vault,
        bank.insurance_vault,
        bank.fee_vault,
        bank.mint,
        entry.vault_authority,
    ] + keys_in_use(bank.config.oracle_keys@);
    if in_group(Group::Integrations, bank.config.asset_tag) {
        own + keys_in_use(
            seq![bank.integration_acc_1, bank.integration_acc_2, bank.integration_acc_3],
        )
    } else {
        own
    }
}

/// The addresses of a group: the common ones and those of its banks.
pub open spec fn group_addresses(
    common: Seq<Pubkey>,
    entries: Seq<BankEntry>,
    group: Group,
) -> Set<Pubkey> {
    Set::new(
        |k: Pubkey|
            common.contains(k) || exists|i: int|
                0 <= i < entries.len() && belongs(group, #[trigger] entries[i]) && bank_addresses(
                    entries[i],
                    entries[i].bank->0,
                ).contains(k),
    )
}

/// The mints of a group's banks.
pub open spec fn group_mints(entries: Seq<BankEntry>, group: Group) -> Set<Pubkey> {
    Set::new(
        |m: Pubkey|
            exists|i: int|
                0 <= i < entries.len() && belongs(group, #[trigger] entries[i])
                    && entries[i].bank->0.mint == m,
    )
}

/// The banks of a group.
pub open spec fn group_banks(entries: Seq<BankEntry>, group: Group) -> Seq<BankEntry> {
    entries.filter(|e: BankEntry| belongs(group, e))
}

/// The signer's token account of the `i`-th mint, where the mint belongs to the group and its
/// account, with the token program as its owner, was found.
pub open spec fn token_account_at(
    signer: Pubkey,
    group_mints: Set<Pubkey>,
    mints: Seq<Pubkey>,
    owners: Seq<Option<Pubkey>>,
    i: int,
) -> Option<Option<Pubkey>> {
    if 0 <= i < mints.len() && i < owners.len() && group_mints.contains(mints[i]) {
        match owners[i] {
            Some(owner) => Some(token_account(signer, mints[i], owner)),
            None => None,
        }
    } else {
        None
    }
}

/// The signer's token accounts of a group's mints.
pub open spec fn token_accounts(
    signer: Pubkey,
    group_mints: Set<Pubkey>,
    mints: Seq<Pubkey>,
    owners: Seq<Option<Pubkey>>,
) -> Set<Pubkey> {
    Set::new(
        |k: Pubkey|
            exists|i: int| #[trigger]
                token_account_at(signer, group_mints, mints, owners, i) == Some(Some(k)),
    )
}

/// The accounts that every liquidation uses.
pub open spec fn common_accounts(
    signer: Pubkey,
    liquidator_account: Pubkey,
    marginfi_group: Pubkey,
    marginfi_program: Pubkey,
    global_fee_state: Pubkey,
    global_fee_wallet: Pubkey,
) -> Seq<Pubkey> {
    seq![
        signer,
        liquidator_account,
        marginfi_group,
        marginfi_program,
        global_fee_state,
        global_fee_wallet,
        Pubkey { bytes: TOKEN_PROGRAM },
        Pubkey { bytes: TOKEN_2022_PROGRAM },
        Pubkey { bytes: SYSTEM_PROGRAM },
        Pubkey { bytes: INSTRUCTIONS_SYSVAR },
    ]
}

// ── Functions ────────────────────────────────────────────────────────────────

/// The accounts that every liquidation uses: those of the liquidator and of the marginfi group,
/// and the programs.
pub fn common_addresses(
    signer: Pubkey,
    liquidator_account: Pubkey,
    marginfi_group: Pubkey,
    marginfi_program: Pubkey,
    global_fee_state: Pubkey,
    global_fee_wallet: Pubkey,
) -> (common: Vec<Pubkey>)
    ensures
        common@ == common_accounts(
            signer,
            liquidator_account,
            marginfi_group,
            marginfi_program,
            global_fee_state,
            global_fee_wallet,
        ),
{
    vec![
        signer,
        liquidator_account,
        marginfi_group,
        marginfi_program,
        global_fee_state,
        global_fee_wallet,
        Pubkey { bytes: TOKEN_PROGRAM },
        Pubkey { bytes: TOKEN_2022_PROGRAM },
        Pubkey { bytes: SYSTEM_PROGRAM },
        Pubkey { bytes: INSTRUCTIONS_SYSVAR },
    ]
}

/// A condition on the data of an account: these bytes stand at this place.
#[derive(Debug)]
pub struct AccountFilter {
    pub offset: usize,
    pub bytes: Vec<u8>,
}

/// The conditions on the accounts of a program by which the banks of a marginfi group are found:
/// they start with the discriminator of banks and name the group.
pub fn bank_filters(discriminator: Vec<u8>, marginfi_group: &Pubkey) -> (filters: Vec<
    AccountFilter,
>)
    ensures
        filters@.len() == 2,
        filters@[0] == (AccountFilter { offset: 0, bytes: discriminator }),
        filters@[1].offset == BANK_GROUP_PK_OFFSET,
        filters@[1].bytes@ == marginfi_group.bytes@,
{
    vec![
        AccountFilter { offset: 0, bytes: discriminator },
        AccountFilter { offset: BANK_GROUP_PK_OFFSET, bytes: marginfi_group.to_vec() },
    ]
}

/// Whether a bank with this asset tag belongs to the group.
pub fn tag_in_group(group: Group, asset_tag: u8) -> (r: bool)
    ensures
        r == in_group(group, asset_tag),
{
    match group {
        Group::Default => asset_tag == ASSET_TAG_DEFAULT || asset_tag == ASSET_TAG_SOL,
        Group::Staked => asset_tag == ASSET_TAG_SOL || asset_tag == ASSET_TAG_STAKED,
        Group::Integrations => asset_tag >= ASSET_TAG_KAMINO,
    }
}

fn addresses_of(entry: &BankEntry, bank: &Bank) -> (addresses: Vec<Pubkey>)
    ensures
        addresses@ == bank_addresses(*entry, *bank),
{
    let mut addresses = vec![
        entry.address,
        bank.liquidity_vault,
        bank.insurance_vault,
        bank.fee_vault,
        bank.mint,
        entry.vault_authority,
    ];
    push_keys_in_use(&mut addresses, &bank.config.oracle_keys);
    if tag_in_group(Group::Integrations, bank.config.asset_tag) {
        let integration = [bank.integration_acc_1, bank.integration_acc_2, bank.integration_acc_3];
        push_keys_in_use(&mut addresses, &integration);
        assert(integration@ =~= seq![
            bank.integration_acc_1,
            bank.integration_acc_2,
            bank.integration_acc_3,
        ]);
    }
    addresses
}

impl LutGroup {
    /// No key stands in either set twice.
    pub open spec fn wf(&self) -> bool {
        self.addresses.wf() && self.mints.wf()
    }

    /// Collects a group from the bank accounts. Those that could not be decoded are left out.
    pub fn collect(common: &Vec<Pubkey>, entries: &Vec<BankEntry>, group: Group) -> (g: LutGroup)
        ensures
            g.wf(),
            g.addresses@ == group_addresses(common@, entries@, group),
            g.mints@ == group_mints(entries@, group),
            g.banks == group_banks(entries@, group).len(),
    {
        let mut addresses = KeySet::new();
        addresses.insert_all(common);
        let mut mints = KeySet::new();
        let mut banks: usize = 0;
        let mut i: usize = 0;
        let ghost member = |e: BankEntry| belongs(group, e);
        proof {
            assert(addresses@ =~= group_addresses(common@, entries@.take(0), group));
            assert(mints@ =~= group_mints(entries@.take(0), group));
            assert(group_banks(entries@.take(0), group) =~= Seq::empty());
        }
        while i < entries.len()
            invariant
                addresses.wf(),
                mints.wf(),
                i <= entries@.len(),
                banks <= i,
                member == (|e: BankEntry| belongs(group, e)),
                addresses@ == group_addresses(common@, entries@.take(i as int), group),
                mints@ == group_mints(entries@.take(i as int), group),
                banks == group_banks(entries@.take(i as int), group).len(),
            decreases entries@.len() - i,
        {
            let ghost done = entries@.take(i as int);
            let ghost next = entries@.take(i + 1);
            let ghost addresses_before = addresses@;
            let ghost mints_before = mints@;
            proof {
                assert(next =~= done.push(entries@[i as int]));
                done.lemma_filter_push(entries@[i as int], member);
            }
            if let Some(bank) = &entries[i].bank {
                if tag_in_group(group, bank.config.asset_tag) {
                    let per_bank = addresses_of(&entries[i], bank);
                    addresses.insert_all(&per_bank);
                    mints.insert(bank.mint);
                    banks += 1;
                }
            }
            proof {
                lemma_one_more_entry(common@, done, entries@[i as int], group);
                assert(addresses@ =~= group_addresses(common@, next, group));
                assert(mints@ =~= group_mints(next, group));
            }
            i += 1;
        }
        assert(entries@.take(i as int) =~= entries@);
        LutGroup { addresses, mints, banks }
    }

    /// Adds the signer's token accounts of the group's mints. `owners` holds, for each of
    /// `mints`, the owner of its account, which is the token program; `None` where the account
    /// was not found. Fails with the first mint for which there is no token account.
    pub fn add_token_accounts(
        &mut self,
        signer: &Pubkey,
        mints: &Vec<Pubkey>,
        owners: &Vec<Option<Pubkey>>,
    ) -> (r: Result<(), Pubkey>)
        requires
            old(self).wf(),
        ensures
            final(self).wf(),
            final(self).mints == old(self).mints,
            final(self).banks == old(self).banks,
            match r {
                Ok(()) => final(self).addresses@ == old(self).addresses@.union(
                    token_accounts(*signer, old(self).mints@, mints@, owners@),
                ) && forall|i: int| #[trigger]
                    token_account_at(*signer, old(self).mints@, mints@, owners@, i) != Some(
                        None::<Pubkey>,
                    ),
                Err(mint) => exists|i: int|
                    0 <= i < mints@.len() && mints@[i] == mint && #[trigger] token_account_at(
                        *signer,
                        old(self).mints@,
                        mints@,
                        owners@,
                        i,
                    ) == Some(None::<Pubkey>) && forall|j: int|
                        j < i ==> #[trigger] token_account_at(
                            *signer,
                            old(self).mints@,
                            mints@,
                            owners@,
                            j,
                        ) != Some(None::<Pubkey>),
            },
    {
        let ghost known = self.mints@;
        let ghost before = self.addresses@;
        let mut i: usize = 0;
        assert(self.addresses@ =~= before.union(
            token_accounts(*signer, known, mints@.take(0), owners@),
        ));
        while i < mints.len() && i < owners.len()
            invariant
                self.wf(),
                self.mints == old(self).mints,
                self.banks == old(self).banks,
                known == self.mints@,
                before == old(self).addresses@,
                i <= mints@.len(),
                i <= owners@.len(),
                self.addresses@ == before.union(
                    token_accounts(*signer, known, mints@.take(i as int), owners@),
                ),
                forall|j: int|
                    j < i ==> #[trigger] token_account_at(*signer, known, mints@, owners@, j)
                        != Some(None::<Pubkey>),
            decreases mints@.len() - i,
        {
            let ghost at = token_account_at(*signer, known, mints@, owners@, i as int);
            if let Some(owner) = &owners[i] {
                if self.mints.contains(&mints[i]) {
                    match signer.token_account(&mints[i], owner) {
                        Some(address) => {
                            self.addresses.insert(address);
                        },
                        None => {
                            assert(at == Some(None::<Pubkey>));
                            return Err(mints[i]);
                        },
                    }
                }
            }
            proof {
                lemma_one_more_mint(*signer, known, mints@, owners@, i as int);
                assert(self.addresses@ =~= before.union(
                    token_accounts(*signer, known, mints@.take(i + 1), owners@),
                ));
            }
            i += 1;
        }
        proof {
            assert forall|k: Pubkey| token_accounts(
                *signer,
                known,
                mints@.take(i as int),
                owners@,
            ).contains(k) <==> token_accounts(*signer, known, mints@, owners@).contains(k) by {
                if token_accounts(*signer, known, mints@, owners@).contains(k) {
                    let j = choose|j: int| #[trigger]
                        token_account_at(*signer, known, mints@, owners@, j) == Some(Some(k));
                    assert(token_account_at(*signer, known, mints@.take(i as int), owners@, j)
                        == Some(Some(k)));
                }
                if token_accounts(*signer, known, mints@.take(i as int), owners@).contains(k) {
                    let j = choose|j: int| #[trigger]
                        token_account_at(*signer, known, mints@.take(i as int), owners@, j) == Some(
                            Some(k),
                        );
                    assert(token_account_at(*signer, known, mints@, owners@, j) == Some(Some(k)));
                }
            }
            assert(self.addresses@ =~= before.union(
                token_accounts(*signer, known, mints@, owners@),
            ));
        }
        Ok(())
    }
}

/// What one more bank account adds to a group.
proof fn lemma_one_more_entry(
    common: Seq<Pubkey>,
    done: Seq<BankEntry>,
    entry: BankEntry,
    group: Group,
)
    ensures
        forall|k: Pubkey| #[trigger]
            group_addresses(common, done.push(entry), group).contains(k) <==> group_addresses(
                common,
                done,
                group,
            ).contains(k) || belongs(group, entry) && bank_addresses(entry, entry.bank->0).contains(
                k,
            ),
        forall|m: Pubkey| #[trigger]
            group_mints(done.push(entry), group).contains(m) <==> group_mints(done, group).contains(
                m,
            ) || belongs(group, entry) && entry.bank->0.mint == m,
{
    let next = done.push(entry);
    assert(next[done.len() as int] == entry);
    assert forall|k: Pubkey| #[trigger]
        group_addresses(common, next, group).contains(k) <==> group_addresses(
            common,
            done,
            group,
        ).contains(k) || belongs(group, entry) && bank_addresses(entry, entry.bank->0).contains(
            k,
        ) by {
        if group_addresses(common, done, group).contains(k) && !common.contains(k) {
            let i = choose|i: int|
                0 <= i < done.len() && belongs(group, #[trigger] done[i]) && bank_addresses(
                    done[i],
                    done[i].bank->0,
                ).contains(k);
            assert(next[i] == done[i]);
        }
        if group_addresses(common, next, group).contains(k) && !common.contains(k) {
            let i = choose|i: int|
                0 <= i < next.len() && belongs(group, #[trigger] next[i]) && bank_addresses(
                    next[i],
                    next[i].bank->0,
                ).contains(k);
            if i < done.len() {
                assert(next[i] == done[i]);
            }
        }
    }
    assert forall|m: Pubkey| #[trigger]
        group_mints(next, group).contains(m) <==> group_mints(done, group).contains(m) || belongs(
            group,
            entry,
        ) && entry.bank->0.mint == m by {
        if group_mints(done, group).contains(m) {
            let i = choose|i: int|
                0 <= i < done.len() && belongs(group, #[trigger] done[i]) && done[i].bank->0.mint
                    == m;
            assert(next[i] == done[i]);
        }
        if group_mints(next, group).contains(m) {
            let i = choose|i: int|
                0 <= i < next.len() && belongs(group, #[trigger] next[i]) && next[i].bank->0.mint
                    == m;
            if i < done.len() {
                assert(next[i] == done[i]);
            }
        }
    }
}

/// What one more mint adds to the token accounts.
proof fn lemma_one_more_mint(
    signer: Pubkey,
    known: Set<Pubkey>,
    mints: Seq<Pubkey>,
    owners: Seq<Option<Pubkey>>,
    i: int,
)
    requires
        0 <= i < mints.len(),
    ensures
        forall|k: Pubkey| #[trigger]
            token_accounts(signer, known, mints.take(i + 1), owners).contains(k)
                <==> token_accounts(signer, known, mints.take(i), owners).contains(k)
                || token_account_at(signer, known, mints, owners, i) == Some(Some(k)),
{
    assert forall|k: Pubkey| #[trigger]
        token_accounts(signer, known, mints.take(i + 1), owners).contains(k) <==> token_accounts(
            signer,
            known,
            mints.take(i),
            owners,
        ).contains(k) || token_account_at(signer, known, mints, owners, i) == Some(Some(k)) by {
        if token_accounts(signer, known, mints.take(i + 1), owners).contains(k) {
            let j = choose|j: int| #[trigger]
                token_account_at(signer, known, mints.take(i + 1), owners, j) == Some(Some(k));
            if j < i {
                assert(token_account_at(signer, known, mints.take(i), owners, j) == Some(Some(k)));
            }
        }
        if token_accounts(signer, known, mints.take(i), owners).contains(k) {
            let j = choose|j: int| #[trigger]
                token_account_at(signer, known, mints.take(i), owners, j) == Some(Some(k));
            assert(token_account_at(signer, known, mints.take(i + 1), owners, j) == Some(Some(k)));
        }
        if token_account_at(signer, known, mints, owners, i) == Some(Some(k)) {
            assert(token_account_at(signer, known, mints.take(i + 1), owners, i) == Some(Some(k)));
        }
    }
}

// ── All groups ───────────────────────────────────────────────────────────────

/// The three groups.
#[derive(Debug)]
pub struct LutContext {
    pub g1: LutGroup,
    pub g2: LutGroup,
    pub g3: LutGroup,
}

/// A group that was collected from the bank accounts.
pub open spec fn is_collected(
    g: LutGroup,
    common: Seq<Pubkey>,
    entries: Seq<BankEntry>,
    group: Group,
) -> bool {
    &&& g.addresses@ == group_addresses(common, entries, group)
    &&& g.mints@ == group_mints(entries, group)
    &&& g.banks == group_banks(entries, group).len()
}

/// The group with the signer's token accounts of its mints, and nothing else changed.
pub open spec fn has_token_accounts(
    before: LutGroup,
    after: LutGroup,
    signer: Pubkey,
    mints: Seq<Pubkey>,
    owners: Seq<Option<Pubkey>>,
) -> bool {
    &&& after.mints == before.mints
    &&& after.banks == before.banks
    &&& after.addresses@ == before.addresses@.union(
        token_accounts(signer, before.mints@, mints, owners),
    )
}

impl LutContext {
    /// No key stands in a set twice.
    pub open spec fn wf(&self) -> bool {
        self.g1.wf() && self.g2.wf() && self.g3.wf()
    }

    /// Collects the groups from the bank accounts.
    pub fn collect(common: &Vec<Pubkey>, entries: &Vec<BankEntry>) -> (c: LutContext)
        ensures
            c.wf(),
            is_collected(c.g1, common@, entries@, Group::Default),
            is_collected(c.g2, common@, entries@, Group::Staked),
            is_collected(c.g3, common@, entries@, Group::Integrations),
    {
        LutContext {
            g1: LutGroup::collect(common, entries, Group::Default),
            g2: LutGroup::collect(common, entries, Group::Staked),
            g3: LutGroup::collect(common, entries, Group::Integrations),
        }
    }

    /// The mints of the groups as one list. A mint of the third group that belongs to another
    /// group too is listed twice.
    pub fn mints(&self) -> (mints: Vec<Pubkey>)
        requires
            self.wf(),
        ensures
            mints@.to_set() == self.g1.mints@.union(self.g2.mints@).union(self.g3.mints@),
            mints@.len() == self.g1.mints@.union(self.g2.mints@).len() + self.g3.mints@.len(),
    {
        let mut both = KeySet::new();
        both.insert_all(&self.g1.mints.to_vec());
        both.insert_all(&self.g2.mints.to_vec());
        let mut mints = both.to_vec();
        let ghost two = mints@;
        let mut rest = self.g3.mints.to_vec();
        let ghost three = rest@;
        mints.append(&mut rest);
        proof {
            assert(mints@ =~= two + three);
            assert(two.to_set() =~= self.g1.mints@.union(self.g2.mints@));
            assert(three.to_set() =~= self.g3.mints@);
            two.unique_seq_to_set();
            three.unique_seq_to_set();
            assert forall|k: Pubkey| mints@.to_set().contains(k) <==> two.to_set().contains(k)
                || three.to_set().contains(k) by {
                if two.contains(k) {
                    let j = choose|j: int| 0 <= j < two.len() && two[j] == k;
                    assert(mints@[j] == k);
                }
                if three.contains(k) {
                    let j = choose|j: int| 0 <= j < three.len() && three[j] == k;
                    assert(mints@[two.len() + j] == k);
                }
            }
            assert(mints@.to_set() =~= self.g1.mints@.union(self.g2.mints@).union(self.g3.mints@));
        }
        mints
    }

    /// Adds the signer's token accounts to each group. Fails with a mint for which there is none.
    pub fn add_token_accounts(
        &mut self,
        signer: &Pubkey,
        mints: &Vec<Pubkey>,
        owners: &Vec<Option<Pubkey>>,
    ) -> (r: Result<(), Pubkey>)
        requires
            old(self).wf(),
        ensures
            final(self).wf(),
            match r {
                Ok(()) => {
                    &&& has_token_accounts(old(self).g1, final(self).g1, *signer, mints@, owners@)
                    &&& has_token_accounts(old(self).g2, final(self).g2, *signer, mints@, owners@)
                    &&& has_token_accounts(old(self).g3, final(self).g3, *signer, mints@, owners@)
                    &&& forall|i: int| #[trigger]
                        token_account_at(*signer, old(self).g1.mints@, mints@, owners@, i) != Some(
                            None::<Pubkey>,
                        )
                    &&& forall|i: int| #[trigger]
                        token_account_at(*signer, old(self).g2.mints@, mints@, owners@, i) != Some(
                            None::<Pubkey>,
                        )
                    &&& forall|i: int| #[trigger]
                        token_account_at(*signer, old(self).g3.mints@, mints@, owners@, i) != Some(
                            None::<Pubkey>,
                        )
                },
                Err(mint) => exists|i: int|
                    0 <= i < mints@.len() && i < owners@.len() && #[trigger] mints@[i] == mint
                        && owners@[i] is Some && token_account(*signer, mint, owners@[i]->0)
                        is None,
            },
    {
        match self.g1.add_token_accounts(signer, mints, owners) {
            Ok(()) => {},
            Err(mint) => {
                return Err(mint);
            },
        }
        match self.g2.add_token_accounts(signer, mints, owners) {
            Ok(()) => {},
            Err(mint) => {
                return Err(mint);
            },
        }
        self.g3.add_token_accounts(signer, mints, owners)
    }
}

// ── Laws ─────────────────────────────────────────────────────────────────────

/// Every bank belongs to a group, and only one of SOL belongs to two.
pub proof fn law_groups_cover_the_banks(asset_tag: u8)
    ensures
        in_group(Group::Default, asset_tag) || in_group(Group::Staked, asset_tag) || in_group(
            Group::Integrations,
            asset_tag,
        ),
        in_group(Group::Default, asset_tag) && in_group(Group::Staked, asset_tag) <==> asset_tag
            == ASSET_TAG_SOL,
        in_group(Group::Integrations, asset_tag) ==> !in_group(Group::Default, asset_tag)
            && !in_group(Group::Staked, asset_tag),
{
}

/// A group holds the common addresses and, for each of its banks, everything that a liquidation
/// with the bank uses.
pub proof fn law_group_holds_its_banks(
    common: Seq<Pubkey>,
    entries: Seq<BankEntry>,
    group: Group,
    i: int,
)
    requires
        0 <= i < entries.len(),
        belongs(group, entries[i]),
    ensures
        common.to_set().subset_of(group_addresses(common, entries, group)),
        bank_addresses(entries[i], entries[i].bank->0).to_set().subset_of(
            group_addresses(common, entries, group),
        ),
        group_mints(entries, group).contains(entries[i].bank->0.mint),
        group_mints(entries, group).subset_of(group_addresses(common, entries, group)),
{
    assert forall|m: Pubkey| group_mints(entries, group).contains(m) implies group_addresses(
        common,
        entries,
        group,
    ).contains(m) by {
        let j = choose|j: int|
            0 <= j < entries.len() && belongs(group, #[trigger] entries[j])
                && entries[j].bank->0.mint == m;
        assert(bank_addresses(entries[j], entries[j].bank->0)[4] == m);
    }
}

/// Where the account of a mint was found, the signer's token account of the mint is in every
/// group that has a bank of the mint.
pub proof fn law_token_accounts_reach_their_groups(
    before: LutGroup,
    after: LutGroup,
    signer: Pubkey,
    mints: Seq<Pubkey>,
    owners: Seq<Option<Pubkey>>,
    i: int,
)
    requires
        has_token_accounts(before, after, signer, mints, owners),
        0 <= i < mints.len(),
        i < owners.len(),
        before.mints@.contains(mints[i]),
        owners[i] is Some,
        token_account(signer, mints[i], owners[i]->0) is Some,
    ensures
        after.addresses@.contains(token_account(signer, mints[i], owners[i]->0)->0),
        before.addresses@.subset_of(after.addresses@),
{
    let address = token_account(signer, mints[i], owners[i]->0)->0;
    assert(token_account_at(signer, before.mints@, mints, owners, i) == Some(Some(address)));
}

/// The ordinary banks are in the first group, SOL in the first and the second, the staked assets
/// in the second, and the banks of the integrations in the third.
pub proof fn law_the_asset_tag_decides_the_group(asset_tag: u8)
    ensures
        in_group(Group::Default, asset_tag) <==> asset_tag == 0 || asset_tag == 1,
        in_group(Group::Staked, asset_tag) <==> asset_tag == 1 || asset_tag == 2,
        in_group(Group::Integrations, asset_tag) <==> asset_tag >= 3,
{
}

/// The key marks a slot in use.
pub open spec fn in_use(k: Pubkey) -> bool {
    exists|i: int| 0 <= i < 32 && #[trigger] k.bytes@[i] != 0
}

/// A liquidation with the bank may use the address: it is the bank's own, that of one of its
/// vaults or of its mint, one of its oracles, or an account of its integration.
pub open spec fn is_used_with(k: Pubkey, entry: BankEntry, bank: Bank) -> bool {
    ||| k == entry.address
    ||| k == entry.vault_authority
    ||| k == bank.liquidity_vault
    ||| k == bank.insurance_vault
    ||| k == bank.fee_vault
    ||| k == bank.mint
    ||| in_use(k) && bank.config.oracle_keys@.contains(k)
    ||| in_use(k) && bank.config.asset_tag >= 3 && (k == bank.integration_acc_1 || k
        == bank.integration_acc_2 || k == bank.integration_acc_3)
}

/// The addresses of a bank are all that a liquidation with it may use, and no others.
pub proof fn law_a_bank_has_all_its_addresses(entry: BankEntry, bank: Bank, k: Pubkey)
    ensures
        bank_addresses(entry, bank).contains(k) <==> is_used_with(k, entry, bank),
{
    let base = seq![
        entry.address,
        bank.liquidity_vault,
        bank.insurance_vault,
        bank.fee_vault,
        bank.mint,
        entry.vault_authority,
    ];
    let oracles = keys_in_use(bank.config.oracle_keys@);
    let accounts = seq![bank.integration_acc_1, bank.integration_acc_2, bank.integration_acc_3];
    let extra = keys_in_use(accounts);
    law_keys_in_use_are_kept_in_order(bank.config.oracle_keys@, k, k);
    law_keys_in_use_are_kept_in_order(accounts, k, k);
    lemma_in_either(base, oracles, k);
    lemma_in_either(base + oracles, extra, k);
    assert(base.contains(k) <==> k == entry.address || k == bank.liquidity_vault || k
        == bank.insurance_vault || k == bank.fee_vault || k == bank.mint || k
        == entry.vault_authority) by {
        assert(base[0] == entry.address);
        assert(base[1] == bank.liquidity_vault);
        assert(base[2] == bank.insurance_vault);
        assert(base[3] == bank.fee_vault);
        assert(base[4] == bank.mint);
        assert(base[5] == entry.vault_authority);
    }
    assert(accounts.contains(k) <==> k == bank.integration_acc_1 || k == bank.integration_acc_2
        || k == bank.integration_acc_3) by {
        assert(accounts[0] == bank.integration_acc_1);
        assert(accounts[1] == bank.integration_acc_2);
        assert(accounts[2] == bank.integration_acc_3);
    }
}

proof fn lemma_in_either(a: Seq<Pubkey>, b: Seq<Pubkey>, k: Pubkey)
    ensures
        (a + b).contains(k) <==> a.contains(k) || b.contains(k),
{
    if a.contains(k) {
        let i = choose|i: int| 0 <= i < a.len() && a[i] == k;
        assert((a + b)[i] == k);
    }
    if b.contains(k) {
        let i = choose|i: int| 0 <= i < b.len() && b[i] == k;
        assert((a + b)[a.len() + i] == k);
    }
}

/// A group holds an address exactly where it is a common one or is used with a decoded bank whose
/// asset tag puts it in the group. Its mints are those of these banks.
pub proof fn law_a_group_holds_what_its_banks_use(
    common: Seq<Pubkey>,
    entries: Seq<BankEntry>,
    group: Group,
    k: Pubkey,
)
    ensures
        group_addresses(common, entries, group).contains(k) <==> common.contains(k) || exists|i: int|
            0 <= i < entries.len() && (#[trigger] entries[i]).bank is Some && in_group(
                group,
                entries[i].bank->0.config.asset_tag,
            ) && is_used_with(k, entries[i], entries[i].bank->0),
        group_mints(entries, group).contains(k) <==> exists|i: int|
            0 <= i < entries.len() && (#[trigger] entries[i]).bank is Some && in_group(
                group,
                entries[i].bank->0.config.asset_tag,
            ) && entries[i].bank->0.mint == k,
{
    if group_addresses(common, entries, group).contains(k) && !common.contains(k) {
        let i = choose|i: int|
            0 <= i < entries.len() && belongs(group, #[trigger] entries[i]) && bank_addresses(
                entries[i],
                entries[i].bank->0,
            ).contains(k);
        law_a_bank_has_all_its_addresses(entries[i], entries[i].bank->0, k);
        assert(entries[i].bank is Some);
    }
    if exists|i: int|
        0 <= i < entries.len() && (#[trigger] entries[i]).bank is Some && in_group(
            group,
            entries[i].bank->0.config.asset_tag,
        ) && is_used_with(k, entries[i], entries[i].bank->0) {
        let i = choose|i: int|
            0 <= i < entries.len() && (#[trigger] entries[i]).bank is Some && in_group(
                group,
                entries[i].bank->0.config.asset_tag,
            ) && is_used_with(k, entries[i], entries[i].bank->0);
        law_a_bank_has_all_its_addresses(entries[i], entries[i].bank->0, k);
        assert(belongs(group, entries[i]));
    }
    if group_mints(entries, group).contains(k) {
        let i = choose|i: int|
            0 <= i < entries.len() && belongs(group, #[trigger] entries[i])
                && entries[i].bank->0.mint == k;
        assert(entries[i].bank is Some);
    }
    if exists|i: int|
        0 <= i < entries.len() && (#[trigger] entries[i]).bank is Some && in_group(
            group,
            entries[i].bank->0.config.asset_tag,
        ) && entries[i].bank->0.mint == k {
        let i = choose|i: int|
            0 <= i < entries.len() && (#[trigger] entries[i]).bank is Some && in_group(
                group,
                entries[i].bank->0.config.asset_tag,
            ) && entries[i].bank->0.mint == k;
        assert(belongs(group, entries[i]));
    }
}

/// Each decoded bank of a group counts once.
pub proof fn law_the_banks_of_a_group_are_counted(
    entries: Seq<BankEntry>,
    entry: BankEntry,
    group: Group,
)
    ensures
        group_banks(Seq::empty(), group).len() == 0,
        group_banks(entries.push(entry), group).len() == group_banks(entries, group).len() + (
        if entry.bank is Some && in_group(group, entry.bank->0.config.asset_tag) {
            1int
        } else {
            0int
        }),
{
    assert(group_banks(Seq::empty(), group) =~= Seq::<BankEntry>::empty());
    entries.lemma_filter_push(entry, |e: BankEntry| belongs(group, e));
}

/// Each of the three tables sets is collected for its own group, from the same accounts.
pub proof fn law_each_group_is_collected(
    common: &Vec<Pubkey>,
    entries: &Vec<BankEntry>,
    c: LutContext,
)
    requires
        call_ensures(LutContext::collect, (common, entries), c),
    ensures
        c.g1.addresses@ == group_addresses(common@, entries@, Group::Default),
        c.g2.addresses@ == group_addresses(common@, entries@, Group::Staked),
        c.g3.addresses@ == group_addresses(common@, entries@, Group::Integrations),
        c.g1.mints@ == group_mints(entries@, Group::Default),
        c.g2.mints@ == group_mints(entries@, Group::Staked),
        c.g3.mints@ == group_mints(entries@, Group::Integrations),
{
}

/// A group gains exactly the signer's token accounts of those of its mints whose account was
/// found.
pub proof fn law_just_the_token_accounts_are_added(
    before: LutGroup,
    after: LutGroup,
    signer: Pubkey,
    mints: Seq<Pubkey>,
    owners: Seq<Option<Pubkey>>,
    k: Pubkey,
)
    requires
        has_token_accounts(before, after, signer, mints, owners),
    ensures
        after.mints@ == before.mints@,
        after.banks == before.banks,
        after.addresses@.contains(k) <==> before.addresses@.contains(k) || exists|i: int|
            0 <= i < mints.len() && i < owners.len() && before.mints@.contains(#[trigger] mints[i])
                && owners[i] is Some && token_account(signer, mints[i], owners[i]->0) == Some(k),
{
    let accounts = token_accounts(signer, before.mints@, mints, owners);
    if accounts.contains(k) {
        let i = choose|i: int| #[trigger]
            token_account_at(signer, before.mints@, mints, owners, i) == Some(Some(k));
        assert(before.mints@.contains(mints[i]));
    }
    if exists|i: int|
        0 <= i < mints.len() && i < owners.len() && before.mints@.contains(#[trigger] mints[i])
            && owners[i] is Some && token_account(signer, mints[i], owners[i]->0) == Some(k) {
        let i = choose|i: int|
            0 <= i < mints.len() && i < owners.len() && before.mints@.contains(#[trigger] mints[i])
                && owners[i] is Some && token_account(signer, mints[i], owners[i]->0) == Some(k);
        assert(token_account_at(signer, before.mints@, mints, owners, i) == Some(Some(k)));
    }
}

/// The common addresses are those of the liquidator, of the marginfi group and of the programs,
/// and no others.
pub proof fn law_the_common_addresses_are_complete(
    signer: Pubkey,
    liquidator_account: Pubkey,
    marginfi_group: Pubkey,
    marginfi_program: Pubkey,
    global_fee_state: Pubkey,
    global_fee_wallet: Pubkey,
    common: Vec<Pubkey>,
    k: Pubkey,
)
    requires
        call_ensures(
            common_addresses,
            (
                signer,
                liquidator_account,
                marginfi_group,
                marginfi_program,
                global_fee_state,
                global_fee_wallet,
            ),
            common,
        ),
    ensures
        common@.contains(k) <==> {
            ||| k == signer
            ||| k == liquidator_account
            ||| k == marginfi_group
            ||| k == marginfi_program
            ||| k == global_fee_state
            ||| k == global_fee_wallet
            ||| k.bytes == TOKEN_PROGRAM
            ||| k.bytes == TOKEN_2022_PROGRAM
            ||| k.bytes == SYSTEM_PROGRAM
            ||| k.bytes == INSTRUCTIONS_SYSVAR
        },
{
    let c = common@;
    assert(c[0] == signer);
    assert(c[1] == liquidator_account);
    assert(c[2] == marginfi_group);
    assert(c[3] == marginfi_program);
    assert(c[4] == global_fee_state);
    assert(c[5] == global_fee_wallet);
    assert(c[6] == Pubkey { bytes: TOKEN_PROGRAM });
    assert(c[7] == Pubkey { bytes: TOKEN_2022_PROGRAM });
    assert(c[8] == Pubkey { bytes: SYSTEM_PROGRAM });
    assert(c[9] == Pubkey { bytes: INSTRUCTIONS_SYSVAR });
}

/// An account meets the conditions on bank accounts only where it starts with the discriminator
/// and names the group at its place.
pub proof fn law_banks_are_found_by_their_group(
    discriminator: Vec<u8>,
    marginfi_group: &Pubkey,
    filters: Vec<AccountFilter>,
    data: Seq<u8>,
)
    requires
        call_ensures(bank_filters, (discriminator, marginfi_group), filters),
        data.len() >= 73,
        data.len() >= discriminator@.len(),
    ensures
        (forall|i: int|
            0 <= i < filters@.len() ==> data.subrange(
                (#[trigger] filters@[i]).offset as int,
                filters@[i].offset + filters@[i].bytes@.len(),
            ) == filters@[i].bytes@) <==> data.subrange(0, discriminator@.len() as int)
            == discriminator@ && data.subrange(41, 73) == marginfi_group.bytes@,
{
    assert(filters@[0].offset == 0);
    assert(filters@[1].bytes@.len() == 32);
}

/// The mints of all groups are listed, and no others.
pub proof fn law_the_mints_of_all_groups_are_listed(
    c: &LutContext,
    mints: Vec<Pubkey>,
    k: Pubkey,
)
    requires
        call_ensures(LutContext::mints, (c,), mints),
    ensures
        mints@.contains(k) <==> c.g1.mints@.contains(k) || c.g2.mints@.contains(k)
            || c.g3.mints@.contains(k),
{
    assert(mints@.to_set().contains(k) <==> mints@.contains(k));
}

/// Each of the three groups is given its token accounts, or none can be derived for a mint whose
/// account was found.
pub proof fn law_each_group_is_given_its_token_accounts(
    c: &mut LutContext,
    signer: &Pubkey,
    mints: &Vec<Pubkey>,
    owners: &Vec<Option<Pubkey>>,
    r: Result<(), Pubkey>,
)
    requires
        call_ensures(LutContext::add_token_accounts, (c, signer, mints, owners), r),
    ensures
        match r {
            Ok(_) => {
                &&& has_token_accounts(old(c).g1, final(c).g1, *signer, mints@, owners@)
                &&& has_token_accounts(old(c).g2, final(c).g2, *signer, mints@, owners@)
                &&& has_token_accounts(old(c).g3, final(c).g3, *signer, mints@, owners@)
            },
            Err(mint) => exists|i: int|
                0 <= i < mints@.len() && i < owners@.len() && #[trigger] mints@[i] == mint && (
                owners@[i] matches Some(owner) && token_account(*signer, mint, owner) is None),
        },
{
}

}
