//! One set of lookup tables for all banks.

use vstd::prelude::*;

use crate::cache::banks::Bank;
use crate::cli::lut_creator::{create_lut_group, run_start, run_wf, LutRun, PhaseState};
use crate::keyed::KeySet;
use crate::pubkey::{
    keys_in_use, law_keys_in_use_are_kept_in_order, push_keys_in_use, Pubkey,
};

verus! {

/// The addresses that one bank account contributes: its own and, where it could be decoded, the
/// bank's oracle keys that are in use.
pub open spec fn contributed(account: (Pubkey, Option<Bank>)) -> Seq<Pubkey> {
    match account.1 {
        Some(bank) => seq![account.0] + keys_in_use(bank.config.oracle_keys@),
        None => seq![account.0],
    }
}

/// The addresses of all bank accounts.
pub open spec fn bank_and_oracle_addresses(accounts: Seq<(Pubkey, Option<Bank>)>) -> Set<Pubkey> {
    Set::new(
        |k: Pubkey|
            exists|i: int|
                0 <= i < accounts.len() && contributed(#[trigger] accounts[i]).contains(k),
    )
}

/// Collects the addresses of all bank accounts, each once.
pub fn collect_addresses(accounts: &Vec<(Pubkey, Option<Bank>)>) -> (addresses: Vec<Pubkey>)
    ensures
        addresses@.no_duplicates(),
        addresses@.to_set() == bank_and_oracle_addresses(accounts@),
{
    let mut found = KeySet::new();
    let mut i: usize = 0;
    assert(found@ =~= bank_and_oracle_addresses(accounts@.take(0)));
    while i < accounts.len()
        invariant
            found.wf(),
            i <= accounts@.len(),
            found@ == bank_and_oracle_addresses(accounts@.take(i as int)),
        decreases accounts@.len() - i,
    {
        let ghost before = found@;
        let mut keys: Vec<Pubkey> = vec![accounts[i].0];
        if let Some(bank) = &accounts[i].1 {
            push_keys_in_use(&mut keys, &bank.config.oracle_keys);
        }
        found.insert_all(&keys);
        proof {
            let done = accounts@.take(i as int);
            let next = accounts@.take(i + 1);
            assert(keys@ =~= contributed(accounts@[i as int]));
            assert(next[i as int] == accounts@[i as int]);
            assert forall|k: Pubkey| found@.contains(k) <==> bank_and_oracle_addresses(
                next,
            ).contains(k) by {
                if before.contains(k) {
                    let j = choose|j: int|
                        0 <= j < done.len() && contributed(#[trigger] done[j]).contains(k);
                    assert(next[j] == done[j]);
                }
                if bank_and_oracle_addresses(next).contains(k) {
                    let j = choose|j: int|
                        0 <= j < next.len() && contributed(#[trigger] next[j]).contains(k);
                    if j < i {
                        assert(done[j] == next[j]);
                    }
                }
            }
            assert(found@ =~= bank_and_oracle_addresses(next));
        }
        i += 1;
    }
    assert(accounts@.take(i as int) =~= accounts@);
    found.to_vec()
}

/// Starts to put the addresses of all bank accounts into new tables.
pub fn create_luts(url: &str, wallet: &str, addresses: Vec<Pubkey>) -> (run: LutRun)
    ensures
        run.wf(),
        run_wf(run@),
        run@ == run_start(url@, wallet@, false, Seq::empty(), Seq::empty(), addresses@),
{
    create_lut_group(url, wallet, false, addresses)
}

// ── Laws ─────────────────────────────────────────────────────────────────────

/// The addresses of all bank accounts are their own and the oracle keys in use of those that could
/// be decoded: each of these once, and no others.
pub proof fn law_every_bank_and_oracle_is_collected(
    accounts: &Vec<(Pubkey, Option<Bank>)>,
    addresses: Vec<Pubkey>,
    k: Pubkey,
)
    requires
        call_ensures(collect_addresses, (accounts,), addresses),
    ensures
        addresses@.no_duplicates(),
        addresses@.contains(k) <==> exists|i: int|
            0 <= i < accounts@.len() && {
                ||| (#[trigger] accounts@[i]).0 == k
                ||| accounts@[i].1 is Some && accounts@[i].1->0.config.oracle_keys@.contains(k)
                    && exists|j: int| 0 <= j < 32 && #[trigger] k.bytes@[j] != 0
            },
{
    assert(addresses@.to_set().contains(k) <==> addresses@.contains(k));
    assert forall|i: int| 0 <= i < accounts@.len() implies (contributed(
        #[trigger] accounts@[i],
    ).contains(k) <==> {
        ||| accounts@[i].0 == k
        ||| accounts@[i].1 is Some && accounts@[i].1->0.config.oracle_keys@.contains(k)
            && exists|j: int| 0 <= j < 32 && #[trigger] k.bytes@[j] != 0
    }) by {
        let own = contributed(accounts@[i]);
        assert(own[0] == accounts@[i].0);
        if let Some(bank) = accounts@[i].1 {
            let oracles = keys_in_use(bank.config.oracle_keys@);
            law_keys_in_use_are_kept_in_order(bank.config.oracle_keys@, k, k);
            if oracles.contains(k) {
                let j = choose|j: int| 0 <= j < oracles.len() && oracles[j] == k;
                assert(own[j + 1] == k);
            }
            if own.contains(k) && k != accounts@[i].0 {
                let j = choose|j: int| 0 <= j < own.len() && own[j] == k;
                assert(oracles[j - 1] == k);
            }
        }
    }
    if bank_and_oracle_addresses(accounts@).contains(k) {
        let i = choose|i: int|
            0 <= i < accounts@.len() && contributed(#[trigger] accounts@[i]).contains(k);
        assert(contributed(accounts@[i]).contains(k));
    }
}

/// All the addresses go into new tables, and a table without an address ends the run.
pub proof fn law_all_addresses_go_into_new_tables(
    url: &str,
    wallet: &str,
    addresses: Vec<Pubkey>,
    run: LutRun,
)
    requires
        call_ensures(create_luts, (url, wallet, addresses), run),
    ensures
        run@.fresh == addresses@,
        run@.keys.len() == 0,
        run@.url == url@,
        run@.wallet == wallet@,
        !run@.skip_invalid,
        addresses@.len() > 0 ==> run@.phase is Creating,
        addresses@.len() == 0 ==> (run@.phase matches PhaseState::Done(Ok(_))),
{
}

}
