use eva01::cache::banks::{Bank, BankConfig, OracleSetup};
use eva01::cli::entrypoints::{collect_addresses, create_luts};
use eva01::cli::lut_creator::{
    announced_table, create_lut_group, env_line, key_list, nothing_to_sync, populate_group,
    read_existing_luts, read_tables, Announced, CommandOutput, GroupPlan, LutRun, RunError,
    TablesError, EXTEND_CHUNK, LUT_MAX,
};
use eva01::cli::lut_groups::{
    bank_filters, common_addresses, tag_in_group, BankEntry, Group, LutContext, LutGroup,
    INSTRUCTIONS_SYSVAR, SYSTEM_PROGRAM, TOKEN_2022_PROGRAM, TOKEN_PROGRAM,
};
use eva01::pubkey::{Pubkey, ASSOCIATED_TOKEN_PROGRAM};
use solana_sdk::address_lookup_table::state::{AddressLookupTable, LookupTableMeta};
use std::collections::HashSet;

fn key(n: u8) -> Pubkey {
    Pubkey::new_from_array([n; 32])
}

/// Distinct addresses, also beyond the values of a byte.
fn numbered(n: usize) -> Pubkey {
    let mut bytes = [200; 32];
    bytes[0] = (n / 250) as u8;
    bytes[1] = (n % 250) as u8;
    Pubkey::new_from_array(bytes)
}

fn table(addresses: &[Pubkey]) -> Option<Vec<u8>> {
    let addresses: Vec<solana_sdk::pubkey::Pubkey> = addresses
        .iter()
        .map(|k| solana_sdk::pubkey::Pubkey::new_from_array(k.bytes))
        .collect();
    let table = AddressLookupTable { meta: LookupTableMeta::default(), addresses: addresses.into() };
    Some(table.serialize_for_tests().unwrap())
}

fn bank(mint: u8, asset_tag: u8) -> Bank {
    let mut oracle_keys = [key(0); 5];
    oracle_keys[0] = key(mint + 50);
    oracle_keys[3] = key(mint + 51);
    Bank {
        mint: key(mint),
        liquidity_vault: key(mint + 1),
        insurance_vault: key(mint + 2),
        fee_vault: key(mint + 3),
        integration_acc_1: key(mint + 4),
        integration_acc_2: key(0),
        integration_acc_3: key(mint + 5),
        config: BankConfig { asset_tag, oracle_setup: OracleSetup::Other, oracle_keys },
    }
}

fn entry(n: u8, bank: Option<Bank>) -> BankEntry {
    BankEntry { address: key(n), vault_authority: key(n + 1), bank }
}

fn set(keys: Vec<Pubkey>) -> HashSet<[u8; 32]> {
    let n = keys.len();
    let set: HashSet<[u8; 32]> = keys.into_iter().map(|k| k.bytes).collect();
    assert_eq!(set.len(), n);
    set
}

// ── Groups ───────────────────────────────────────────────────────────────────

#[test]
fn asset_tags_decide_the_group() {
    let groups = |tag: u8| {
        [Group::Default, Group::Staked, Group::Integrations]
            .map(|group| tag_in_group(group, tag))
    };
    assert_eq!(groups(0), [true, false, false]);
    assert_eq!(groups(1), [true, true, false]);
    assert_eq!(groups(2), [false, true, false]);
    assert_eq!(groups(3), [false, false, true]);
    assert_eq!(groups(6), [false, false, true]);
    assert_eq!(groups(255), [false, false, true]);
}

#[test]
fn a_group_holds_what_its_banks_use() {
    let entries = vec![
        entry(10, Some(bank(20, 0))),
        entry(12, Some(bank(30, 3))),
        entry(14, None),
        entry(16, Some(bank(40, 1))),
    ];
    let common = vec![key(1), key(2)];
    let g = LutGroup::collect(&common, &entries, Group::Default);
    assert_eq!(g.banks, 2);
    assert_eq!(set(g.mints.to_vec()), set(vec![key(20), key(40)]));
    let expected = vec![
        1, 2, 10, 11, 20, 21, 22, 23, 70, 71, 16, 17, 40, 41, 42, 43, 90, 91,
    ];
    assert_eq!(set(g.addresses.to_vec()), set(expected.into_iter().map(key).collect()));

    // Only integrations bring their own accounts, and only those in use.
    let g = LutGroup::collect(&common, &entries, Group::Integrations);
    assert_eq!(g.banks, 1);
    let expected = vec![1, 2, 12, 13, 30, 31, 32, 33, 80, 81, 34, 35];
    assert_eq!(set(g.addresses.to_vec()), set(expected.into_iter().map(key).collect()));
}

#[test]
fn token_accounts_are_derived_for_the_mints_of_a_group() {
    let entries = vec![entry(10, Some(bank(20, 0))), entry(12, Some(bank(30, 1)))];
    let mut g = LutGroup::collect(&vec![], &entries, Group::Default);
    let before = g.addresses.len();
    let program = Pubkey::new_from_array(TOKEN_PROGRAM);
    let mints = vec![key(20), key(30), key(99)];
    let owners = vec![Some(program), None, Some(program)];
    g.add_token_accounts(&key(7), &mints, &owners).unwrap();
    let sdk = |k: Pubkey| solana_sdk::pubkey::Pubkey::new_from_array(k.bytes);
    let ata = anchor_spl::associated_token::get_associated_token_address_with_program_id(
        &sdk(key(7)),
        &sdk(key(20)),
        &sdk(program),
    );
    // The second mint has no account, the third belongs to no bank.
    assert_eq!(g.addresses.len(), before + 1);
    assert!(g.addresses.contains(&Pubkey::new_from_array(ata.to_bytes())));
    assert_eq!(
        key(7).token_account(&key(20), &program).unwrap(),
        Pubkey::new_from_array(ata.to_bytes())
    );
}

#[test]
fn mints_of_the_third_group_are_listed_again() {
    let entries = vec![entry(10, Some(bank(20, 1))), entry(12, Some(bank(20, 4)))];
    let mut context = LutContext::collect(&vec![], &entries);
    let mints = context.mints();
    assert_eq!(mints, vec![key(20), key(20)]);
    assert_eq!((context.g1.banks, context.g2.banks, context.g3.banks), (1, 1, 1));

    // The token account of the mint goes into each of the groups.
    let program = Pubkey::new_from_array(TOKEN_PROGRAM);
    context.add_token_accounts(&key(7), &mints, &vec![Some(program); 2]).unwrap();
    let ata = key(7).token_account(&key(20), &program).unwrap();
    for group in [&context.g1, &context.g2, &context.g3] {
        assert!(group.addresses.contains(&ata));
    }
}

#[test]
fn program_addresses() {
    let sdk = |bytes: [u8; 32]| solana_sdk::pubkey::Pubkey::new_from_array(bytes);
    assert_eq!(sdk(TOKEN_PROGRAM), spl_token::id());
    assert_eq!(
        sdk(TOKEN_2022_PROGRAM).to_string(),
        "TokenzQdBNbLqP5VEhdkAS6EPFLC1PHnBqCXEpPxuEb"
    );
    assert_eq!(sdk(SYSTEM_PROGRAM), solana_sdk::system_program::id());
    assert_eq!(sdk(INSTRUCTIONS_SYSVAR), solana_sdk::sysvar::instructions::id());
    assert_eq!(sdk(ASSOCIATED_TOKEN_PROGRAM), anchor_spl::associated_token::ID);
    let common = common_addresses(key(1), key(2), key(3), key(4), key(5), key(6));
    assert_eq!(common.len(), 10);
    assert_eq!(common[..6], [key(1), key(2), key(3), key(4), key(5), key(6)]);
    assert_eq!(common[6].bytes, TOKEN_PROGRAM);
    assert_eq!(common[9].bytes, INSTRUCTIONS_SYSVAR);
}

#[test]
fn banks_are_found_by_their_data() {
    let filters = bank_filters(vec![1, 2, 3], &key(9));
    assert_eq!(filters.len(), 2);
    assert_eq!((filters[0].offset, filters[0].bytes.clone()), (0, vec![1, 2, 3]));
    assert_eq!((filters[1].offset, filters[1].bytes.clone()), (41, vec![9; 32]));
}

#[test]
fn addresses_that_programs_derive() {
    let program = key(4);
    let found = Pubkey::find_program_address(&vec![b"feestate".to_vec()], &program).unwrap();
    let expected = solana_sdk::pubkey::Pubkey::find_program_address(
        &[b"feestate"],
        &solana_sdk::pubkey::Pubkey::new_from_array(program.bytes),
    );
    assert_eq!(found.0.bytes, expected.0.to_bytes());
    assert_eq!(found.1, expected.1);
    // A seed that is too long derives nothing.
    assert!(Pubkey::find_program_address(&vec![vec![0; 33]], &program).is_none());
}

// ── Lists ────────────────────────────────────────────────────────────────────

#[test]
fn lists_of_tables_are_read_leniently() {
    assert!(read_existing_luts(None).is_empty());
    assert!(read_existing_luts(Some("")).is_empty());
    let text = format!(" {} ,oops,,{}\n", key(1).to_text(), key(2).to_text());
    assert_eq!(read_existing_luts(Some(&text)), vec![key(1), key(2)]);
}

#[test]
fn printed_lists_read_back() {
    let keys: Vec<Pubkey> = (0..30).map(numbered).collect();
    assert_eq!(read_existing_luts(Some(&key_list(&keys))), keys);
    assert_eq!(key_list(&vec![]), "");
    let ones = "11111111111111111111111111111111";
    assert_eq!(
        env_line("ADDRESS_LOOKUP_TABLES_GROUP1", &vec![key(0), key(0)]),
        format!("ADDRESS_LOOKUP_TABLES_GROUP1={},{}", ones, ones)
    );
}

#[test]
fn syncing_needs_a_table() {
    let (none, some) = (vec![], vec![key(1)]);
    assert!(nothing_to_sync(&none, &none, &none));
    assert!(!nothing_to_sync(&none, &none, &some));
}

// ── What is stored ───────────────────────────────────────────────────────────

#[test]
fn existing_tables_are_read() {
    let keys = vec![key(1), key(2)];
    let accounts = vec![table(&[key(10), key(11)]), table(&[key(11), key(12), key(13)])];
    let tables = read_tables(&keys, &accounts).unwrap();
    let stored = set(tables.stored.to_vec());
    assert_eq!(stored, set(vec![key(10), key(11), key(12), key(13)]));
    assert_eq!(tables.last_space, LUT_MAX - 3);

    let full: Vec<Pubkey> = (0..LUT_MAX).map(numbered).collect();
    let tables = read_tables(&keys, &vec![table(&[key(10)]), table(&full)]).unwrap();
    assert_eq!(tables.last_space, 0);
}

#[test]
fn tables_that_are_missing_or_no_tables_are_errors() {
    let keys = vec![key(1), key(2)];
    match read_tables(&keys, &vec![table(&[]), None]) {
        Err(TablesError::NotFound(k)) => assert_eq!(k, key(2)),
        other => panic!("{:?}", other),
    }
    match read_tables(&keys, &vec![Some(vec![1, 2, 3]), None]) {
        Err(TablesError::Undecodable { key: k, message }) => {
            assert_eq!(k, key(1));
            let error = AddressLookupTable::deserialize(&[1, 2, 3]).unwrap_err();
            assert_eq!(message, error.to_string());
        }
        other => panic!("{:?}", other),
    }
}

#[test]
fn the_missing_addresses_fill_the_last_table_first() {
    let stored: Vec<Pubkey> = (0..LUT_MAX - 2).map(numbered).collect();
    let tables = read_tables(&vec![key(1)], &vec![table(&stored)]).unwrap();
    let all: Vec<Pubkey> = (LUT_MAX - 4..LUT_MAX + 3).map(numbered).collect();
    let plan = GroupPlan::new(&all, &tables);
    assert_eq!(plan.extend, vec![numbered(LUT_MAX - 2), numbered(LUT_MAX - 1)]);
    assert_eq!(
        plan.fresh,
        vec![numbered(LUT_MAX), numbered(LUT_MAX + 1), numbered(LUT_MAX + 2)]
    );
    assert!(!plan.is_up_to_date());
    assert!(GroupPlan::new(&stored, &tables).is_up_to_date());
}

// ── Running the tool ─────────────────────────────────────────────────────────

fn said(stdout: String) -> Result<CommandOutput, String> {
    Ok(CommandOutput { success: true, stdout, stderr: String::new() })
}

fn refused(stderr: &str) -> Result<CommandOutput, String> {
    Ok(CommandOutput { success: false, stdout: String::new(), stderr: stderr.to_string() })
}

fn created(k: Pubkey) -> Result<CommandOutput, String> {
    said(format!("Signature: abc\n  Lookup Table Address: {}\r\ndone\n", k.to_text()))
}

/// Runs the tool on a chain that numbers its tables, and gives back what each table was sent.
fn run_all(mut run: LutRun) -> (Vec<Pubkey>, Vec<(String, Vec<usize>)>) {
    let mut sent: Vec<(String, Vec<usize>)> = vec![];
    let mut next: u8 = 100;
    loop {
        run = match run.into_result() {
            Ok(result) => return (result.unwrap(), sent),
            Err(run) => run,
        };
        let args = run.command().unwrap();
        let output = if args[1] == "create" {
            next += 1;
            created(key(next))
        } else {
            let lut = args[2].clone();
            let n = read_existing_luts(Some(&args[8])).len();
            match sent.last_mut() {
                Some((last, chunks)) if *last == lut => chunks.push(n),
                _ => sent.push((lut, vec![n])),
            }
            said(String::new())
        };
        run = run.step(output);
    }
}

#[test]
fn tables_are_created_and_extended_in_chunks() {
    let addresses: Vec<Pubkey> = (0..300).map(numbered).collect();
    let run = create_lut_group("http://rpc", "/tmp/wallet.json", true, addresses);
    let expected = ["address-lookup-table", "create", "--url", "http://rpc"];
    assert_eq!(run.command().unwrap()[..4], expected);
    assert_eq!(run.command().unwrap()[4..], ["--keypair", "/tmp/wallet.json"]);
    let (keys, sent) = run_all(run);
    assert_eq!(keys, vec![key(101), key(102)]);
    let mut first = vec![EXTEND_CHUNK; 12];
    first.push(16);
    assert_eq!(sent, vec![(key(101).to_text(), first), (key(102).to_text(), vec![20, 20, 4])]);
}

#[test]
fn a_command_that_extends_names_its_addresses() {
    let run = create_lut_group("http://rpc", "/w", true, vec![key(5), key(6)]);
    let run = run.step(created(key(9)));
    let args = run.command().unwrap();
    let list = format!("{},{}", key(5).to_text(), key(6).to_text());
    let lut = key(9).to_text();
    let expected: [&str; 9] = [
        "address-lookup-table",
        "extend",
        &lut,
        "--url",
        "http://rpc",
        "--keypair",
        "/w",
        "--addresses",
        &list,
    ];
    assert_eq!(args, expected);
}

#[test]
fn a_group_is_brought_up_to_date() {
    let stored: Vec<Pubkey> = (0..LUT_MAX - 2).map(numbered).collect();
    let all: Vec<Pubkey> = (0..LUT_MAX + 20).map(numbered).collect();
    let existing = vec![key(1)];
    let run = populate_group("u", "w", &all, &existing, &vec![table(&stored)]).unwrap();
    let (keys, sent) = run_all(run);
    assert_eq!(keys, vec![key(1), key(101)]);
    assert_eq!(sent, vec![(key(1).to_text(), vec![2]), (key(101).to_text(), vec![20])]);

    // Nothing is done where nothing is missing.
    let run = populate_group("u", "w", &stored, &existing, &vec![table(&stored)]).unwrap();
    assert!(run.command().is_none());
    assert_eq!(run.into_result().unwrap().unwrap(), existing);

    // Without tables, everything is new.
    let run = populate_group("u", "w", &vec![key(5)], &vec![], &vec![]).unwrap();
    assert_eq!(run_all(run).0, vec![key(101)]);

    assert!(populate_group("u", "w", &all, &existing, &vec![None]).is_err());
}

#[test]
fn a_run_ends_with_its_first_failure() {
    let fresh = || create_lut_group("u", "w", true, (0..50).map(numbered).collect());
    let result = |run: LutRun| run.into_result().unwrap().unwrap_err();
    let run = fresh().step(Err("not found".to_string()));
    assert!(matches!(result(run), RunError::CannotRun(why) if why == "not found"));
    let run = fresh().step(refused("no funds"));
    assert!(matches!(result(run), RunError::CreateFailed(e) if e == "no funds"));
    let run = fresh().step(said("nothing here".to_string()));
    assert!(matches!(result(run), RunError::NoAddress(out) if out == "nothing here"));
    let run = fresh().step(created(key(9))).step(said(String::new())).step(refused("late"));
    assert!(matches!(result(run), RunError::ExtendFailed { chunk: 2, stderr } if stderr == "late"));
}

#[test]
fn announced_tables() {
    let good = format!("Lookup Table Address: {}", key(9).to_text());
    let bad = "Lookup Table Address: none";
    let both = format!("{}\n{}", bad, good);
    assert!(matches!(announced_table(&good, false), Announced::Table(k) if k == key(9)));
    assert!(matches!(announced_table(&both, true), Announced::Table(k) if k == key(9)));
    assert!(matches!(announced_table(&both, false), Announced::Invalid));
    assert!(matches!(announced_table(bad, true), Announced::Nothing));
    assert!(matches!(announced_table("", true), Announced::Nothing));
    let inside = format!("The {}", good);
    assert!(matches!(announced_table(&inside, true), Announced::Nothing));
}

// ── One set for all banks ────────────────────────────────────────────────────

#[test]
fn all_banks_and_their_oracles() {
    let accounts = vec![(key(10), Some(bank(20, 0))), (key(11), None), (key(12), Some(bank(20, 3)))];
    let addresses = collect_addresses(&accounts);
    assert_eq!(set(addresses.clone()), set(vec![key(10), key(11), key(12), key(70), key(71)]));
    let run = create_luts("u", "w", addresses);
    let (keys, sent) = run_all(run);
    assert_eq!(keys, vec![key(101)]);
    assert_eq!(sent[0].1, vec![5]);

    // Here a table without an address ends the run.
    let run = create_luts("u", "w", vec![key(1)]);
    let run = run.step(said("Lookup Table Address: none".to_string()));
    assert!(matches!(run.into_result(), Ok(Err(RunError::InvalidAddress(_)))));
}
