use eva01::pubkey::Pubkey;
use eva01::time::Instant;
use eva01::transaction::{is_encodable, Instruction, InstructionAccount, LookupTable, LIST_MAX};
use eva01::utils::client_error::{ClientError, ClientErrorKind, RpcError};
use eva01::utils::simulation_cache::is_tx_too_large_client;
use eva01::utils::swb_cranker::{
    is_stale_swb_price_error, CrankRun, CrankTxError, SwbCranker, CHUNK_SIZE, SWB_STALE_HANDLED_ERROR,
    SWB_STALE_PRICE_ERROR_CODE, SWB_STALE_PRICE_ERROR_CODE_NUMBER,
};

fn key(n: u8) -> Pubkey {
    Pubkey::new_from_array([n; 32])
}

fn keys(range: std::ops::Range<u8>) -> Vec<Pubkey> {
    range.map(key).collect()
}

fn at(secs: u128) -> Instant {
    Instant { nanos: secs * 1_000_000_000 }
}

fn response(code: i64, message: &str) -> ClientError {
    let rpc = RpcError::RpcResponseError { code, message: message.to_string() };
    ClientError { kind: ClientErrorKind::RpcError(rpc) }
}

#[test]
fn test_is_stale_swb_price_true_transaction_error() {
    let err = response(-32000, SWB_STALE_PRICE_ERROR_CODE);
    assert!(is_stale_swb_price_error(&err));
}

#[test]
fn test_is_stale_swb_price_false_wrong_custom_code() {
    let err = response(-32000, "12a4");
    assert!(!is_stale_swb_price_error(&err));
}

#[test]
fn test_is_stale_swb_price_false_other_instruction_error() {
    let err = ClientError {
        kind: ClientErrorKind::RpcError(RpcError::ParseError("Test error".to_string())),
    };
    assert!(!is_stale_swb_price_error(&err));
}

#[test]
fn test_is_stale_swb_price_false_wrong_code() {
    let err = ClientError { kind: ClientErrorKind::Custom("Some other error".to_string()) };
    assert!(!is_stale_swb_price_error(&err));
}

#[test]
fn test_is_stale_swb_price_false_other_kind() {
    let err = ClientError { kind: ClientErrorKind::Io("io error".to_string()) };
    assert!(!is_stale_swb_price_error(&err));
}

#[test]
fn the_stale_price_code_is_found_inside_a_message() {
    assert!(is_stale_swb_price_error(&response(1, "custom program error: 0x17a1")));
    assert!(!is_stale_swb_price_error(&response(1, "custom program error: 0x17A1")));
    assert_eq!(
        u32::from_str_radix(SWB_STALE_PRICE_ERROR_CODE, 16).unwrap(),
        SWB_STALE_PRICE_ERROR_CODE_NUMBER
    );
    assert_eq!(SWB_STALE_HANDLED_ERROR, "STALE HANDLED");
}

#[test]
fn transactions_that_are_too_large() {
    let large = "VersionedTransaction too large: 1300 bytes";
    assert!(is_tx_too_large_client(&response(-32602, large)));
    assert!(!is_tx_too_large_client(&response(-32601, large)));
    assert!(!is_tx_too_large_client(&response(-32602, "too small")));
    for rpc in [
        RpcError::RpcRequestError(large.to_string()),
        RpcError::ForUser(large.to_string()),
    ] {
        assert!(is_tx_too_large_client(&ClientError { kind: ClientErrorKind::RpcError(rpc) }));
    }
    let parse = RpcError::ParseError(large.to_string());
    assert!(!is_tx_too_large_client(&ClientError { kind: ClientErrorKind::RpcError(parse) }));
    assert!(!is_tx_too_large_client(&ClientError {
        kind: ClientErrorKind::Custom(large.to_string())
    }));
    assert!(!is_tx_too_large_client(&ClientError {
        kind: ClientErrorKind::Other(large.to_string())
    }));
}

#[test]
fn feeds_in_quarantine_are_filtered_until_it_ends() {
    let mut cranker = SwbCranker::new();
    cranker.quarantine_oracles(&keys(1..3), at(100));
    assert_eq!(cranker.filter_quarantined_oracles(&keys(0..4), at(100)), vec![key(0), key(3)]);
    assert_eq!(cranker.filter_quarantined_oracles(&keys(0..4), at(699)), vec![key(0), key(3)]);
    assert_eq!(cranker.filter_quarantined_oracles(&keys(0..4), at(700)), keys(0..4));
}

#[test]
fn feeds_are_cranked_in_chunks() {
    let mut cranker = SwbCranker::new();
    let mut run = cranker.crank_oracles(&keys(0..14), at(0));
    let mut sizes = vec![];
    while let Some(feeds) = run.request() {
        sizes.push(feeds.len());
        run = cranker.step(run, true, at(0));
    }
    assert_eq!(sizes, vec![CHUNK_SIZE, CHUNK_SIZE, 2]);
}

#[test]
fn nothing_is_cranked_without_feeds() {
    let mut cranker = SwbCranker::new();
    assert!(cranker.crank_oracles(&vec![], at(0)).request().is_none());
    cranker.quarantine_oracles(&keys(0..2), at(0));
    assert!(cranker.crank_oracles(&keys(0..2), at(1)).request().is_none());
}

/// Fails the first chunk as a whole, and then each of its feeds that is in `bad`.
fn crank_with_failures(cranker: &mut SwbCranker, feeds: &Vec<Pubkey>, bad: &[Pubkey]) -> usize {
    let mut run: CrankRun = cranker.crank_oracles(feeds, at(1000));
    let mut cranks = 0;
    while let Some(asked) = run.request() {
        cranks += 1;
        let ok = !asked.iter().any(|k| bad.contains(k));
        run = cranker.step(run, ok, at(1000));
    }
    cranks
}

#[test]
fn feeds_that_fail_alone_are_quarantined() {
    let mut cranker = SwbCranker::new();
    let feeds = keys(0..8);
    // One crank for the first chunk, six for its feeds, one for the second chunk.
    assert_eq!(crank_with_failures(&mut cranker, &feeds, &[key(2), key(4)]), 8);
    let rest = cranker.filter_quarantined_oracles(&feeds, at(1001));
    assert_eq!(rest, vec![key(0), key(1), key(3), key(5), key(6), key(7)]);
}

#[test]
fn a_chunk_that_fails_as_a_whole_is_not_quarantined() {
    let mut cranker = SwbCranker::new();
    let feeds = keys(0..8);
    assert_eq!(crank_with_failures(&mut cranker, &feeds, &keys(0..6)), 8);
    assert_eq!(cranker.filter_quarantined_oracles(&feeds, at(1001)), feeds);
}

#[test]
fn a_chunk_that_recovers_is_not_quarantined() {
    let mut cranker = SwbCranker::new();
    let feeds = keys(0..2);
    let run = cranker.crank_oracles(&feeds, at(0));
    let run = cranker.step(run, false, at(0));
    assert_eq!(run.request().unwrap(), vec![key(0)]);
    assert_eq!(run.pending(), feeds);
    let run = cranker.step(run, true, at(0));
    assert_eq!(run.request().unwrap(), vec![key(1)]);
    let run = cranker.step(run, true, at(0));
    assert!(run.request().is_none());
    assert_eq!(cranker.filter_quarantined_oracles(&feeds, at(1)), feeds);
}

fn wallet() -> solana_sdk::signature::Keypair {
    solana_sdk::signer::keypair::keypair_from_seed(&[7; 32]).unwrap()
}

/// An instruction on an account in a lookup table and one that is not, for the wallet to sign.
fn instruction(data: Vec<u8>) -> Instruction {
    let payer = Pubkey::new_from_array(solana_sdk::signer::Signer::pubkey(&wallet()).to_bytes());
    Instruction {
        program_id: key(60),
        accounts: vec![
            InstructionAccount { key: payer, is_signer: true, is_writable: true },
            InstructionAccount { key: key(61), is_signer: false, is_writable: true },
            InstructionAccount { key: key(62), is_signer: false, is_writable: false },
        ],
        data,
    }
}

#[test]
fn crank_transactions_are_compiled_and_signed() {
    let tables = vec![LookupTable { key: key(63), addresses: vec![key(64), key(61)] }];
    let keypair = wallet().to_bytes().to_vec();
    let tx =
        SwbCranker::build_crank_tx(&keypair, &vec![instruction(vec![1, 2])], &tables, [9; 32])
            .unwrap();

    let outside = |k: Pubkey| solana_sdk::pubkey::Pubkey::new_from_array(k.bytes);
    let payer = solana_sdk::signer::Signer::pubkey(&wallet());
    let message = solana_sdk::message::v0::Message::try_compile(
        &payer,
        &[solana_sdk::instruction::Instruction {
            program_id: outside(key(60)),
            accounts: vec![
                solana_sdk::instruction::AccountMeta::new(payer, true),
                solana_sdk::instruction::AccountMeta::new(outside(key(61)), false),
                solana_sdk::instruction::AccountMeta::new_readonly(outside(key(62)), false),
            ],
            data: vec![1, 2],
        }],
        &[solana_sdk::message::AddressLookupTableAccount {
            key: outside(key(63)),
            addresses: vec![outside(key(64)), outside(key(61))],
        }],
        solana_sdk::hash::Hash::new_from_array([9; 32]),
    )
    .unwrap();
    assert_eq!(message.address_table_lookups.len(), 1);
    let expected = solana_sdk::transaction::VersionedTransaction::try_new(
        solana_sdk::message::VersionedMessage::V0(message),
        &[&wallet()],
    )
    .unwrap();
    assert_eq!(tx, bincode::serialize(&expected).unwrap());
}

#[test]
fn crank_transactions_can_fail() {
    let keypair = wallet().to_bytes().to_vec();
    let build = |keypair: &Vec<u8>, instructions: Vec<Instruction>| {
        SwbCranker::build_crank_tx(keypair, &instructions, &vec![], [9; 32])
    };
    assert!(matches!(build(&vec![1], vec![]), Err(CrankTxError::InvalidKeypair)));
    // More accounts than a transaction can name.
    let mut accounts = vec![];
    for i in 0..300u16 {
        let mut bytes = [0; 32];
        bytes[..2].copy_from_slice(&i.to_le_bytes());
        let key = Pubkey::new_from_array(bytes);
        accounts.push(InstructionAccount { key, is_signer: false, is_writable: true });
    }
    let wide = Instruction { program_id: key(60), accounts, data: vec![] };
    match build(&keypair, vec![wide]) {
        Err(CrankTxError::Compile(e)) => {
            assert_eq!(e, "account index overflowed during compilation")
        }
        other => panic!("{:?}", other),
    }
    // Another signer is needed.
    let mut foreign = instruction(vec![]);
    foreign.accounts[1].is_signer = true;
    assert!(matches!(build(&keypair, vec![foreign]), Err(CrankTxError::Sign(_))));
}

#[test]
fn messages_hold_lists_up_to_a_length() {
    assert!(is_encodable(&vec![instruction(vec![0; LIST_MAX])]));
    assert!(!is_encodable(&vec![instruction(vec![]), instruction(vec![0; LIST_MAX + 1])]));
    let keypair = wallet().to_bytes().to_vec();
    let longest = vec![instruction(vec![0; LIST_MAX])];
    assert!(SwbCranker::build_crank_tx(&keypair, &longest, &vec![], [9; 32]).is_ok());
}
