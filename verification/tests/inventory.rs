use eva01::cache::banks::{
    Account, Bank, BankConfig, BanksCache, BanksError, OracleSetup, ASSET_TAG_DEFAULT,
};
use eva01::execution::inventory::{
    buy_shortfall, json_or_err, quote_out_amount, sign_swap_tx, AssembleEvent, AssemblePhase,
    AssembleRequest, BuyEvent, BuyPhase, BuyRequest, BuyRun, InventoryError, InventoryStrategy,
    Response, INPUT_BUFFER_BITS,
};
use eva01::execution::executor::Executor;
use eva01::execution::LiquidationIntent;
use eva01::fixed_point::{I80F48, ONE_BITS};
use eva01::pubkey::Pubkey;
use eva01::time::Instant;
use solana_sdk::message::{Message, VersionedMessage};
use solana_sdk::signature::Keypair;
use solana_sdk::signer::Signer;
use solana_sdk::transaction::VersionedTransaction;

type Error = InventoryError<&'static str>;

fn fixed(n: i128) -> I80F48 {
    I80F48::from_bits(n * ONE_BITS)
}

fn key(n: u8) -> Pubkey {
    Pubkey::new_from_array([n; 32])
}

fn wallet() -> Keypair {
    solana_sdk::signer::keypair::keypair_from_seed(&[7; 32]).unwrap()
}

fn strategy() -> InventoryStrategy {
    strategy_that_repays(I80F48::from_bits(ONE_BITS / 2))
}

fn strategy_that_repays(share: I80F48) -> InventoryStrategy {
    let url = "https://api.example/swap/v1".to_string();
    InventoryStrategy::new(wallet().to_bytes().to_vec(), key(9), url, 50, share).unwrap()
}

#[test]
fn a_strategy_needs_a_key_pair() {
    let url = "https://api.example/swap/v1".to_string();
    assert!(InventoryStrategy::new(vec![1, 2, 3], key(9), url, 50, fixed(1)).is_none());
    assert_eq!(strategy().swap_mint(), key(9));
}

fn object(name: &str, value: &str) -> String {
    let mut map = serde_json::Map::new();
    map.insert(name.to_string(), serde_json::Value::String(value.to_string()));
    serde_json::Value::Object(map).to_string()
}

fn ok(body: String) -> Response {
    Response { success: true, status: "200 OK".to_string(), body }
}

/// A message that the wallet has to sign, and the transaction as a swap API hands it out.
fn unsigned() -> (VersionedMessage, String) {
    let payer = wallet().pubkey();
    let message = VersionedMessage::Legacy(Message::new_with_blockhash(
        &[],
        Some(&payer),
        &solana_sdk::hash::Hash::new_from_array([3; 32]),
    ));
    let tx = VersionedTransaction {
        signatures: vec![solana_sdk::signature::Signature::default()],
        message: message.clone(),
    };
    let bytes = bincode::serialize(&tx).unwrap();
    let text = base64::Engine::encode(&base64::engine::general_purpose::STANDARD, bytes);
    (message, text)
}

fn signed_bytes() -> Vec<u8> {
    let (message, _) = unsigned();
    let tx = VersionedTransaction::try_new(message, &[&wallet()]).unwrap();
    bincode::serialize(&tx).unwrap()
}

#[test]
fn test_buy_shortfall_partial() {
    assert_eq!(buy_shortfall(fixed(1000), 600), 400);
}

#[test]
fn test_buy_shortfall_covered() {
    assert_eq!(buy_shortfall(fixed(1000), 1000), 0);
    assert_eq!(buy_shortfall(fixed(1000), 1500), 0);
}

#[test]
fn test_buy_shortfall_empty_wallet() {
    assert_eq!(buy_shortfall(fixed(1000), 0), 1000);
}

#[test]
fn test_buy_shortfall_truncates_like_repay() {
    let repay = I80F48::from_bits(fixed::types::I80F48::from_num(1000.9).to_bits());
    assert_eq!(buy_shortfall(repay, 0), 1000);
}

#[test]
fn test_quote_out_amount_parses_string() {
    let q = object("outAmount", "1908764533");
    assert_eq!(quote_out_amount::<()>(&q).unwrap(), 1908764533);
}

#[test]
fn test_quote_out_amount_missing() {
    let q = object("inAmount", "100");
    assert!(quote_out_amount::<()>(&q).is_err());
}

#[test]
fn quote_out_amount_tells_the_errors_apart() {
    let missing = object("inAmount", "100");
    match quote_out_amount::<()>(&missing) {
        Err(InventoryError::MissingOutAmount { quote }) => assert_eq!(quote, missing),
        other => panic!("{:?}", other),
    }
    for bad in ["", "-1", "1.5", "18446744073709551616", "12x"] {
        let q = object("outAmount", bad);
        let e = quote_out_amount::<()>(&q).unwrap_err();
        let reason = bad.parse::<u64>().unwrap_err();
        assert_eq!(
            e.message().unwrap(),
            format!("Jupiter quote outAmount not a u64: {}", reason)
        );
        match e {
            InventoryError::OutAmountNotU64 { error } => assert_eq!(error, reason.to_string()),
            other => panic!("{:?}", other),
        }
    }
    let e = quote_out_amount::<()>(&object("outAmount", "12x")).unwrap_err();
    assert_eq!(
        e.message().unwrap(),
        "Jupiter quote outAmount not a u64: invalid digit found in string"
    );
    let largest = object("outAmount", "18446744073709551615");
    assert_eq!(quote_out_amount::<()>(&largest).unwrap(), u64::MAX);
    // A number that is not in a string is no output amount.
    assert!(matches!(
        quote_out_amount::<()>("{\"outAmount\":5}"),
        Err(InventoryError::MissingOutAmount { .. })
    ));
}

#[test]
fn the_input_buffer_is_two_percent() {
    assert_eq!(INPUT_BUFFER_BITS, fixed::types::I80F48::from_num(1.02).to_bits());
}

#[test]
fn answers_are_read_as_json() {
    let spaced = ok("{ \"b\" : 1,\n \"a\" : [ ] }".to_string());
    assert_eq!(json_or_err::<()>(spaced, "Jupiter quote").unwrap(), "{\"a\":[],\"b\":1}");

    let e: Error = json_or_err(ok("not json".to_string()), "Jupiter quote").unwrap_err();
    let message = e.message().unwrap();
    assert!(message.starts_with("Jupiter quote: invalid JSON ("));
    assert!(message.ends_with("): not json"));
}

#[test]
fn failures_carry_their_body() {
    let refused = Response {
        success: false,
        status: "400 Bad Request".to_string(),
        body: "{\"errorCode\":\"NO_ROUTES_FOUND\"}".to_string(),
    };
    let e: Error = json_or_err(refused, "Jupiter quote").unwrap_err();
    assert_eq!(
        e.message().unwrap(),
        "Jupiter quote failed (400 Bad Request): {\"errorCode\":\"NO_ROUTES_FOUND\"}"
    );
}

#[test]
fn an_answer_without_routes_quarantines_the_mint() {
    let s = strategy();
    let r = buy_until_quote(&s, 40);
    let refused = Response {
        success: false,
        status: "400 Bad Request".to_string(),
        body: "{\"errorCode\":\"NO_ROUTES_FOUND\"}".to_string(),
    };
    let r = s.buy_step(r, BuyEvent::Answer(refused));
    let message = match r.phase {
        BuyPhase::Done(Err(e)) => e.message().unwrap(),
        other => panic!("{:?}", other),
    };
    let now = Instant { nanos: 0 };
    let mut executor = Executor::new();
    executor.note_assemble_failure(&key(5), key(1), &message, now);
    assert!(executor.is_backed_off(&key(1), now));
    assert!(!executor.is_backed_off(&key(5), now));
}

#[test]
fn tokens_are_valued_by_the_bank_of_their_mint() {
    let banks = banks();
    let bank = InventoryStrategy::value_bank(&banks, &key(1)).unwrap();
    assert_eq!(bank.address, key(2));
    assert!(matches!(
        InventoryStrategy::value_bank(&banks, &key(9)),
        Err(BanksError::MintNotFound(k)) if k == key(9)
    ));
}

#[test]
fn amounts_that_do_not_fit_are_told_beforehand() {
    let s = strategy();
    let negative = intent(key(2), I80F48::from_bits(-ONE_BITS));
    let r = s.assemble::<&'static str>(&banks(), &negative).unwrap();
    assert!(!s.can_take(&r, &AssembleEvent::Balance(None)));
    let r = s.assemble::<&'static str>(&banks(), &intent(key(2), fixed(200))).unwrap();
    assert!(s.can_take(&r, &AssembleEvent::Balance(None)));
    let r = s.assemble_step(r, AssembleEvent::Balance(None));
    let r = s.assemble_step(r, AssembleEvent::Buy(BuyEvent::Value(fixed(1))));
    let too_much = I80F48::from_bits(i128::MAX);
    assert!(!s.can_take(&r, &AssembleEvent::Buy(BuyEvent::Amount(too_much))));
    assert!(s.can_take(&r, &AssembleEvent::Buy(BuyEvent::Amount(fixed(1)))));
}

#[test]
fn errors_say_what_they_are() {
    let zero: Error = InventoryError::ZeroInput { min_out: 17, output_mint: key(0) };
    assert_eq!(
        zero.message().unwrap(),
        "computed zero swap_mint input for buying 17 11111111111111111111111111111111"
    );
    let short: Error = InventoryError::StillShort { out: 3, min_out: 40 };
    assert_eq!(
        short.message().unwrap(),
        "Jupiter ExactIn quote still short after re-quote: out 3 < needed 40"
    );
    let bank: Error = InventoryError::Bank(BanksError::BankNotFound(key(0)));
    assert_eq!(
        bank.message().unwrap(),
        "Failed to find the Bank 11111111111111111111111111111111 in Cache!"
    );
    assert_eq!(
        BanksError::MintNotFound(key(0)).message(),
        "Failed to find Bank for the Mint 11111111111111111111111111111111 in Cache!"
    );
    let missing: Error = InventoryError::MissingOutAmount { quote: "{}".to_string() };
    assert_eq!(missing.message().unwrap(), "Jupiter quote missing outAmount: {}");
    let no_tx: Error = InventoryError::MissingSwapTransaction { response: "{}".to_string() };
    assert_eq!(no_tx.message().unwrap(), "Jupiter swap response missing swapTransaction: {}");
    let repay: Error = InventoryError::RepayOverflow;
    assert_eq!(repay.message().unwrap(), "repay amount overflow");
    let sizing: Error = InventoryError::SizingOverflow;
    assert_eq!(sizing.message().unwrap(), "input sizing overflow");
    assert!(Error::Outside("down").message().is_none());
}

#[test]
fn swap_transactions_are_decoded_and_signed() {
    let (_, text) = unsigned();
    let keypair = wallet().to_bytes().to_vec();
    let signed = sign_swap_tx::<()>(&object("swapTransaction", &text), &keypair).unwrap();
    assert_eq!(signed, signed_bytes());

    assert!(matches!(
        sign_swap_tx::<()>("{}", &keypair),
        Err(InventoryError::MissingSwapTransaction { .. })
    ));
    match sign_swap_tx::<()>(&object("swapTransaction", "***"), &keypair) {
        Err(e) => assert!(e
            .message()
            .unwrap()
            .starts_with("Failed to base64-decode Jupiter swap tx: ")),
        other => panic!("{:?}", other),
    }
    match sign_swap_tx::<()>(&object("swapTransaction", "AAAA"), &keypair) {
        Err(e) => {
            assert!(e.message().unwrap().starts_with("Failed to deserialize Jupiter swap tx: "))
        }
        other => panic!("{:?}", other),
    }
    // Another wallet's key does not sign it.
    let other = Keypair::new().to_bytes().to_vec();
    assert!(matches!(
        sign_swap_tx::<()>(&object("swapTransaction", &text), &other),
        Err(InventoryError::Sign(_))
    ));
}

#[test]
fn requests_to_the_swap_api() {
    let s = strategy();
    assert_eq!(s.name(), "inventory");
    assert_eq!(s.quote_url(), "https://api.example/swap/v1/quote");
    assert_eq!(s.swap_url(), "https://api.example/swap/v1/swap");
    let params = s.quote_params(&key(0), &key(1), 12345);
    let one = key(1).to_text();
    let expected = [
        ("inputMint", "11111111111111111111111111111111"),
        ("outputMint", one.as_str()),
        ("amount", "12345"),
        ("swapMode", "ExactIn"),
        ("slippageBps", "50"),
    ];
    assert_eq!(params.len(), expected.len());
    for (param, (name, value)) in params.iter().zip(expected) {
        assert_eq!(param.0, name);
        assert_eq!(param.1, value);
    }
    let body = s.swap_body("{\"outAmount\":\"5\"}");
    let mut map = serde_json::Map::new();
    map.insert(
        "userPublicKey".to_string(),
        serde_json::Value::String(wallet().pubkey().to_string()),
    );
    let quote = serde_json::from_str("{\"outAmount\":\"5\"}").unwrap();
    map.insert("quoteResponse".to_string(), quote);
    map.insert("wrapAndUnwrapSol".to_string(), serde_json::Value::Bool(false));
    assert_eq!(body, serde_json::Value::Object(map).to_string());
}

fn buy_until_quote(s: &InventoryStrategy, min_out: u64) -> BuyRun<&'static str> {
    let r = s.build_buy_tx::<&'static str>(key(1), min_out);
    assert!(matches!(s.buy_request(&r), BuyRequest::Value { mint, amount }
        if mint == key(1) && amount == min_out));
    let r = s.buy_step(r, BuyEvent::Value(fixed(100)));
    match s.buy_request(&r) {
        BuyRequest::Amount { mint, value } => {
            assert_eq!(mint, key(9));
            let expected = fixed::types::I80F48::from_num(100)
                .checked_mul(fixed::types::I80F48::from_num(1.02))
                .unwrap();
            assert_eq!(value.bits, expected.to_bits());
        }
        other => panic!("{:?}", other),
    }
    let r = s.buy_step(r, BuyEvent::Amount(fixed(102)));
    assert!(matches!(s.buy_request(&r), BuyRequest::Quote { input_mint, output_mint, amount: 102 }
        if input_mint == key(9) && output_mint == key(1)));
    r
}

#[test]
fn a_purchase_with_a_good_quote() {
    let s = strategy();
    let r = buy_until_quote(&s, 40);
    let quote = object("outAmount", "40");
    let r = s.buy_step(r, BuyEvent::Answer(ok(quote.clone())));
    assert!(matches!(s.buy_request(&r), BuyRequest::Swap { quote: q } if q == quote));
    let (_, text) = unsigned();
    let r = s.buy_step(r, BuyEvent::Answer(ok(object("swapTransaction", &text))));
    assert!(matches!(s.buy_request(&r), BuyRequest::Nothing));
    assert!(matches!(r.phase, BuyPhase::Done(Ok(tx)) if tx == signed_bytes()));
}

#[test]
fn a_short_quote_raises_the_input_once() {
    let s = strategy();
    let r = buy_until_quote(&s, 40);
    let r = s.buy_step(r, BuyEvent::Answer(ok(object("outAmount", "39"))));
    assert!(matches!(
        s.buy_request(&r),
        BuyRequest::Raise { input: 102, out: 39, min_out: 40 }
    ));
    let r = s.buy_step(r, BuyEvent::Raised(107));
    assert!(matches!(s.buy_request(&r), BuyRequest::Quote { amount: 107, .. }));
    let r = s.buy_step(r, BuyEvent::Answer(ok(object("outAmount", "38"))));
    assert!(matches!(
        r.phase,
        BuyPhase::Done(Err(InventoryError::StillShort { out: 38, min_out: 40 }))
    ));
}

#[test]
fn a_purchase_can_fail() {
    let s = strategy();
    let r = s.build_buy_tx::<&'static str>(key(1), 40);
    let r = s.buy_step(r, BuyEvent::Value(I80F48::from_bits(i128::MAX)));
    assert!(matches!(r.phase, BuyPhase::Done(Err(InventoryError::SizingOverflow))));

    let r = s.build_buy_tx::<&'static str>(key(1), 40);
    let r = s.buy_step(r, BuyEvent::Value(fixed(1)));
    let r = s.buy_step(r, BuyEvent::Amount(I80F48::from_bits(ONE_BITS - 1)));
    assert!(matches!(
        r.phase,
        BuyPhase::Done(Err(InventoryError::ZeroInput { min_out: 40, .. }))
    ));

    let r = s.build_buy_tx::<&'static str>(key(1), 40);
    let r = s.buy_step(r, BuyEvent::Failed("no price"));
    assert!(matches!(r.phase, BuyPhase::Done(Err(InventoryError::Outside("no price")))));

    // An event that does not answer the request changes nothing.
    let r = s.build_buy_tx::<&'static str>(key(1), 40);
    let r = s.buy_step(r, BuyEvent::Raised(5));
    assert!(matches!(r.phase, BuyPhase::Valuing));
}

fn banks() -> BanksCache {
    let mut banks = BanksCache::new();
    let bank = Bank {
        mint: key(1),
        liquidity_vault: key(20),
        insurance_vault: key(21),
        fee_vault: key(22),
        integration_acc_1: key(0),
        integration_acc_2: key(0),
        integration_acc_3: key(0),
        config: BankConfig {
            asset_tag: ASSET_TAG_DEFAULT,
            oracle_setup: OracleSetup::Other,
            oracle_keys: [key(0); 5],
        },
    };
    let account =
        Account { lamports: 1, data: vec![], owner: key(3), executable: false, rent_epoch: 0 };
    banks.try_insert(key(2), bank, vec![], account);
    banks
}

fn intent(liab_bank: Pubkey, liab_amount: I80F48) -> LiquidationIntent {
    LiquidationIntent {
        liquidatee: key(5),
        asset_bank: key(6),
        liab_bank,
        asset_amount: fixed(77),
        liab_amount,
        swb_oracles: vec![],
    }
}

#[test]
fn a_covered_liquidation_needs_no_purchase() {
    let s = strategy();
    let r = s.assemble::<&'static str>(&banks(), &intent(key(2), fixed(1000))).unwrap();
    assert!(matches!(s.assemble_request(&r), AssembleRequest::Balance(mint) if mint == key(1)));
    let r = s.assemble_step(r, AssembleEvent::Balance(Some(500)));
    match s.assemble_request(&r) {
        AssembleRequest::BuildLiquidation { asset_amount, repay_amount } => {
            assert_eq!(asset_amount, fixed(77));
            assert_eq!(repay_amount, fixed(500));
        }
        other => panic!("{:?}", other),
    }
    let built = AssembleEvent::Built { tx: vec![1, 2], temp_lut: Some(key(8)) };
    let r = s.assemble_step(r, built);
    match r.phase {
        AssemblePhase::Done(Ok(plan)) => {
            assert_eq!(plan.txs, vec![vec![1, 2]]);
            assert_eq!(plan.temp_luts, vec![key(8)]);
        }
        other => panic!("{:?}", other),
    }
}

#[test]
fn a_plan_buys_first() {
    let s = strategy();
    let r = s.assemble::<&'static str>(&banks(), &intent(key(2), fixed(1000))).unwrap();
    let r = s.assemble_step(r, AssembleEvent::Balance(None));
    assert!(matches!(
        s.assemble_request(&r),
        AssembleRequest::Buy(BuyRequest::Value { amount: 500, .. })
    ));
    let r = s.assemble_step(r, AssembleEvent::Buy(BuyEvent::Value(fixed(10))));
    let r = s.assemble_step(r, AssembleEvent::Buy(BuyEvent::Amount(fixed(10))));
    let quote = BuyEvent::Answer(ok(object("outAmount", "501")));
    let r = s.assemble_step(r, AssembleEvent::Buy(quote));
    let (_, text) = unsigned();
    let swap = BuyEvent::Answer(ok(object("swapTransaction", &text)));
    let r = s.assemble_step(r, AssembleEvent::Buy(swap));
    assert!(matches!(s.assemble_request(&r), AssembleRequest::BuildLiquidation { .. }));
    let r = s.assemble_step(r, AssembleEvent::Built { tx: vec![9], temp_lut: None });
    match r.phase {
        AssemblePhase::Done(Ok(plan)) => {
            assert_eq!(plan.txs, vec![signed_bytes(), vec![9]]);
            assert!(plan.temp_luts.is_empty());
        }
        other => panic!("{:?}", other),
    }
}

#[test]
fn an_assembly_can_fail() {
    let s = strategy();
    match s.assemble::<&'static str>(&banks(), &intent(key(99), fixed(1))) {
        Err(InventoryError::Bank(BanksError::BankNotFound(k))) => assert_eq!(k, key(99)),
        other => panic!("{:?}", other),
    }
    let large = strategy_that_repays(fixed(2));
    assert!(matches!(
        large.assemble::<&'static str>(&banks(), &intent(key(2), I80F48::from_bits(i128::MAX))),
        Err(InventoryError::RepayOverflow)
    ));
    let r = s.assemble::<&'static str>(&banks(), &intent(key(2), fixed(2))).unwrap();
    let r = s.assemble_step(r, AssembleEvent::Balance(Some(5)));
    let r = s.assemble_step(r, AssembleEvent::Failed("no table"));
    assert!(matches!(
        r.phase,
        AssemblePhase::Done(Err(InventoryError::Outside("no table")))
    ));

    // A purchase that fails ends the assembly.
    let r = s.assemble::<&'static str>(&banks(), &intent(key(2), fixed(200))).unwrap();
    let r = s.assemble_step(r, AssembleEvent::Balance(Some(5)));
    let r = s.assemble_step(r, AssembleEvent::Buy(BuyEvent::Failed("no price")));
    assert!(matches!(
        r.phase,
        AssemblePhase::Done(Err(InventoryError::Outside("no price")))
    ));
}
