use eva01::cache::banks::{
    Account, Bank, BankConfig, BanksCache, BanksError, OracleSetup, ASSET_TAG_DRIFT,
    ASSET_TAG_JUPLEND, ASSET_TAG_KAMINO, ASSET_TAG_SOL, ASSET_TAG_STAKED,
};
use eva01::cache::swb_prices::{SwbPrice, SwbPricesCache};
use eva01::fixed_point::I80F48;
use eva01::juplend_ixs::{make_update_lending_rate_ix, Lending};
use eva01::keyed::{chunks, KeyMap, KeySet};
use eva01::pubkey::Pubkey;
use eva01::utils::integration_account_fetcher::{
    addresses_to_refresh, refreshed, Integration, JUPLEND_TIMESTAMP_OFFSET, KAMINO_SLOT_OFFSET,
};
use eva01::utils::swb_price_fetcher::{
    apply_api_prices, apply_crossbar_prices, crossbar_url, feeds_to_simulate, realprice_url,
    ApiPrice, FeedPrice, FeedResult, PriceFetch, PricesError,
};

fn key(n: u8) -> Pubkey {
    Pubkey::new_from_array([n; 32])
}

fn account(data: Vec<u8>) -> Account {
    Account { lamports: 5, data, owner: key(3), executable: true, rent_epoch: 6 }
}

fn bank(mint: u8, asset_tag: u8, oracle_setup: OracleSetup, feed: u8) -> Bank {
    let mut oracle_keys = [key(0); 5];
    oracle_keys[0] = key(feed);
    Bank {
        mint: key(mint),
        liquidity_vault: key(1),
        insurance_vault: key(1),
        fee_vault: key(1),
        integration_acc_1: key(mint + 100),
        integration_acc_2: key(mint + 101),
        integration_acc_3: key(mint + 102),
        config: BankConfig { asset_tag, oracle_setup, oracle_keys },
    }
}

fn sorted(mut keys: Vec<Pubkey>) -> Vec<u8> {
    keys.sort_by_key(|k| k.bytes);
    keys.into_iter().map(|k| k.bytes[0]).collect()
}

/// Banks at 10 to 15.
fn banks() -> BanksCache {
    let mut c = BanksCache::new();
    let all = [
        (10, bank(20, ASSET_TAG_SOL, OracleSetup::SwitchboardPull, 50)),
        (11, bank(30, ASSET_TAG_STAKED, OracleSetup::SwitchboardPull, 50)),
        (12, bank(40, ASSET_TAG_KAMINO, OracleSetup::KaminoSwitchboardPull, 51)),
        (13, bank(50, ASSET_TAG_DRIFT, OracleSetup::DriftSwitchboardPull, 52)),
        (14, bank(60, ASSET_TAG_JUPLEND, OracleSetup::JuplendSwitchboardPull, 53)),
        (15, bank(60, ASSET_TAG_KAMINO, OracleSetup::Other, 54)),
    ];
    for (address, bank) in all {
        let oracles = vec![bank.config.oracle_keys[0], key(99)];
        c.try_insert(key(address), bank, oracles, account(vec![]));
    }
    c
}

#[test]
fn banks_are_found_by_address_and_mint() {
    let mut c = banks();
    assert_eq!(c.len(), 6);
    let found = c.try_get_bank(&key(12)).unwrap();
    assert_eq!(found.address, key(12));
    assert_eq!(found.bank.mint, key(40));
    assert!(matches!(c.try_get_bank(&key(1)), Err(BanksError::BankNotFound(k)) if k == key(1)));
    assert_eq!(c.try_get_account_for_mint(&key(20)).unwrap(), key(10));
    assert_eq!(c.try_get_account_for_mint(&key(30)).unwrap(), key(11));
    // A bank of an integration is not the bank of its mint.
    assert!(matches!(
        c.try_get_account_for_mint(&key(40)),
        Err(BanksError::MintNotFound(k)) if k == key(40)
    ));
    // A later state replaces an earlier one.
    let again = bank(21, ASSET_TAG_SOL, OracleSetup::Other, 7);
    c.try_insert(key(10), again, vec![], account(vec![]));
    assert_eq!(c.len(), 6);
    assert_eq!(c.try_get_bank(&key(10)).unwrap().bank.mint, key(21));
    assert_eq!(c.try_get_account_for_mint(&key(21)).unwrap(), key(10));
    assert_eq!(c.try_get_account_for_mint(&key(20)).unwrap(), key(10));
}

#[test]
fn keys_are_collected_from_the_banks() {
    let c = banks();
    assert_eq!(sorted(c.get_mints()), vec![20, 30, 40, 50, 60]);
    assert_eq!(sorted(c.get_oracles()), vec![50, 51, 52, 53, 54, 99]);
    assert_eq!(sorted(c.get_banks_for_oracle(&key(50))), vec![10, 11]);
    assert_eq!(sorted(c.get_banks_for_oracle(&key(99))), vec![10, 11, 12, 13, 14, 15]);
    assert!(c.get_banks_for_oracle(&key(1)).is_empty());
    assert_eq!(sorted(c.get_swb_oracles()), vec![50, 51, 52, 53]);
    assert_eq!(sorted(c.get_kamino_reserves()), vec![140, 160]);
    assert_eq!(sorted(c.get_drift_users()), vec![151]);
    assert_eq!(sorted(c.get_juplend_lending_states()), vec![160]);
}

#[test]
fn banks_that_share_a_feed_are_listed_together() {
    let map = banks().get_swb_oracle_to_bank_map();
    assert_eq!(map.len(), 1);
    assert_eq!(sorted(map.get(&key(50)).unwrap().clone()), vec![10, 11]);
    assert!(map.get(&key(51)).is_none());
}

#[test]
fn keyed_collections() {
    let mut m: KeyMap<u32> = KeyMap::new();
    m.insert(key(1), 10);
    m.insert(key(2), 20);
    m.insert(key(1), 11);
    assert_eq!(m.len(), 2);
    assert_eq!(m.get(&key(1)), Some(&11));
    m.retain(|v| *v > 11);
    assert!(!m.contains_key(&key(1)));
    assert_eq!(m.take(&key(2)), Some(20));
    assert_eq!(m.take(&key(2)), None);
    let mut s = KeySet::new();
    s.insert_all(&vec![key(1), key(2), key(1)]);
    s.insert(key(2));
    assert_eq!(s.len(), 2);
    assert!(s.contains(&key(2)) && !s.contains(&key(3)));
    let list: Vec<Pubkey> = (0..7).map(key).collect();
    let cut = chunks(&list, 3);
    assert_eq!(cut, vec![list[..3].to_vec(), list[3..6].to_vec(), list[6..].to_vec()]);
    assert!(chunks(&vec![], 3).is_empty());
}

fn price(n: i128) -> SwbPrice {
    SwbPrice {
        price_realtime: I80F48::from_bits(n),
        conf_realtime: I80F48::from_bits(n + 1),
        price_weighted: I80F48::from_bits(n + 2),
        conf_weighted: I80F48::from_bits(n + 3),
    }
}

#[test]
fn prices_are_kept_by_bank() {
    let mut c = SwbPricesCache::new();
    assert!(c.get(&key(1)).is_none());
    c.upsert(key(1), price(10));
    c.upsert(key(1), price(20));
    assert_eq!(c.get(&key(1)), Some(price(20)));
    assert!(c.get(&key(2)).is_none());
}

#[test]
fn urls_of_the_price_sources() {
    assert_eq!(realprice_url("https://p0.example/"), "https://p0.example/v0/realprice");
    assert_eq!(realprice_url("https://p0.example"), "https://p0.example/v0/realprice");
    assert_eq!(crossbar_url(None), "https://crossbar.switchboard.xyz");
    assert_eq!(crossbar_url(Some("http://own")), "http://own");
}

#[test]
fn crossbar_is_asked_where_the_api_fails() {
    let fetch = PriceFetch::<&'static str>::start(true);
    assert!(matches!(fetch.step(Ok(3)), PriceFetch::Done(Ok(3))));
    let fetch = PriceFetch::<&'static str>::start(true).step(Err("down"));
    assert!(matches!(fetch, PriceFetch::Crossbar));
    assert!(matches!(fetch.step(Err("down too")), PriceFetch::Done(Err("down too"))));
    assert!(matches!(PriceFetch::<()>::start(false), PriceFetch::Crossbar));
}

#[test]
fn prices_of_the_api_are_taken_in() {
    let mut c = SwbPricesCache::new();
    let mut entries = vec![
        ApiPrice { bank: key(1).to_text(), price: Ok(price(10)) },
        ApiPrice { bank: key(2).to_text(), price: Ok(price(20)) },
    ];
    assert_eq!(apply_api_prices(&mut c, &entries).unwrap(), 2);
    assert_eq!(c.get(&key(2)), Some(price(20)));

    entries[0].price = Ok(price(11));
    entries[1].price = Err("invalid float literal".to_string());
    assert!(matches!(
        apply_api_prices(&mut c, &entries),
        Err(PricesError::InvalidPrice { at: 1, error }) if error == "invalid float literal"
    ));
    // Those before it are in.
    assert_eq!(c.get(&key(1)), Some(price(11)));
    entries[1].bank = "bank".to_string();
    match apply_api_prices(&mut c, &entries) {
        Err(PricesError::InvalidAddress { at: 1, error }) => {
            let known = "bank".parse::<solana_sdk::pubkey::Pubkey>().unwrap_err();
            assert_eq!(error, known.to_string());
        }
        other => panic!("{:?}", other),
    }
}

fn feed(n: u8, result: FeedResult) -> FeedPrice {
    FeedPrice { feed: key(n).to_text(), result }
}

#[test]
fn a_crossbar_price_reaches_every_bank_of_its_feed() {
    let feeds = banks().get_swb_oracle_to_bank_map();
    assert_eq!(feeds_to_simulate(&feeds), vec![key(50)]);
    let (p, conf) = (I80F48::from_bits(700), I80F48::from_bits(7));
    let responses = vec![
        feed(51, FeedResult::Unreadable("invalid float literal".to_string())),
        feed(50, FeedResult::Price { price: p, conf }),
        feed(50, FeedResult::Missing),
    ];
    let mut c = SwbPricesCache::new();
    // The first feed is not one of those that were asked for.
    assert_eq!(apply_crossbar_prices(&mut c, &feeds, &responses).unwrap(), 2);
    for bank in [key(10), key(11)] {
        let got = c.get(&bank).unwrap();
        assert_eq!((got.price_realtime, got.price_weighted), (p, p));
        assert_eq!((got.conf_realtime, got.conf_weighted), (conf, conf));
    }
    assert!(c.get(&key(12)).is_none());
}

#[test]
fn crossbar_responses_can_be_wrong() {
    let feeds = banks().get_swb_oracle_to_bank_map();
    let mut c = SwbPricesCache::new();
    let unreadable = vec![
        feed(50, FeedResult::Missing),
        feed(50, FeedResult::Unreadable("invalid float literal".to_string())),
    ];
    assert!(matches!(
        apply_crossbar_prices(&mut c, &feeds, &unreadable),
        Err(PricesError::InvalidPrice { at: 1, error }) if error == "invalid float literal"
    ));
    let nameless = vec![FeedPrice { feed: "?".to_string(), result: FeedResult::Missing }];
    assert!(matches!(
        apply_crossbar_prices(&mut c, &feeds, &nameless),
        Err(PricesError::InvalidAddress { at: 0, .. })
    ));
}

#[test]
fn refreshed_accounts_are_never_stale() {
    let c = banks();
    let addresses = addresses_to_refresh(&c, Integration::Kamino);
    assert_eq!(sorted(addresses.clone()), vec![140, 160]);
    let accounts = vec![None, Some(account(vec![1; 40])), Some(account(vec![]))];
    let updates = refreshed(Integration::Kamino, &addresses, accounts);
    assert_eq!(updates.len(), 1);
    assert_eq!(updates[0].address, addresses[1]);
    let data = &updates[0].account.data;
    assert_eq!(data.len(), 40);
    let slot = &data[KAMINO_SLOT_OFFSET..KAMINO_SLOT_OFFSET + 8];
    assert_eq!(u64::from_le_bytes(slot.try_into().unwrap()), u64::MAX);
    assert!(data[..16].iter().chain(&data[24..]).all(|b| *b == 1));
    assert_eq!(updates[0].account.lamports, 5);
    assert_eq!(updates[0].account.owner, key(3));
    assert!(updates[0].account.executable);
    assert_eq!(updates[0].account.rent_epoch, 6);

    let addresses = addresses_to_refresh(&c, Integration::Juplend);
    let updates = refreshed(Integration::Juplend, &addresses, vec![Some(account(vec![2; 131]))]);
    let data = &updates[0].account.data;
    let time = &data[JUPLEND_TIMESTAMP_OFFSET..JUPLEND_TIMESTAMP_OFFSET + 8];
    assert_eq!(u64::from_le_bytes(time.try_into().unwrap()), i64::MAX as u64);
    assert_eq!(data[122], 2);
}

#[test]
fn short_accounts_are_kept_as_they_are() {
    let addresses = vec![key(1)];
    let updates = refreshed(Integration::Kamino, &addresses, vec![Some(account(vec![1; 23]))]);
    assert_eq!(updates[0].account.data, vec![1; 23]);
    let updates = refreshed(Integration::Juplend, &addresses, vec![Some(account(vec![1; 130]))]);
    assert_eq!(updates[0].account.data, vec![1; 130]);
}

#[test]
fn the_accounts_of_a_rate_update() {
    let lending = Lending {
        mint: key(2),
        f_token_mint: key(3),
        token_reserves_liquidity: key(4),
        rewards_rate_model: key(5),
    };
    let ix = make_update_lending_rate_ix(key(1), &lending);
    let accounts = [
        ix.lending,
        ix.mint,
        ix.f_token_mint,
        ix.supply_token_reserves_liquidity,
        ix.rewards_rate_model,
    ];
    assert_eq!(accounts, [key(1), key(2), key(3), key(4), key(5)]);
}
