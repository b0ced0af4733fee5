use eva01::fixed_point::{I80F48, ONE_BITS};
use eva01::keyed::KeyMap;
use eva01::pubkey::Pubkey;
use eva01::rebalancer::{
    backoff_delay, Rebalancer, SellEvent, SellRequest, SellRun, Swap, SwapError,
};
use eva01::time::Instant;

type Event = SellEvent<&'static str>;

fn key(n: u8) -> Pubkey {
    Pubkey::new_from_array([n; 32])
}

fn fixed(n: i128) -> I80F48 {
    I80F48::from_bits(n * ONE_BITS)
}

fn at(secs: u128) -> Instant {
    Instant { nanos: secs * 1_000_000_000 }
}

/// The reserve is token 9; token 2 has a threshold of 50, the others one of 10.
fn rebalancer() -> Rebalancer {
    let mut thresholds = KeyMap::new();
    thresholds.insert(key(2), fixed(50));
    Rebalancer::new(key(9), fixed(10), thresholds)
}

fn run(r: &Rebalancer, mints: &[u8], now: u128) -> SellRun<&'static str> {
    r.run(mints.iter().map(|n| key(*n)).collect(), at(now))
}

fn assert_values(run: &SellRun<&'static str>, mint: u8) {
    match run.request() {
        SellRequest::Value(k) => assert_eq!(k, key(mint)),
        other => panic!("{:?}", other),
    }
}

#[test]
fn route_backoff_doubles_up_to_its_cap() {
    let secs = [60, 60, 120, 240, 480, 960, 1920, 3600, 3600];
    for (failures, expected) in secs.iter().enumerate() {
        assert_eq!(backoff_delay(failures as u32).as_secs(), *expected);
    }
    assert_eq!(backoff_delay(20).as_secs(), 3600);
    assert_eq!(backoff_delay(u32::MAX).as_secs(), 3600);
}

#[test]
fn swaps_of_nothing_or_into_the_same_token_are_refused() {
    assert!(matches!(Swap::new(5, key(1), key(1)), Err(SwapError::SameMint(k)) if k == key(1)));
    assert!(matches!(Swap::new(0, key(1), key(1)), Err(SwapError::SameMint(_))));
    assert!(matches!(Swap::new(0, key(1), key(9)), Err(SwapError::ZeroAmount(k)) if k == key(1)));
    let swap = Swap::new(5, key(1), key(9)).unwrap();
    assert_eq!((swap.amount, swap.input_mint, swap.output_mint), (5, key(1), key(9)));
}

#[test]
fn what_exceeds_half_of_the_threshold_is_sold() {
    let mut r = rebalancer();
    let c = run(&r, &[9, 1], 0);
    // The reserve's token is passed over.
    assert_values(&c, 1);
    let c = r.step(c, Event::Value(fixed(11)), at(0));
    match c.request() {
        SellRequest::Amount { mint, value } => {
            assert_eq!(mint, key(1));
            assert_eq!(value, fixed(6));
        }
        other => panic!("{:?}", other),
    }
    let c = r.step(c, Event::Amount(I80F48::from_bits(600 * ONE_BITS + 1)), at(0));
    match c.request() {
        SellRequest::Swap(swap) => {
            assert_eq!((swap.amount, swap.input_mint, swap.output_mint), (600, key(1), key(9)));
        }
        other => panic!("{:?}", other),
    }
    let c = r.step(c, Event::Swapped, at(0));
    assert!(matches!(c.request(), SellRequest::Nothing));
    assert!(matches!(c.into_result(), Some(Ok(()))));
}

#[test]
fn odd_thresholds_are_halved_towards_zero() {
    let mut r = Rebalancer::new(key(9), I80F48::from_bits(5), KeyMap::new());
    let c = run(&r, &[1], 0);
    let c = r.step(c, Event::Value(I80F48::from_bits(6)), at(0));
    assert!(matches!(c.request(), SellRequest::Amount { value, .. } if value.bits == 4));
    let half = fixed::types::I80F48::from_bits(5) / 2;
    assert_eq!(half.to_bits(), 2);
    let half = fixed::types::I80F48::from_bits(-5) / 2;
    assert_eq!(half.to_bits(), -2);
    assert_eq!(I80F48::from_bits(-5).half().bits, -2);
}

#[test]
fn tokens_at_their_threshold_are_kept() {
    let mut r = rebalancer();
    let c = run(&r, &[1, 2, 3], 0);
    let c = r.step(c, Event::Value(fixed(10)), at(0));
    // Token 2 has a threshold of its own.
    assert_values(&c, 2);
    let c = r.step(c, Event::Value(fixed(50)), at(0));
    assert_values(&c, 3);
}

#[test]
fn an_amount_below_one_unit_is_not_swapped() {
    let mut r = rebalancer();
    let c = run(&r, &[1, 2], 0);
    let c = r.step(c, Event::Value(fixed(11)), at(0));
    let c = r.step(c, Event::Amount(I80F48::from_bits(ONE_BITS - 1)), at(0));
    assert_values(&c, 2);
}

fn fail_swap(r: &mut Rebalancer, message: &str, now: u128) {
    let c = run(r, &[1], now);
    assert_values(&c, 1);
    let c = r.step(c, Event::Value(fixed(11)), at(now));
    let c = r.step(c, Event::Amount(fixed(5)), at(now));
    let c = r.step(c, Event::SwapFailed(message.to_string()), at(now));
    assert!(matches!(c.into_result(), Some(Ok(()))));
}

#[test]
fn tokens_without_a_route_are_backed_off_longer_and_longer() {
    let mut r = rebalancer();
    fail_swap(&mut r, "No aggregators available for this pair", 0);
    assert!(matches!(run(&r, &[1], 59).request(), SellRequest::Nothing));
    fail_swap(&mut r, "No aggregators available", 60);
    assert!(matches!(run(&r, &[1], 179).request(), SellRequest::Nothing));
    assert_values(&run(&r, &[1], 180), 1);

    // A sale clears the record.
    let c = run(&r, &[1], 180);
    let c = r.step(c, Event::Value(fixed(11)), at(180));
    let c = r.step(c, Event::Amount(fixed(5)), at(180));
    r.step(c, Event::Swapped, at(180));
    fail_swap(&mut r, "No aggregators available", 200);
    assert_values(&run(&r, &[1], 260), 1);
}

#[test]
fn other_swap_failures_do_not_back_off() {
    let mut r = rebalancer();
    fail_swap(&mut r, "slippage exceeded", 0);
    assert_values(&run(&r, &[1], 0), 1);
}

#[test]
fn empty_stake_banks_are_passed_over_from_then_on() {
    let mut r = rebalancer();
    let c = run(&r, &[1, 2], 0);
    let c = r.step(c, Event::NoPrice("Error: Stake pool supply is zero".to_string()), at(0));
    assert_values(&c, 2);
    assert_values(&run(&r, &[1, 2], 1_000_000), 2);

    // Another failure to price a token passes it over once.
    let c = r.step(c, Event::NoPrice("SwitchboardStalePrice".to_string()), at(0));
    assert!(matches!(c.request(), SellRequest::Nothing));
    assert_values(&run(&r, &[2], 0), 2);
}

#[test]
fn numbers_that_do_not_fit_are_told_beforehand() {
    let mut r = Rebalancer::new(key(9), I80F48::from_bits(-4), KeyMap::new());
    let c = run(&r, &[1], 0);
    assert!(!r.can_take(&c, &Event::Value(I80F48::from_bits(i128::MAX))));
    assert!(r.can_take(&c, &Event::Value(fixed(1))));
    let c = r.step(c, Event::Value(fixed(1)), at(0));
    assert!(!r.can_take(&c, &Event::Amount(I80F48::from_bits(-1))));
    assert!(r.can_take(&c, &Event::Amount(fixed(1))));
}

#[test]
fn a_value_below_the_threshold_is_always_taken() {
    let mut r = Rebalancer::new(key(9), I80F48::from_bits(i128::MAX), KeyMap::new());
    let c = run(&r, &[1, 2], 0);
    assert!(r.can_take(&c, &Event::Value(I80F48::from_bits(i128::MIN))));
    // There is nothing to sell: the next token is valued.
    let c = r.step(c, Event::Value(I80F48::from_bits(i128::MIN)), at(0));
    assert!(matches!(c.request(), SellRequest::Value(k) if k == key(2)));
}

#[test]
fn errors_end_the_cycle() {
    let mut r = rebalancer();
    let c = run(&r, &[1, 2], 0);
    let c = r.step(c, Event::UnknownToken("unknown"), at(0));
    assert!(matches!(c.into_result(), Some(Err("unknown"))));
    let c = run(&r, &[1, 2], 0);
    let c = r.step(c, Event::NoValue("no value"), at(0));
    assert!(matches!(c.into_result(), Some(Err("no value"))));
    let c = run(&r, &[1, 2], 0);
    let c = r.step(c, Event::Value(fixed(11)), at(0));
    let c = r.step(c, Event::NoAmount("no amount"), at(0));
    assert!(matches!(c.into_result(), Some(Err("no amount"))));
}
