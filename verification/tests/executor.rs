use eva01::cache::banks::{
    Account, Bank, BankConfig, BanksCache, BanksError, OracleSetup, ASSET_TAG_DEFAULT,
};
use eva01::execution::executor::{
    target_backoff_delay, BackoffState, Event, Execution, ExecutionError, Executor, Outcome,
    Request, Simulation, SkipReason, TargetBackoff, BUNDLE_CONFIRM_ATTEMPTS,
};
use eva01::execution::submission::{
    Landing, Submission, SubmitError, SubmitEvent, SubmitRequest,
};
use eva01::execution::{ExecutionPlan, LiquidationIntent};
use eva01::fixed_point::I80F48;
use eva01::pubkey::Pubkey;
use eva01::time::Instant;

type Run = Execution<&'static str, &'static str>;

fn key(n: u8) -> Pubkey {
    Pubkey::new_from_array([n; 32])
}

fn at(secs: u128) -> Instant {
    Instant { nanos: secs * 1_000_000_000 }
}

fn bank(mint: Pubkey) -> Bank {
    Bank {
        mint,
        liquidity_vault: key(20),
        insurance_vault: key(21),
        fee_vault: key(22),
        integration_acc_1: key(0),
        integration_acc_2: key(0),
        integration_acc_3: key(0),
        config: BankConfig {
            asset_tag: ASSET_TAG_DEFAULT,
            oracle_setup: OracleSetup::Other,
            oracle_keys: [key(0); 5],
        },
    }
}

/// Two banks, at 2 and 3, with the mints 1 and 4.
fn banks() -> BanksCache {
    let mut banks = BanksCache::new();
    for (address, mint) in [(key(2), key(1)), (key(3), key(4))] {
        let account =
            Account { lamports: 1, data: vec![], owner: key(9), executable: false, rent_epoch: 0 };
        banks.try_insert(address, bank(mint), vec![], account);
    }
    banks
}

fn intent(liquidatee: u8, liab_bank: u8) -> LiquidationIntent {
    LiquidationIntent {
        liquidatee: key(liquidatee),
        asset_bank: key(3),
        liab_bank: key(liab_bank),
        asset_amount: I80F48::from_bits(1),
        liab_amount: I80F48::from_bits(1),
        swb_oracles: vec![key(30), key(31)],
    }
}

fn start(x: &mut Executor, liquidatee: u8, now: Instant) -> Run {
    x.try_execute(&banks(), &intent(liquidatee, 2), now).unwrap()
}

fn plan(txs: Vec<&'static str>, temp_luts: Vec<Pubkey>) -> Event<&'static str, &'static str> {
    Event::Assembled(ExecutionPlan { txs, temp_luts })
}

fn assembled(x: &mut Executor) -> Run {
    let r = start(x, 5, at(0));
    assert_eq!(r.request(), Request::Assemble);
    let r = x.step(r, plan(vec!["buy", "liquidate"], vec![key(40)]), at(0));
    assert_eq!(r.request(), Request::Simulate);
    assert_eq!(r.txs().unwrap(), &vec!["buy", "liquidate"]);
    r
}

/// Cleans up and gives back how the execution ended.
fn end(x: &mut Executor, r: Run) -> Result<Outcome, ExecutionError<&'static str>> {
    assert_eq!(r.request(), Request::CleanUp);
    assert_eq!(r.temp_luts(), &vec![key(40)]);
    let r = x.step(r, Event::CleanedUp, at(0));
    assert_eq!(r.request(), Request::Nothing);
    r.into_result().unwrap()
}

#[test]
fn target_backoff_doubles_up_to_its_cap() {
    let secs = [30, 30, 60, 120, 240, 480, 900, 900, 900, 900, 900];
    for (failures, expected) in secs.iter().enumerate() {
        assert_eq!(target_backoff_delay(failures as u32).as_secs(), *expected);
    }
    assert_eq!(target_backoff_delay(u32::MAX).as_secs(), 900);
}

#[test]
fn retry_after_of_both_states() {
    assert_eq!(BackoffState::Mint(at(7)).retry_after(), at(7));
    let target = TargetBackoff { failures: 3, retry_after: at(8) };
    assert_eq!(BackoffState::Target(target).retry_after(), at(8));
    assert_eq!(BUNDLE_CONFIRM_ATTEMPTS, 10);
}

#[test]
fn a_liquidation_lands_as_a_bundle() {
    let mut x = Executor::new();
    let r = assembled(&mut x);
    let r = x.step(r, Event::Simulated(Simulation::Succeeded), at(0));
    assert_eq!(r.request(), Request::Submit(SubmitRequest::BuildTip));
    let r = x.step(r, Event::Submission(SubmitEvent::TipBuilt("tip")), at(0));
    assert_eq!(r.request(), Request::Submit(SubmitRequest::SendBundle));
    assert_eq!(r.txs().unwrap(), &vec!["buy", "liquidate", "tip"]);
    let r = x.step(r, Event::Submission(SubmitEvent::BundleConfirmed), at(0));
    assert!(matches!(end(&mut x, r), Ok(Outcome::Submitted(Landing::Bundled))));
    assert_eq!(x.sequential_fallbacks(), 0);
}

#[test]
fn an_unconfirmed_bundle_is_left_in_flight() {
    let mut x = Executor::new();
    let r = assembled(&mut x);
    let r = x.step(r, Event::Simulated(Simulation::Succeeded), at(0));
    let r = x.step(r, Event::Submission(SubmitEvent::TipBuilt("tip")), at(0));
    let r = x.step(r, Event::Submission(SubmitEvent::BundleUnconfirmed), at(0));
    let r = x.step(r, Event::Submission(SubmitEvent::BundleNotAccepted), at(0));
    assert!(matches!(end(&mut x, r), Ok(Outcome::Submitted(Landing::InFlight))));
    assert_eq!(x.sequential_fallbacks(), 0);
}

#[test]
fn a_refused_bundle_is_sent_one_by_one() {
    let mut x = Executor::new();
    let r = assembled(&mut x);
    let r = x.step(r, Event::Simulated(Simulation::Succeeded), at(0));
    let r = x.step(r, Event::Submission(SubmitEvent::TipBuilt("tip")), at(0));
    let r = x.step(r, Event::Submission(SubmitEvent::BundleNotAccepted), at(0));
    assert_eq!(r.txs().unwrap(), &vec!["buy", "liquidate"]);
    assert_eq!(r.request(), Request::Submit(SubmitRequest::SendTransaction(0)));
    let r = x.step(r, Event::Submission(SubmitEvent::TransactionConfirmed), at(0));
    assert_eq!(r.request(), Request::Submit(SubmitRequest::SendTransaction(1)));
    let r = x.step(r, Event::Submission(SubmitEvent::TransactionConfirmed), at(0));
    assert!(matches!(end(&mut x, r), Ok(Outcome::Submitted(Landing::OneByOne))));
    assert_eq!(x.sequential_fallbacks(), 1);
}

#[test]
fn a_failed_send_ends_the_execution() {
    let mut x = Executor::new();
    let r = assembled(&mut x);
    let r = x.step(r, Event::Simulated(Simulation::Succeeded), at(0));
    let r = x.step(r, Event::Submission(SubmitEvent::TipFailed), at(0));
    let r = x.step(r, Event::Submission(SubmitEvent::TransactionConfirmed), at(0));
    let r = x.step(r, Event::Submission(SubmitEvent::TransactionFailed("dropped")), at(0));
    match end(&mut x, r) {
        Err(ExecutionError::Submit(SubmitError::SendFailed { place, total, cause })) => {
            assert_eq!((place, total, cause), (2, 2, "dropped"));
        }
        other => panic!("{:?}", other),
    }
}

#[test]
fn a_stale_price_is_cranked_and_simulated_again() {
    let mut x = Executor::new();
    let r = assembled(&mut x);
    let r = x.step(r, Event::Simulated(Simulation::StalePrice), at(0));
    assert_eq!(r.request(), Request::BuildCrank);
    assert_eq!(r.swb_oracles(), &vec![key(30), key(31)]);
    let r = x.step(r, Event::CrankBuilt("crank"), at(0));
    assert_eq!(r.request(), Request::Simulate);
    assert_eq!(r.txs().unwrap(), &vec!["crank", "buy", "liquidate"]);
    let r = x.step(r, Event::Simulated(Simulation::Succeeded), at(0));
    assert_eq!(r.request(), Request::Submit(SubmitRequest::BuildTip));

    // The feeds are fresh now: the next execution simulates again without a crank.
    let r = start(&mut x, 6, at(10));
    let r = x.step(r, plan(vec!["liquidate"], vec![]), at(10));
    let r = x.step(r, Event::Simulated(Simulation::StalePrice), at(29));
    assert_eq!(r.request(), Request::Simulate);
    assert_eq!(r.txs().unwrap(), &vec!["liquidate"]);

    // After the cooldown they are cranked again.
    let r = start(&mut x, 7, at(30));
    let r = x.step(r, plan(vec!["liquidate"], vec![]), at(30));
    let r = x.step(r, Event::Simulated(Simulation::StalePrice), at(30));
    assert_eq!(r.request(), Request::BuildCrank);
    // Without a crank it goes on as it was.
    let r = x.step(r, Event::CrankFailed, at(30));
    assert_eq!(r.txs().unwrap(), &vec!["liquidate"]);
    let r = x.step(r, Event::Simulated(Simulation::StalePrice), at(30));
    assert!(matches!(
        r.into_result(),
        Some(Ok(Outcome::Skipped(SkipReason::FailsAfterCrank)))
    ));
}

#[test]
fn a_second_simulation_that_cannot_run_skips_the_target() {
    let mut x = Executor::new();
    let r = assembled(&mut x);
    let r = x.step(r, Event::Simulated(Simulation::StalePrice), at(0));
    let r = x.step(r, Event::CrankBuilt("crank"), at(0));
    let r = x.step(r, Event::Simulated(Simulation::Unavailable), at(0));
    assert!(matches!(
        end(&mut x, r),
        Ok(Outcome::Skipped(SkipReason::CannotResimulate))
    ));
}

#[test]
fn doomed_transactions_are_skipped() {
    let mut x = Executor::new();
    let r = assembled(&mut x);
    let r = x.step(r, Event::Simulated(Simulation::WouldFail), at(0));
    assert!(matches!(end(&mut x, r), Ok(Outcome::Skipped(SkipReason::WouldFail))));
}

#[test]
fn without_simulation_the_transactions_go_out_blind() {
    let mut x = Executor::new();
    let r = assembled(&mut x);
    let r = x.step(r, Event::Simulated(Simulation::Unavailable), at(0));
    assert_eq!(r.request(), Request::BuildCrank);
    let r = x.step(r, Event::CrankBuilt("crank"), at(0));
    assert_eq!(r.request(), Request::Submit(SubmitRequest::SendTransaction(0)));
    assert_eq!(r.txs().unwrap(), &vec!["crank", "buy", "liquidate"]);
    assert_eq!(x.sequential_fallbacks(), 1);

    // The feeds are fresh: no crank, and one by one at once.
    let r = start(&mut x, 6, at(10));
    let r = x.step(r, plan(vec!["liquidate"], vec![]), at(10));
    let r = x.step(r, Event::Simulated(Simulation::Unavailable), at(10));
    assert_eq!(r.request(), Request::Submit(SubmitRequest::SendTransaction(0)));
    assert_eq!(x.sequential_fallbacks(), 2);
}

#[test]
fn an_unknown_bank_is_an_error() {
    let mut x = Executor::new();
    let r = x.try_execute::<&'static str, &'static str>(&banks(), &intent(5, 77), at(0));
    match r {
        Err(BanksError::BankNotFound(k)) => assert_eq!(k, key(77)),
        other => panic!("{:?}", other),
    }
}

#[test]
fn a_target_that_is_not_handled_is_skipped() {
    let mut x = Executor::new();
    let r = start(&mut x, 5, at(0));
    let r = x.step(r, Event::NotHandled, at(0));
    assert!(matches!(r.into_result(), Some(Ok(Outcome::Skipped(SkipReason::NotHandled)))));
}

fn fail(x: &mut Executor, liquidatee: u8, message: &str, now: Instant) {
    let r = start(x, liquidatee, now);
    assert_eq!(r.request(), Request::Assemble);
    let event = Event::AssembleFailed { error: "failed", message: message.to_string() };
    let r = x.step(r, event, now);
    assert!(matches!(r.into_result(), Some(Err(ExecutionError::AssembleFailed("failed")))));
}

#[test]
fn a_mint_without_a_route_is_quarantined() {
    let mut x = Executor::new();
    fail(&mut x, 5, "Jupiter quote failed (400): NO_ROUTES_FOUND", at(100));
    // No target with this liability is tried, whoever it is.
    for (liquidatee, now) in [(5, 100), (6, 3699)] {
        let r = start(&mut x, liquidatee, at(now));
        assert!(matches!(r.into_result(), Some(Ok(Outcome::Skipped(SkipReason::NoRoute)))));
    }
    // Another liability is.
    let r: Run = x.try_execute(&banks(), &intent(5, 3), at(200)).unwrap();
    assert_eq!(r.request(), Request::Assemble);
    // And this one again, after an hour.
    assert_eq!(start(&mut x, 5, at(3700)).request(), Request::Assemble);
}

#[test]
fn a_failed_target_is_backed_off() {
    let mut x = Executor::new();
    fail(&mut x, 5, "429 Too Many Requests", at(100));
    let r = start(&mut x, 5, at(129));
    assert!(matches!(r.into_result(), Some(Ok(Outcome::Skipped(SkipReason::BackedOff)))));
    assert_eq!(start(&mut x, 6, at(129)).request(), Request::Assemble);
    assert_eq!(start(&mut x, 5, at(130)).request(), Request::Assemble);
}

#[test]
fn failures_in_a_row_lengthen_the_backoff() {
    let mut x = Executor::new();
    x.note_assemble_failure(&key(5), key(1), "timeout", at(0));
    x.note_assemble_failure(&key(5), key(1), "timeout", at(10));
    assert!(x.is_backed_off(&key(5), at(69)));
    assert!(!x.is_backed_off(&key(5), at(70)));
    // The entry has expired and was dropped by the question, so the count starts anew.
    x.note_assemble_failure(&key(5), key(1), "timeout", at(70));
    assert!(!x.is_backed_off(&key(5), at(100)));
}

/// The target 5 is skipped just before the given time, and tried from then on.
fn waits_until(x: &mut Executor, until: u128) {
    let r = start(x, 5, at(until - 1));
    assert!(matches!(r.into_result(), Some(Ok(Outcome::Skipped(SkipReason::BackedOff)))));
    assert_eq!(start(x, 5, at(until)).request(), Request::Assemble);
}

#[test]
fn a_target_that_keeps_failing_waits_longer_each_time() {
    let mut x = Executor::new();
    fail(&mut x, 5, "timeout", at(100));
    waits_until(&mut x, 130);
    // The wait was over when the target failed again.
    fail(&mut x, 5, "timeout", at(130));
    waits_until(&mut x, 190);
    fail(&mut x, 5, "timeout", at(200));
    waits_until(&mut x, 320);
    // Neither a long pause nor what befalls other targets makes the count start anew.
    fail(&mut x, 6, "timeout", at(400));
    let r = start(&mut x, 7, at(400));
    x.step(r, plan(vec!["liquidate"], vec![]), at(400));
    fail(&mut x, 5, "timeout", at(90_000));
    waits_until(&mut x, 90_240);
    fail(&mut x, 5, "timeout", at(90_240));
    waits_until(&mut x, 90_720);
    for now in [100_000, 200_000, 300_000] {
        fail(&mut x, 5, "timeout", at(now));
        waits_until(&mut x, now + 900);
    }
    // A successful assembly does.
    let r = start(&mut x, 5, at(400_000));
    let r = x.step(r, plan(vec!["liquidate"], vec![]), at(400_000));
    assert_eq!(r.request(), Request::Simulate);
    assert_eq!(start(&mut x, 5, at(400_000)).request(), Request::Assemble);
    fail(&mut x, 5, "timeout", at(400_000));
    waits_until(&mut x, 400_030);
}

#[test]
fn an_attempt_that_is_not_handled_leaves_the_count() {
    let mut x = Executor::new();
    fail(&mut x, 5, "timeout", at(0));
    let r = start(&mut x, 5, at(30));
    x.step(r, Event::NotHandled, at(30));
    fail(&mut x, 5, "timeout", at(31));
    waits_until(&mut x, 91);
}

#[test]
fn a_target_that_assembles_is_not_backed_off() {
    let mut x = Executor::new();
    x.note_assemble_failure(&key(5), key(1), "timeout", at(0));
    x.clear_target_backoff(&key(5));
    assert!(!x.is_backed_off(&key(5), at(1)));
    // A quarantine is not cleared.
    x.note_assemble_failure(&key(5), key(1), "NO_ROUTES_FOUND", at(0));
    x.clear_target_backoff(&key(1));
    assert!(x.is_backed_off(&key(1), at(1)));
    // A quarantine under the address of a target gives way to the target's backoff.
    x.note_assemble_failure(&key(1), key(2), "timeout", at(0));
    assert!(!x.is_backed_off(&key(1), at(30)));
}

#[test]
fn cranks_are_needed_only_for_feeds_that_are_not_fresh() {
    let mut x = Executor::new();
    let feeds = vec![key(30), key(31)];
    assert!(!x.crank_needed(&vec![], at(0)));
    assert!(x.crank_needed(&feeds, at(0)));
    x.note_cranked(&feeds, at(0));
    assert!(!x.crank_needed(&feeds, at(29)));
    assert!(x.crank_needed(&vec![key(30), key(32)], at(29)));
    assert!(x.crank_needed(&feeds, at(30)));
}

#[test]
fn submitting_nothing_is_an_error() {
    let x = Executor::new();
    let s: Submission<&'static str, &'static str> = x.submit(vec![]);
    assert_eq!(s.request(), SubmitRequest::Nothing);
    assert!(matches!(s.into_result(), Ok(Err(SubmitError::NoTransactions))));

    let mut x = Executor::new();
    let r = start(&mut x, 5, at(0));
    let r = x.step(r, plan(vec![], vec![]), at(0));
    let r = x.step(r, Event::Simulated(Simulation::Succeeded), at(0));
    assert!(matches!(
        r.into_result(),
        Some(Err(ExecutionError::Submit(SubmitError::NoTransactions)))
    ));
}

#[test]
fn a_submission_by_itself_counts_its_fallback() {
    let mut x = Executor::new();
    let s: Submission<&'static str, &'static str> = x.submit(vec!["a"]);
    assert_eq!(s.request(), SubmitRequest::BuildTip);
    let s = x.submission_step(s, SubmitEvent::TipFailed);
    assert_eq!(x.sequential_fallbacks(), 1);
    assert_eq!(s.txs(), &vec!["a"]);
    let s = s.into_result().unwrap_err();
    let s = x.submission_step(s, SubmitEvent::TransactionConfirmed);
    assert!(matches!(s.into_result(), Ok(Ok(Landing::OneByOne))));
    assert_eq!(x.sequential_fallbacks(), 1);

    let s: Submission<&'static str, &'static str> = Submission::one_by_one(vec![]);
    assert!(matches!(s.into_result(), Ok(Ok(Landing::OneByOne))));
}

#[test]
fn stray_events_change_nothing() {
    let mut x = Executor::new();
    let r = assembled(&mut x);
    let r = x.step(r, Event::CleanedUp, at(0));
    let r = x.step(r, Event::CrankBuilt("crank"), at(0));
    let r = x.step(r, Event::Submission(SubmitEvent::BundleConfirmed), at(0));
    assert_eq!(r.request(), Request::Simulate);
    assert_eq!(r.txs().unwrap(), &vec!["buy", "liquidate"]);
    assert!(r.into_result().is_none());
}
