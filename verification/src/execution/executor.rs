//! The engine that takes a liquidation from its intent to transactions on the chain.
//!
//! An execution goes through these stages:
//! 1. the strategy assembles the transactions,
//! 2. they are simulated, and a crank is put in front of them only where the simulation reports a
//!    stale price,
//! 3. they are submitted: as a bundle, or one by one where that is not possible,
//! 4. the lookup tables that were created for them are deactivated.
//!
//! Targets that failed to assemble are left alone for a while: a liability mint without a swap
//! route is quarantined, any other failure backs off its target. Each further failure of a target
//! lengthens its wait, until the target assembles; only a question about what is left alone, asked
//! once the wait is over, makes the count start anew too. The caller performs the pending request
//! and hands back what came of it.

use vstd::arithmetic::power2::lemma2_to64;
use vstd::prelude::*;

use crate::cache::banks::{BanksCache, BanksError};
use crate::execution::submission::{
    after_event, bundle_first, event_answers, falls_back, request_of, send_from, state_wf,
    steps_left, Landing, Submission, SubmissionState, SubmitError, SubmitEvent, SubmitPhase,
    SubmitRequest,
};
use crate::execution::{ExecutionPlan, LiquidationIntent};
use crate::keyed::{copy_keys, with_all, KeyMap};
use crate::pubkey::Pubkey;
use crate::text::{contains, contains_text};
use crate::time::{
    backoff_secs, can_add, exponential_delay, law_backoff_doubles_or_is_capped,
    law_backoff_grows_to_its_cap, secs, span_since, Duration, Instant, NANOS_PER_SEC,
};

verus! {

/// Number of status polls before a bundle is considered not landed.
pub const BUNDLE_CONFIRM_ATTEMPTS: usize = 10;

/// A feed that was cranked more recently than this is not cranked again.
pub const CRANK_DEDUP_COOLDOWN_SECS: u64 = 30;

/// A liability mint that has no swap route is tried again only after this long.
pub const NO_ROUTE_QUARANTINE_TTL_SECS: u64 = 3600;

/// The wait of a target after the first failure.
pub const TARGET_BACKOFF_BASE_SECS: u64 = 30;

/// The longest wait of a target.
pub const TARGET_BACKOFF_MAX_SECS: u64 = 900;

/// What an assemble failure says where no swap route exists.
pub const NO_ROUTES_FOUND: &'static str = "NO_ROUTES_FOUND";

// ── Backoff ──────────────────────────────────────────────────────────────────

/// The backoff of a target after assemble failures that have nothing to do with routes.
#[derive(Clone, Copy, Debug, PartialEq, Eq, Structural)]
pub struct TargetBackoff {
    /// Assemble failures in a row.
    pub failures: u32,
    /// The target is not tried before this time.
    pub retry_after: Instant,
}

/// Why an address is left alone, and until when.
#[derive(Clone, Copy, Debug, PartialEq, Eq, Structural)]
pub enum BackoffState {
    /// The liability mint has no swap route.
    Mint(Instant),
    /// The target failed to assemble.
    Target(TargetBackoff),
}

/// The time before which an address is left alone.
pub open spec fn retry_time(state: BackoffState) -> Instant {
    match state {
        BackoffState::Mint(retry_after) => retry_after,
        BackoffState::Target(backoff) => backoff.retry_after,
    }
}

impl BackoffState {
    /// The time before which the address is left alone.
    pub fn retry_after(&self) -> (at: Instant)
        ensures
            at == retry_time(*self),
    {
        match self {
            BackoffState::Mint(retry_after) => *retry_after,
            BackoffState::Target(backoff) => backoff.retry_after,
        }
    }

    /// Whether the entry is needed at the given time.
    fn is_needed_at(&self, now: Instant) -> (r: bool)
        ensures
            r == is_needed(*self, now),
    {
        match self {
            BackoffState::Mint(retry_after) => now.is_before(*retry_after),
            BackoffState::Target(_) => true,
        }
    }
}

/// The wait of a target, in seconds, after its `failures`-th failure in a row.
pub open spec fn target_backoff_secs(failures: nat) -> nat {
    backoff_secs(TARGET_BACKOFF_BASE_SECS as nat, TARGET_BACKOFF_MAX_SECS as nat, failures)
}

/// The wait of a target after its `failures`-th failure in a row: the base wait, doubled by each
/// further failure, up to the cap.
pub fn target_backoff_delay(failures: u32) -> (d: Duration)
    ensures
        d.nanos == secs(target_backoff_secs(failures as nat)),
{
    proof {
        lemma2_to64();
    }
    exponential_delay(TARGET_BACKOFF_BASE_SECS, TARGET_BACKOFF_MAX_SECS, failures, 8)
}

/// The address is still to be left alone.
pub open spec fn is_live(state: BackoffState, now: Instant) -> bool {
    now.nanos < retry_time(state).nanos
}

/// The entries that have not expired.
pub open spec fn live(backoffs: Map<Pubkey, BackoffState>, now: Instant) -> Map<
    Pubkey,
    BackoffState,
> {
    Map::new(
        |k: Pubkey| backoffs.contains_key(k) && is_live(backoffs[k], now),
        |k: Pubkey| backoffs[k],
    )
}

/// The entry is needed at the given time: a quarantine until it expires, the backoff of a target
/// for its count, which only a successful assembly ends.
pub open spec fn is_needed(state: BackoffState, now: Instant) -> bool {
    state is Target || is_live(state, now)
}

/// The entries without the quarantines that have expired.
pub open spec fn needed(backoffs: Map<Pubkey, BackoffState>, now: Instant) -> Map<
    Pubkey,
    BackoffState,
> {
    Map::new(
        |k: Pubkey| backoffs.contains_key(k) && is_needed(backoffs[k], now),
        |k: Pubkey| backoffs[k],
    )
}

/// The entries without a target's backoff. A quarantine under the same address stays.
pub open spec fn without_target(backoffs: Map<Pubkey, BackoffState>, target: Pubkey) -> Map<
    Pubkey,
    BackoffState,
> {
    if backoffs.contains_key(target) && backoffs[target] is Target {
        backoffs.remove(target)
    } else {
        backoffs
    }
}

/// The failures in a row that are on record for a target.
pub open spec fn failures_of(backoffs: Map<Pubkey, BackoffState>, target: Pubkey) -> u32 {
    if backoffs.contains_key(target) {
        match backoffs[target] {
            BackoffState::Target(backoff) => backoff.failures,
            BackoffState::Mint(_) => 0,
        }
    } else {
        0
    }
}

/// One more, but no more than fits.
pub open spec fn one_more(failures: u32) -> u32 {
    if failures == u32::MAX {
        failures
    } else {
        (failures + 1) as u32
    }
}

/// A point in time, moved by whole seconds.
pub open spec fn later_by(at: Instant, s: nat) -> Instant {
    Instant { nanos: (at.nanos + secs(s)) as u128 }
}

/// The entries after an assemble failure: a mint without a route is quarantined, any other
/// failure backs off the target.
pub open spec fn with_failure(
    backoffs: Map<Pubkey, BackoffState>,
    target: Pubkey,
    liab_mint: Pubkey,
    message: Seq<char>,
    now: Instant,
) -> Map<Pubkey, BackoffState> {
    if contains_text(message, NO_ROUTES_FOUND@) {
        backoffs.insert(
            liab_mint,
            BackoffState::Mint(later_by(now, NO_ROUTE_QUARANTINE_TTL_SECS as nat)),
        )
    } else {
        let failures = one_more(failures_of(backoffs, target));
        backoffs.insert(
            target,
            BackoffState::Target(
                TargetBackoff {
                    failures,
                    retry_after: later_by(now, target_backoff_secs(failures as nat)),
                },
            ),
        )
    }
}

// ── Cranks ───────────────────────────────────────────────────────────────────

/// A crank at a given time lies within the cooldown.
pub open spec fn is_fresh(at: Instant, now: Instant) -> bool {
    span_since(now, at) < secs(CRANK_DEDUP_COOLDOWN_SECS as nat)
}

fn cranked_recently(at: Instant, now: Instant) -> (recently: bool)
    ensures
        recently == is_fresh(at, now),
{
    now.duration_since(at).nanos < Duration::from_secs(CRANK_DEDUP_COOLDOWN_SECS).nanos
}

/// The feeds that were cranked within the cooldown.
pub open spec fn fresh(cranked: Map<Pubkey, Instant>, now: Instant) -> Map<Pubkey, Instant> {
    Map::new(
        |k: Pubkey| cranked.contains_key(k) && is_fresh(cranked[k], now),
        |k: Pubkey| cranked[k],
    )
}

/// At least one of the feeds was not cranked within the cooldown.
pub open spec fn crank_due(
    cranked: Map<Pubkey, Instant>,
    oracles: Seq<Pubkey>,
    now: Instant,
) -> bool {
    exists|i: int|
        0 <= i < oracles.len() && !fresh(cranked, now).contains_key(#[trigger] oracles[i])
}

/// The record after the feeds were looked up. It is pruned, unless there was nothing to look up.
pub open spec fn looked_up(
    cranked: Map<Pubkey, Instant>,
    oracles: Seq<Pubkey>,
    now: Instant,
) -> Map<Pubkey, Instant> {
    if oracles.len() == 0 {
        cranked
    } else {
        fresh(cranked, now)
    }
}

// ── The executor's records ───────────────────────────────────────────────────

/// What the executor remembers from one execution to the next.
#[derive(Debug)]
pub struct Executor {
    recently_cranked: KeyMap<Instant>,
    backoffs: KeyMap<BackoffState>,
    sequential_fallbacks: u64,
}

/// What the executor remembers.
pub struct Records {
    /// When each feed was last cranked.
    pub cranked: Map<Pubkey, Instant>,
    /// The addresses that are left alone.
    pub backoffs: Map<Pubkey, BackoffState>,
    /// How often transactions were sent one by one. The count wraps around.
    pub fallbacks: u64,
}

/// The next value of a count that wraps around.
pub open spec fn next_count(n: u64) -> u64 {
    if n == u64::MAX {
        0
    } else {
        (n + 1) as u64
    }
}

impl View for Executor {
    type V = Records;

    closed spec fn view(&self) -> Records {
        Records {
            cranked: self.recently_cranked@,
            backoffs: self.backoffs@,
            fallbacks: self.sequential_fallbacks,
        }
    }
}

impl Executor {
    /// No address stands in a record twice.
    pub closed spec fn wf(&self) -> bool {
        self.recently_cranked.wf() && self.backoffs.wf()
    }

    /// An executor that remembers nothing.
    pub fn new() -> (x: Executor)
        ensures
            x.wf(),
            x@ == (Records { cranked: Map::empty(), backoffs: Map::empty(), fallbacks: 0 }),
    {
        Executor {
            recently_cranked: KeyMap::new(),
            backoffs: KeyMap::new(),
            sequential_fallbacks: 0,
        }
    }

    /// The liability mint of an intent, looked up in the banks.
    pub fn intent_liab_mint(banks: &BanksCache, intent: &LiquidationIntent) -> (mint: Result<
        Pubkey,
        BanksError,
    >)
        requires
            banks.wf(),
        ensures
            mint == if banks.banks().contains_key(intent.liab_bank) {
                Ok(banks.banks()[intent.liab_bank].bank.mint)
            } else {
                Err(BanksError::BankNotFound(intent.liab_bank))
            },
    {
        match banks.try_get_bank(&intent.liab_bank) {
            Ok(wrapper) => Ok(wrapper.bank.mint),
            Err(e) => Err(e),
        }
    }

    /// Whether an address is left alone at the moment. Entries that have expired are dropped, and
    /// the failure counts of their targets with them. Executions do not ask in this way.
    pub fn is_backed_off(&mut self, key: &Pubkey, now: Instant) -> (backed_off: bool)
        requires
            old(self).wf(),
        ensures
            final(self).wf(),
            final(self)@ == (Records { backoffs: live(old(self)@.backoffs, now), ..old(self)@ }),
            backed_off == live(old(self)@.backoffs, now).contains_key(*key),
    {
        self.backoffs.retain(
            |state: &BackoffState| -> (keep: bool)
                ensures keep == is_live(*state, now) { now.is_before(state.retry_after()) },
        );
        assert(self.backoffs@ =~= live(old(self)@.backoffs, now));
        self.backoffs.contains_key(key)
    }

    /// Whether an address is left alone at the moment. No entry is dropped.
    fn is_left_alone(&self, key: &Pubkey, now: Instant) -> (left_alone: bool)
        requires
            self.wf(),
        ensures
            left_alone == live(self@.backoffs, now).contains_key(*key),
    {
        match self.backoffs.get(key) {
            Some(state) => now.is_before(state.retry_after()),
            None => false,
        }
    }

    /// Drops the quarantines that have expired. The backoffs of targets stay, for their counts.
    fn drop_expired_quarantines(&mut self, now: Instant)
        requires
            old(self).wf(),
        ensures
            final(self).wf(),
            final(self)@ == (Records { backoffs: needed(old(self)@.backoffs, now), ..old(self)@ }),
    {
        self.backoffs.retain(
            |state: &BackoffState| -> (keep: bool)
                ensures keep == is_needed(*state, now) { state.is_needed_at(now) },
        );
        assert(self.backoffs@ =~= needed(old(self)@.backoffs, now));
    }

    /// Drops the backoff of a target that assembled.
    pub fn clear_target_backoff(&mut self, target: &Pubkey)
        requires
            old(self).wf(),
        ensures
            final(self).wf(),
            final(self)@ == (Records {
                backoffs: without_target(old(self)@.backoffs, *target),
                ..old(self)@
            }),
    {
        let is_target = match self.backoffs.get(target) {
            Some(BackoffState::Target(_)) => true,
            _ => false,
        };
        if is_target {
            self.backoffs.remove(target);
        }
    }

    /// Records an assemble failure: the liability mint is quarantined where it has no swap route,
    /// otherwise the target is backed off.
    pub fn note_assemble_failure(
        &mut self,
        target: &Pubkey,
        liab_mint: Pubkey,
        message: &str,
        now: Instant,
    )
        requires
            old(self).wf(),
            can_add(now, secs(NO_ROUTE_QUARANTINE_TTL_SECS as nat)),
        ensures
            final(self).wf(),
            final(self)@ == (Records {
                backoffs: with_failure(old(self)@.backoffs, *target, liab_mint, message@, now),
                ..old(self)@
            }),
    {
        if contains(message, NO_ROUTES_FOUND) {
            let until = now.plus(Duration::from_secs(NO_ROUTE_QUARANTINE_TTL_SECS));
            self.backoffs.insert(liab_mint, BackoffState::Mint(until));
            return ;
        }
        let before: u32 = match self.backoffs.get(target) {
            Some(BackoffState::Target(backoff)) => backoff.failures,
            _ => 0,
        };
        let failures: u32 = before.saturating_add(1);
        let delay = target_backoff_delay(failures);
        assert(delay.nanos <= secs(NO_ROUTE_QUARANTINE_TTL_SECS as nat));
        self.backoffs.insert(
            *target,
            BackoffState::Target(TargetBackoff { failures, retry_after: now.plus(delay) }),
        );
    }

    /// Whether at least one of the feeds was not cranked within the cooldown.
    pub fn crank_needed(&mut self, oracles: &Vec<Pubkey>, now: Instant) -> (needed: bool)
        requires
            old(self).wf(),
        ensures
            final(self).wf(),
            final(self)@ == (Records {
                cranked: looked_up(old(self)@.cranked, oracles@, now),
                ..old(self)@
            }),
            needed == crank_due(old(self)@.cranked, oracles@, now),
    {
        if oracles.len() == 0 {
            return false;
        }
        self.recently_cranked.retain(
            |at: &Instant| -> (keep: bool)
                ensures keep == is_fresh(*at, now) { cranked_recently(*at, now) },
        );
        assert(self.recently_cranked@ =~= fresh(old(self)@.cranked, now));
        let mut i: usize = 0;
        while i < oracles.len()
            invariant
                self.wf(),
                self@ == (Records { cranked: fresh(old(self)@.cranked, now), ..old(self)@ }),
                i <= oracles@.len(),
                forall|j: int|
                    0 <= j < i ==> fresh(old(self)@.cranked, now).contains_key(
                        #[trigger] oracles@[j],
                    ),
            decreases oracles@.len() - i,
        {
            if !self.recently_cranked.contains_key(&oracles[i]) {
                assert(!fresh(old(self)@.cranked, now).contains_key(oracles@[i as int]));
                return true;
            }
            i += 1;
        }
        false
    }

    /// Records that the feeds were cranked.
    pub fn note_cranked(&mut self, oracles: &Vec<Pubkey>, at: Instant)
        requires
            old(self).wf(),
        ensures
            final(self).wf(),
            final(self)@ == (Records {
                cranked: with_all(old(self)@.cranked, oracles@, at),
                ..old(self)@
            }),
    {
        self.recently_cranked.insert_all(oracles, at);
    }
}

// ── Executions ───────────────────────────────────────────────────────────────

/// What a simulation of the transactions reports.
#[derive(Clone, Copy, Debug, PartialEq, Eq, Structural)]
pub enum Simulation {
    /// They would succeed.
    Succeeded,
    /// They would fail on a stale price.
    StalePrice,
    /// They would fail on something else.
    WouldFail,
    /// The simulation itself could not run.
    Unavailable,
}

/// Why an execution was given up without an error.
#[derive(Clone, Copy, Debug, PartialEq, Eq, Structural)]
pub enum SkipReason {
    /// The liability mint is quarantined.
    NoRoute,
    /// The target is backed off.
    BackedOff,
    /// The strategy does not handle the target.
    NotHandled,
    /// The simulation reports that the liquidation would fail.
    WouldFail,
    /// It would fail even with the crank in front.
    FailsAfterCrank,
    /// It could not be simulated again with the crank in front.
    CannotResimulate,
}

/// How an execution ended well.
#[derive(Clone, Copy, Debug, PartialEq, Eq, Structural)]
pub enum Outcome {
    Skipped(SkipReason),
    Submitted(Landing),
}

/// How an execution ended badly.
#[derive(Debug)]
pub enum ExecutionError<E> {
    /// The strategy failed to assemble the transactions.
    AssembleFailed(E),
    /// The transactions did not reach the chain.
    Submit(SubmitError<E>),
}

/// Where an execution stands.
#[derive(Debug)]
enum Stage<T, E> {
    Assembling,
    Simulating(Vec<T>),
    Cranking { txs: Vec<T>, at: Instant, blind: bool },
    Resimulating(Vec<T>),
    Submitting(Submission<T, E>),
    CleaningUp(Result<Outcome, ExecutionError<E>>),
    Finished(Result<Outcome, ExecutionError<E>>),
}

/// Where an execution stands.
pub enum StageState<T, E> {
    /// The strategy is at work.
    Assembling,
    /// The transactions are being simulated.
    Simulating(Seq<T>),
    /// A crank is being built, which was found due at a given time. It is blind where the
    /// transactions could not be simulated.
    Cranking { txs: Seq<T>, at: Instant, blind: bool },
    /// The transactions are being simulated once more.
    Resimulating(Seq<T>),
    /// The transactions are on their way.
    Submitting(SubmissionState<T, E>),
    /// The lookup tables are being deactivated.
    CleaningUp(Result<Outcome, ExecutionError<E>>),
    /// Nothing is left to do.
    Finished(Result<Outcome, ExecutionError<E>>),
}

/// What the caller is to do.
#[derive(Clone, Copy, Debug, PartialEq, Eq, Structural)]
pub enum Request {
    /// Let the strategy assemble the transactions.
    Assemble,
    /// Simulate the transactions.
    Simulate,
    /// Build the transaction that cranks the feeds.
    BuildCrank,
    /// Carry out a request of the submission.
    Submit(SubmitRequest),
    /// Deactivate the lookup tables.
    CleanUp,
    /// Nothing.
    Nothing,
}

/// What came of it.
#[derive(Debug)]
pub enum Event<T, E> {
    /// The strategy assembled a plan.
    Assembled(ExecutionPlan<T>),
    /// The strategy does not handle the target.
    NotHandled,
    /// The strategy failed, and what the failure says.
    AssembleFailed { error: E, message: String },
    /// The simulation came back.
    Simulated(Simulation),
    /// The crank was built.
    CrankBuilt(T),
    /// The crank could not be built.
    CrankFailed,
    /// A request of the submission came back.
    Submission(SubmitEvent<T, E>),
    /// The lookup tables were dealt with.
    CleanedUp,
}

/// A liquidation on its way.
#[derive(Debug)]
pub struct Execution<T, E> {
    liquidatee: Pubkey,
    liab_mint: Pubkey,
    swb_oracles: Vec<Pubkey>,
    temp_luts: Vec<Pubkey>,
    stage: Stage<T, E>,
}

/// What an execution is.
pub struct ExecutionState<T, E> {
    pub liquidatee: Pubkey,
    pub liab_mint: Pubkey,
    pub swb_oracles: Seq<Pubkey>,
    pub temp_luts: Seq<Pubkey>,
    pub stage: StageState<T, E>,
}

impl<T, E> Stage<T, E> {
    spec fn state(&self) -> StageState<T, E> {
        match *self {
            Stage::Assembling => StageState::Assembling,
            Stage::Simulating(txs) => StageState::Simulating(txs@),
            Stage::Cranking { txs, at, blind } => StageState::Cranking { txs: txs@, at, blind },
            Stage::Resimulating(txs) => StageState::Resimulating(txs@),
            Stage::Submitting(submission) => StageState::Submitting(submission@),
            Stage::CleaningUp(ending) => StageState::CleaningUp(ending),
            Stage::Finished(ending) => StageState::Finished(ending),
        }
    }
}

impl<T, E> View for Execution<T, E> {
    type V = ExecutionState<T, E>;

    closed spec fn view(&self) -> ExecutionState<T, E> {
        ExecutionState {
            liquidatee: self.liquidatee,
            liab_mint: self.liab_mint,
            swb_oracles: self.swb_oracles@,
            temp_luts: self.temp_luts@,
            stage: self.stage.state(),
        }
    }
}

/// There are no lookup tables before there is a plan, and a submission is well formed and has
/// not ended.
pub open spec fn execution_wf<T, E>(r: ExecutionState<T, E>) -> bool {
    &&& r.stage is Assembling ==> r.temp_luts.len() == 0
    &&& r.stage matches StageState::Submitting(s) ==> state_wf(s) && !(s.phase is Done)
}

/// The request that an execution waits on.
pub open spec fn request_in<T, E>(stage: StageState<T, E>) -> Request {
    match stage {
        StageState::Assembling => Request::Assemble,
        StageState::Simulating(_) => Request::Simulate,
        StageState::Cranking { .. } => Request::BuildCrank,
        StageState::Resimulating(_) => Request::Simulate,
        StageState::Submitting(s) => Request::Submit(request_of(s.phase)),
        StageState::CleaningUp(_) => Request::CleanUp,
        StageState::Finished(_) => Request::Nothing,
    }
}

/// The event is an answer to the request.
pub open spec fn answers<T, E>(request: Request, event: Event<T, E>) -> bool {
    match event {
        Event::Assembled(_) | Event::NotHandled | Event::AssembleFailed { .. } => request
            == Request::Assemble,
        Event::Simulated(_) => request == Request::Simulate,
        Event::CrankBuilt(_) | Event::CrankFailed => request == Request::BuildCrank,
        Event::Submission(e) => request matches Request::Submit(r) && event_answers(r, e),
        Event::CleanedUp => request == Request::CleanUp,
    }
}

// ── What an event leads to ───────────────────────────────────────────────────

/// The stage of an execution that has its ending. The lookup tables, where there are any, are
/// still to be deactivated.
pub open spec fn ended<T, E>(
    temp_luts: Seq<Pubkey>,
    ending: Result<Outcome, ExecutionError<E>>,
) -> StageState<T, E> {
    if temp_luts.len() == 0 {
        StageState::Finished(ending)
    } else {
        StageState::CleaningUp(ending)
    }
}

/// The ending that a submission's result makes.
pub open spec fn ending_of<E>(result: Result<Landing, SubmitError<E>>) -> Result<
    Outcome,
    ExecutionError<E>,
> {
    match result {
        Ok(landing) => Ok(Outcome::Submitted(landing)),
        Err(e) => Err(ExecutionError::Submit(e)),
    }
}

/// The stage of an execution whose submission is in a given state, which may be its end.
pub open spec fn submitting<T, E>(
    temp_luts: Seq<Pubkey>,
    s: SubmissionState<T, E>,
) -> StageState<T, E> {
    match s.phase {
        SubmitPhase::Done(result) => ended(temp_luts, ending_of(result)),
        _ => StageState::Submitting(s),
    }
}

/// The stage of an execution once it is settled whether a crank stands in front of its
/// transactions. A blind one goes out one by one; otherwise the transactions are simulated again.
pub open spec fn cranked_or_not<T, E>(
    temp_luts: Seq<Pubkey>,
    txs: Seq<T>,
    blind: bool,
) -> StageState<T, E> {
    if blind {
        submitting(temp_luts, send_from(txs, 0))
    } else {
        StageState::Resimulating(txs)
    }
}

/// The stage after an event. An event that answers another request changes nothing.
pub open spec fn stage_after<T, E>(
    x: Records,
    r: ExecutionState<T, E>,
    event: Event<T, E>,
    now: Instant,
) -> StageState<T, E> {
    match (r.stage, event) {
        (StageState::Assembling, Event::Assembled(plan)) => StageState::Simulating(plan.txs@),
        (StageState::Assembling, Event::NotHandled) => StageState::Finished(
            Ok(Outcome::Skipped(SkipReason::NotHandled)),
        ),
        (StageState::Assembling, Event::AssembleFailed { error, .. }) => StageState::Finished(
            Err(ExecutionError::AssembleFailed(error)),
        ),
        (StageState::Simulating(txs), Event::Simulated(simulation)) => match simulation {
            Simulation::Succeeded => submitting(r.temp_luts, bundle_first(txs)),
            Simulation::WouldFail => ended(
                r.temp_luts,
                Ok(Outcome::Skipped(SkipReason::WouldFail)),
            ),
            _ => {
                let blind = simulation == Simulation::Unavailable;
                if crank_due(x.cranked, r.swb_oracles, now) {
                    StageState::Cranking { txs, at: now, blind }
                } else {
                    cranked_or_not(r.temp_luts, txs, blind)
                }
            },
        },
        (StageState::Cranking { txs, at, blind }, Event::CrankBuilt(crank)) => cranked_or_not(
            r.temp_luts,
            seq![crank] + txs,
            blind,
        ),
        (StageState::Cranking { txs, at, blind }, Event::CrankFailed) => cranked_or_not(
            r.temp_luts,
            txs,
            blind,
        ),
        (StageState::Resimulating(txs), Event::Simulated(simulation)) => match simulation {
            Simulation::Succeeded => submitting(r.temp_luts, bundle_first(txs)),
            Simulation::Unavailable => ended(
                r.temp_luts,
                Ok(Outcome::Skipped(SkipReason::CannotResimulate)),
            ),
            _ => ended(r.temp_luts, Ok(Outcome::Skipped(SkipReason::FailsAfterCrank))),
        },
        (StageState::Submitting(s), Event::Submission(e)) => submitting(
            r.temp_luts,
            after_event(s, e),
        ),
        (StageState::CleaningUp(ending), Event::CleanedUp) => StageState::Finished(ending),
        _ => r.stage,
    }
}

/// The execution after an event. Its lookup tables are those of the plan.
pub open spec fn execution_after<T, E>(
    x: Records,
    r: ExecutionState<T, E>,
    event: Event<T, E>,
    now: Instant,
) -> ExecutionState<T, E> {
    ExecutionState {
        temp_luts: match (r.stage, event) {
            (StageState::Assembling, Event::Assembled(plan)) => plan.temp_luts@,
            _ => r.temp_luts,
        },
        stage: stage_after(x, r, event, now),
        ..r
    }
}

/// The event turns the execution to sending one by one.
pub open spec fn starts_one_by_one<T, E>(
    x: Records,
    r: ExecutionState<T, E>,
    event: Event<T, E>,
    now: Instant,
) -> bool {
    match (r.stage, event) {
        (StageState::Simulating(_), Event::Simulated(simulation)) => simulation
            == Simulation::Unavailable && !crank_due(x.cranked, r.swb_oracles, now),
        (StageState::Cranking { blind, .. }, Event::CrankBuilt(_)) => blind,
        (StageState::Cranking { blind, .. }, Event::CrankFailed) => blind,
        (StageState::Submitting(s), Event::Submission(e)) => falls_back(s, e),
        _ => false,
    }
}

/// The records after an event.
pub open spec fn records_after<T, E>(
    x: Records,
    r: ExecutionState<T, E>,
    event: Event<T, E>,
    now: Instant,
) -> Records {
    Records {
        backoffs: match (r.stage, event) {
            (StageState::Assembling, Event::Assembled(_)) => without_target(
                x.backoffs,
                r.liquidatee,
            ),
            (StageState::Assembling, Event::AssembleFailed { message, .. }) => with_failure(
                x.backoffs,
                r.liquidatee,
                r.liab_mint,
                message@,
                now,
            ),
            _ => x.backoffs,
        },
        cranked: match (r.stage, event) {
            (
                StageState::Simulating(_),
                Event::Simulated(Simulation::StalePrice | Simulation::Unavailable),
            ) => looked_up(x.cranked, r.swb_oracles, now),
            (StageState::Cranking { at, .. }, Event::CrankBuilt(_)) => with_all(
                x.cranked,
                r.swb_oracles,
                at,
            ),
            _ => x.cranked,
        },
        fallbacks: if starts_one_by_one(x, r, event, now) {
            next_count(x.fallbacks)
        } else {
            x.fallbacks
        },
    }
}

/// The execution of an intent at its start, where the bank of its liability is known.
pub open spec fn started<T, E>(
    x: Records,
    liab_mint: Pubkey,
    intent: LiquidationIntent,
    now: Instant,
) -> ExecutionState<T, E> {
    ExecutionState {
        liquidatee: intent.liquidatee,
        liab_mint,
        swb_oracles: intent.swb_oracles@,
        temp_luts: Seq::empty(),
        stage: if live(x.backoffs, now).contains_key(liab_mint) {
            StageState::Finished(Ok(Outcome::Skipped(SkipReason::NoRoute)))
        } else if live(x.backoffs, now).contains_key(intent.liquidatee) {
            StageState::Finished(Ok(Outcome::Skipped(SkipReason::BackedOff)))
        } else {
            StageState::Assembling
        },
    }
}

// ── Steps ────────────────────────────────────────────────────────────────────

fn to_ending<E>(result: Result<Landing, SubmitError<E>>) -> (ending: Result<
    Outcome,
    ExecutionError<E>,
>)
    ensures
        ending == ending_of(result),
{
    match result {
        Ok(landing) => Ok(Outcome::Submitted(landing)),
        Err(e) => Err(ExecutionError::Submit(e)),
    }
}

impl<T, E> Execution<T, E> {
    /// The pending request.
    pub fn request(&self) -> (request: Request)
        ensures
            request == request_in(self@.stage),
    {
        match &self.stage {
            Stage::Assembling => Request::Assemble,
            Stage::Simulating(_) => Request::Simulate,
            Stage::Cranking { .. } => Request::BuildCrank,
            Stage::Resimulating(_) => Request::Simulate,
            Stage::Submitting(s) => Request::Submit(s.request()),
            Stage::CleaningUp(_) => Request::CleanUp,
            Stage::Finished(_) => Request::Nothing,
        }
    }

    /// The transactions to simulate or to submit, where the execution has any.
    pub fn txs(&self) -> (txs: Option<&Vec<T>>)
        ensures
            match (txs, self@.stage) {
                (Some(txs), StageState::Simulating(known)) => txs@ == known,
                (Some(txs), StageState::Cranking { txs: known, .. }) => txs@ == known,
                (Some(txs), StageState::Resimulating(known)) => txs@ == known,
                (Some(txs), StageState::Submitting(s)) => txs@ == s.txs,
                (Some(_), _) => false,
                (None, stage) => stage is Assembling || stage is CleaningUp || stage is Finished,
            },
    {
        match &self.stage {
            Stage::Simulating(txs) => Some(txs),
            Stage::Cranking { txs, .. } => Some(txs),
            Stage::Resimulating(txs) => Some(txs),
            Stage::Submitting(s) => Some(s.txs()),
            _ => None,
        }
    }

    /// The feeds to crank.
    pub fn swb_oracles(&self) -> (oracles: &Vec<Pubkey>)
        ensures
            oracles@ == self@.swb_oracles,
    {
        &self.swb_oracles
    }

    /// The lookup tables to deactivate.
    pub fn temp_luts(&self) -> (luts: &Vec<Pubkey>)
        ensures
            luts@ == self@.temp_luts,
    {
        &self.temp_luts
    }

    /// What came of the execution; `None` while a request is pending.
    pub fn into_result(self) -> (r: Option<Result<Outcome, ExecutionError<E>>>)
        ensures
            r == match self@.stage {
                StageState::Finished(ending) => Some(ending),
                _ => None,
            },
    {
        match self.stage {
            Stage::Finished(ending) => Some(ending),
            _ => None,
        }
    }
}

impl<T, E> Stage<T, E> {
    fn end(temp_luts: &Vec<Pubkey>, ending: Result<Outcome, ExecutionError<E>>) -> (stage: Stage<
        T,
        E,
    >)
        ensures
            stage.state() == ended::<T, E>(temp_luts@, ending),
    {
        if temp_luts.len() == 0 {
            Stage::Finished(ending)
        } else {
            Stage::CleaningUp(ending)
        }
    }

    fn submit(temp_luts: &Vec<Pubkey>, submission: Submission<T, E>) -> (stage: Stage<T, E>)
        requires
            state_wf(submission@),
        ensures
            stage.state() == submitting(temp_luts@, submission@),
            stage.state() matches StageState::Submitting(s) ==> state_wf(s) && !(s.phase is Done),
    {
        match submission.into_result() {
            Ok(result) => Self::end(temp_luts, to_ending(result)),
            Err(submission) => Stage::Submitting(submission),
        }
    }
}

impl Executor {
    /// Starts the execution of an intent, unless its mint or its target is left alone at the
    /// moment. A target whose wait is over is tried again, with its failures still on record.
    pub fn try_execute<T, E>(
        &mut self,
        banks: &BanksCache,
        intent: &LiquidationIntent,
        now: Instant,
    ) -> (r: Result<Execution<T, E>, BanksError>)
        requires
            old(self).wf(),
            banks.wf(),
        ensures
            final(self).wf(),
            match r {
                Ok(r) => banks.banks().contains_key(intent.liab_bank) && execution_wf(r@) && r@
                    == started::<T, E>(
                    old(self)@,
                    banks.banks()[intent.liab_bank].bank.mint,
                    *intent,
                    now,
                ) && final(self)@ == (Records {
                    backoffs: needed(old(self)@.backoffs, now),
                    ..old(self)@
                }),
                Err(e) => !banks.banks().contains_key(intent.liab_bank) && e
                    == BanksError::BankNotFound(intent.liab_bank) && final(self)@ == old(self)@,
            },
    {
        let liab_mint = match Self::intent_liab_mint(banks, intent) {
            Ok(mint) => mint,
            Err(e) => {
                return Err(e);
            },
        };
        let stage = if self.is_left_alone(&liab_mint, now) {
            Stage::Finished(Ok(Outcome::Skipped(SkipReason::NoRoute)))
        } else if self.is_left_alone(&intent.liquidatee, now) {
            Stage::Finished(Ok(Outcome::Skipped(SkipReason::BackedOff)))
        } else {
            Stage::Assembling
        };
        self.drop_expired_quarantines(now);
        Ok(
            Execution {
                liquidatee: intent.liquidatee,
                liab_mint,
                swb_oracles: copy_keys(&intent.swb_oracles),
                temp_luts: Vec::new(),
                stage,
            },
        )
    }

    /// Starts to land the transactions as a bundle.
    pub fn submit<T, E>(&self, txs: Vec<T>) -> (s: Submission<T, E>)
        ensures
            s@ == bundle_first::<T, E>(txs@),
            state_wf(s@),
    {
        Submission::bundle(txs)
    }

    /// Takes an event in for a submission by itself. Turning to one by one is counted.
    pub fn submission_step<T, E>(
        &mut self,
        s: Submission<T, E>,
        event: SubmitEvent<T, E>,
    ) -> (next: Submission<T, E>)
        requires
            old(self).wf(),
            state_wf(s@),
        ensures
            final(self).wf(),
            final(self)@ == (Records {
                fallbacks: if falls_back(s@, event) {
                    next_count(old(self)@.fallbacks)
                } else {
                    old(self)@.fallbacks
                },
                ..old(self)@
            }),
            next@ == after_event(s@, event),
            state_wf(next@),
    {
        let counts = match (s.request(), &event) {
            (SubmitRequest::BuildTip, SubmitEvent::TipFailed) => true,
            (SubmitRequest::SendBundle, SubmitEvent::BundleNotAccepted) => true,
            _ => false,
        };
        if counts {
            self.count_fallback();
        }
        s.step(event)
    }

    fn count_fallback(&mut self)
        requires
            old(self).wf(),
        ensures
            final(self).wf(),
            final(self)@ == (Records {
                fallbacks: next_count(old(self)@.fallbacks),
                ..old(self)@
            }),
    {
        self.sequential_fallbacks = self.sequential_fallbacks.wrapping_add(1);
    }

    /// How often transactions were sent one by one.
    pub fn sequential_fallbacks(&self) -> (n: u64)
        ensures
            n == self@.fallbacks,
    {
        self.sequential_fallbacks
    }

    fn go_on<T, E>(&mut self, temp_luts: &Vec<Pubkey>, txs: Vec<T>, blind: bool) -> (
    stage: Stage<T, E>)
        requires
            old(self).wf(),
        ensures
            final(self).wf(),
            final(self)@ == (Records {
                fallbacks: if blind {
                    next_count(old(self)@.fallbacks)
                } else {
                    old(self)@.fallbacks
                },
                ..old(self)@
            }),
            stage.state() == cranked_or_not::<T, E>(temp_luts@, txs@, blind),
            stage.state() matches StageState::Submitting(s) ==> state_wf(s) && !(s.phase is Done),
    {
        if blind {
            self.count_fallback();
            Stage::submit(temp_luts, Submission::one_by_one(txs))
        } else {
            Stage::Resimulating(txs)
        }
    }

    /// Takes an event in.
    pub fn step<T, E>(&mut self, r: Execution<T, E>, event: Event<T, E>, now: Instant) -> (
    next: Execution<T, E>)
        requires
            old(self).wf(),
            execution_wf(r@),
            can_add(now, secs(NO_ROUTE_QUARANTINE_TTL_SECS as nat)),
        ensures
            final(self).wf(),
            final(self)@ == records_after(old(self)@, r@, event, now),
            next@ == execution_after(old(self)@, r@, event, now),
            execution_wf(next@),
    {
        let Execution { liquidatee, liab_mint, swb_oracles, temp_luts, stage } = r;
        let mut luts = temp_luts;
        let stage = match (stage, event) {
            (Stage::Assembling, Event::Assembled(plan)) => {
                self.clear_target_backoff(&liquidatee);
                luts = plan.temp_luts;
                Stage::Simulating(plan.txs)
            },
            (Stage::Assembling, Event::NotHandled) => Stage::Finished(
                Ok(Outcome::Skipped(SkipReason::NotHandled)),
            ),
            (Stage::Assembling, Event::AssembleFailed { error, message }) => {
                self.note_assemble_failure(&liquidatee, liab_mint, message.as_str(), now);
                Stage::Finished(Err(ExecutionError::AssembleFailed(error)))
            },
            (Stage::Simulating(txs), Event::Simulated(simulation)) => match simulation {
                Simulation::Succeeded => Stage::submit(&luts, Submission::bundle(txs)),
                Simulation::WouldFail => Stage::end(
                    &luts,
                    Ok(Outcome::Skipped(SkipReason::WouldFail)),
                ),
                _ => {
                    let blind = simulation == Simulation::Unavailable;
                    if self.crank_needed(&swb_oracles, now) {
                        Stage::Cranking { txs, at: now, blind }
                    } else {
                        self.go_on(&luts, txs, blind)
                    }
                },
            },
            (Stage::Cranking { txs, at, blind }, Event::CrankBuilt(crank)) => {
                self.note_cranked(&swb_oracles, at);
                let ghost known = txs@;
                let mut txs = txs;
                txs.insert(0, crank);
                assert(txs@ =~= seq![crank] + known);
                self.go_on(&luts, txs, blind)
            },
            (Stage::Cranking { txs, at, blind }, Event::CrankFailed) => self.go_on(
                &luts,
                txs,
                blind,
            ),
            (Stage::Resimulating(txs), Event::Simulated(simulation)) => match simulation {
                Simulation::Succeeded => Stage::submit(&luts, Submission::bundle(txs)),
                Simulation::Unavailable => Stage::end(
                    &luts,
                    Ok(Outcome::Skipped(SkipReason::CannotResimulate)),
                ),
                _ => Stage::end(&luts, Ok(Outcome::Skipped(SkipReason::FailsAfterCrank))),
            },
            (Stage::Submitting(submission), Event::Submission(e)) => {
                let submission = self.submission_step(submission, e);
                Stage::submit(&luts, submission)
            },
            (Stage::CleaningUp(ending), Event::CleanedUp) => Stage::Finished(ending),
            (stage, _) => stage,
        };
        Execution { liquidatee, liab_mint, swb_oracles, temp_luts: luts, stage }
    }
}

// ── Laws ─────────────────────────────────────────────────────────────────────

/// The time is before a given number of seconds have passed.
pub open spec fn within(later: Instant, at: Instant, s: nat) -> bool {
    later.nanos < at.nanos + secs(s)
}

/// A liability mint that was found to have no swap route is skipped for the quarantine time,
/// whatever the target, and then tried again.
pub proof fn law_no_route_quarantines_the_mint<T, E>(
    x: Records,
    target: Pubkey,
    liab_mint: Pubkey,
    message: Seq<char>,
    now: Instant,
    intent: LiquidationIntent,
    later: Instant,
)
    requires
        contains_text(message, NO_ROUTES_FOUND@),
        can_add(now, secs(NO_ROUTE_QUARANTINE_TTL_SECS as nat)),
    ensures
        ({
            let after = Records {
                backoffs: with_failure(x.backoffs, target, liab_mint, message, now),
                ..x
            };
            (started::<T, E>(after, liab_mint, intent, later).stage == StageState::<
                T,
                E,
            >::Finished(Ok(Outcome::Skipped(SkipReason::NoRoute)))) == within(
                later,
                now,
                NO_ROUTE_QUARANTINE_TTL_SECS as nat,
            )
        }),
{
}

/// A target that failed to assemble for another reason is skipped until its wait is over, and
/// the failure leaves all other addresses as they were.
pub proof fn law_failure_backs_off_the_target<T, E>(
    x: Records,
    intent: LiquidationIntent,
    liab_mint: Pubkey,
    message: Seq<char>,
    now: Instant,
    later: Instant,
    other: Pubkey,
)
    requires
        !contains_text(message, NO_ROUTES_FOUND@),
        can_add(now, secs(NO_ROUTE_QUARANTINE_TTL_SECS as nat)),
        other != intent.liquidatee,
    ensures
        ({
            let backoffs = with_failure(x.backoffs, intent.liquidatee, liab_mint, message, now);
            let after = Records { backoffs, ..x };
            let failures = one_more(failures_of(x.backoffs, intent.liquidatee));
            &&& started::<T, E>(after, liab_mint, intent, later).stage is Assembling ==> !within(
                later,
                now,
                target_backoff_secs(failures as nat),
            )
            &&& live(backoffs, later).contains_key(intent.liquidatee) == within(
                later,
                now,
                target_backoff_secs(failures as nat),
            )
            &&& live(backoffs, later).contains_key(other) == live(x.backoffs, later).contains_key(
                other,
            )
        }),
{
}

/// A target that assembled is not backed off any more; its mint stays quarantined where it was.
pub proof fn law_success_clears_the_backoff(
    backoffs: Map<Pubkey, BackoffState>,
    target: Pubkey,
    other: Pubkey,
    now: Instant,
)
    ensures
        failures_of(without_target(backoffs, target), target) == 0,
        live(without_target(backoffs, target), now).contains_key(target) ==> backoffs[target] is Mint,
        other != target ==> live(without_target(backoffs, target), now).contains_key(other) == live(
            backoffs,
            now,
        ).contains_key(other),
{
}

/// What changes the backoffs.
pub enum Turn {
    /// It was asked whether an address is left alone.
    Asked { at: Instant },
    /// An execution was started.
    Started { at: Instant },
    /// A target failed to assemble.
    Failed { target: Pubkey, liab_mint: Pubkey, message: Seq<char>, at: Instant },
    /// A target assembled.
    Assembled { target: Pubkey },
}

/// The entries after a turn.
pub open spec fn after_turn(backoffs: Map<Pubkey, BackoffState>, turn: Turn) -> Map<
    Pubkey,
    BackoffState,
> {
    match turn {
        Turn::Asked { at } => live(backoffs, at),
        Turn::Started { at } => needed(backoffs, at),
        Turn::Failed { target, liab_mint, message, at } => with_failure(
            backoffs,
            target,
            liab_mint,
            message,
            at,
        ),
        Turn::Assembled { target } => without_target(backoffs, target),
    }
}

/// The entries after some turns.
pub open spec fn after_turns(backoffs: Map<Pubkey, BackoffState>, turns: Seq<Turn>) -> Map<
    Pubkey,
    BackoffState,
>
    decreases turns.len(),
{
    if turns.len() == 0 {
        backoffs
    } else {
        after_turn(after_turns(backoffs, turns.drop_last()), turns.last())
    }
}

/// The turn that an event in an execution amounts to, if any.
pub open spec fn turn_of<T, E>(
    r: ExecutionState<T, E>,
    event: Event<T, E>,
    now: Instant,
) -> Option<Turn> {
    match (r.stage, event) {
        (StageState::Assembling, Event::Assembled(_)) => Some(
            Turn::Assembled { target: r.liquidatee },
        ),
        (StageState::Assembling, Event::AssembleFailed { message, .. }) => Some(
            Turn::Failed {
                target: r.liquidatee,
                liab_mint: r.liab_mint,
                message: message@,
                at: now,
            },
        ),
        _ => None,
    }
}

/// The target failed to assemble in the turn, for another reason than a missing route.
pub open spec fn fails(turn: Turn, target: Pubkey) -> bool {
    turn matches Turn::Failed { target: failed, message, .. } && failed == target
        && !contains_text(message, NO_ROUTES_FOUND@)
}

/// The turn is a question that comes when the target waits no longer after some earlier turns.
pub open spec fn forgets(turn: Turn, before: Seq<Turn>, target: Pubkey) -> bool {
    turn matches Turn::Asked { at } && failures_in_a_row(before, target) > 0 && !within(
        at,
        last_failure(before, target),
        target_backoff_secs(failures_in_a_row(before, target)),
    )
}

/// The turn quarantines the mint.
pub open spec fn quarantines(turn: Turn, mint: Pubkey) -> bool {
    turn matches Turn::Failed { liab_mint, message, .. } && liab_mint == mint && contains_text(
        message,
        NO_ROUTES_FOUND@,
    )
}

/// The failures of a target since it last assembled.
pub open spec fn failures_in_a_row(turns: Seq<Turn>, target: Pubkey) -> nat
    decreases turns.len(),
{
    if turns.len() == 0 {
        0
    } else if fails(turns.last(), target) {
        failures_in_a_row(turns.drop_last(), target) + 1
    } else if turns.last() == (Turn::Assembled { target }) {
        0
    } else {
        failures_in_a_row(turns.drop_last(), target)
    }
}

/// The time at which a target failed last.
pub open spec fn last_failure(turns: Seq<Turn>, target: Pubkey) -> Instant
    recommends
        failures_in_a_row(turns, target) > 0,
    decreases turns.len(),
{
    if turns.len() == 0 {
        Instant { nanos: 0 }
    } else if fails(turns.last(), target) {
        turns.last()->Failed_at
    } else {
        last_failure(turns.drop_last(), target)
    }
}

/// The events of executions change the backoffs by turns only.
pub proof fn law_backoffs_change_by_turns<T, E>(
    x: Records,
    r: ExecutionState<T, E>,
    event: Event<T, E>,
    now: Instant,
)
    ensures
        records_after(x, r, event, now).backoffs == match turn_of(r, event, now) {
            Some(turn) => after_turn(x.backoffs, turn),
            None => x.backoffs,
        },
{
}

/// The wait has long reached its cap where the count of failures ends.
proof fn lemma_wait_at_the_largest_count(failures: nat)
    requires
        failures >= u32::MAX,
    ensures
        target_backoff_secs(failures) == TARGET_BACKOFF_MAX_SECS,
{
    lemma2_to64();
    law_backoff_grows_to_its_cap(
        TARGET_BACKOFF_BASE_SECS as nat,
        TARGET_BACKOFF_MAX_SECS as nat,
        6,
        failures,
    );
}

/// After `n` failures in a row, with no successful assembly between them, a target is left alone
/// until the wait of its `n`-th failure is over, at whatever times the failures came and whatever
/// befell other targets meanwhile. The target's own address is not that of a quarantined mint, and
/// no question that drops expired entries came while the target waited no longer.
pub proof fn law_failures_in_a_row_lengthen_the_wait(
    backoffs: Map<Pubkey, BackoffState>,
    turns: Seq<Turn>,
    target: Pubkey,
    later: Instant,
)
    requires
        !backoffs.contains_key(target),
        forall|i: int|
            0 <= i < turns.len() ==> !quarantines(#[trigger] turns[i], target) && !forgets(
                turns[i],
                turns.take(i),
                target,
            ) && (fails(turns[i], target) ==> can_add(
                turns[i]->Failed_at,
                secs(TARGET_BACKOFF_MAX_SECS as nat),
            )),
    ensures
        ({
            let after = after_turns(backoffs, turns);
            let n = failures_in_a_row(turns, target);
            &&& failures_of(after, target) == if n <= u32::MAX {
                n
            } else {
                u32::MAX as nat
            }
            &&& live(after, later).contains_key(target) == (n > 0 && within(
                later,
                last_failure(turns, target),
                target_backoff_secs(n),
            ))
        }),
{
    lemma_entry_of_failures_in_a_row(backoffs, turns, target);
    lemma_end_of_wait(turns, target);
}

/// The end of a target's wait can be represented.
proof fn lemma_end_of_wait(turns: Seq<Turn>, target: Pubkey)
    requires
        forall|i: int|
            0 <= i < turns.len() && fails(#[trigger] turns[i], target) ==> can_add(
                turns[i]->Failed_at,
                secs(TARGET_BACKOFF_MAX_SECS as nat),
            ),
    ensures
        failures_in_a_row(turns, target) > 0 ==> can_add(
            last_failure(turns, target),
            secs(target_backoff_secs(failures_in_a_row(turns, target))),
        ),
{
    if failures_in_a_row(turns, target) > 0 {
        lemma_last_failure_is_a_failure(turns, target);
    }
    law_backoff_grows_to_its_cap(
        TARGET_BACKOFF_BASE_SECS as nat,
        TARGET_BACKOFF_MAX_SECS as nat,
        failures_in_a_row(turns, target),
        failures_in_a_row(turns, target),
    );
}

proof fn lemma_last_failure_is_a_failure(turns: Seq<Turn>, target: Pubkey)
    requires
        failures_in_a_row(turns, target) > 0,
    ensures
        exists|i: int|
            0 <= i < turns.len() && fails(#[trigger] turns[i], target) && turns[i]->Failed_at
                == last_failure(turns, target),
    decreases turns.len(),
{
    if fails(turns.last(), target) {
        assert(turns[turns.len() - 1] == turns.last());
    } else {
        let before = turns.drop_last();
        lemma_last_failure_is_a_failure(before, target);
        let i = choose|i: int|
            0 <= i < before.len() && fails(#[trigger] before[i], target) && before[i]->Failed_at
                == last_failure(before, target);
        assert(turns[i] == before[i]);
    }
}

/// The entry of a target after some turns.
proof fn lemma_entry_of_failures_in_a_row(
    backoffs: Map<Pubkey, BackoffState>,
    turns: Seq<Turn>,
    target: Pubkey,
)
    requires
        !backoffs.contains_key(target),
        forall|i: int|
            0 <= i < turns.len() ==> !quarantines(#[trigger] turns[i], target) && !forgets(
                turns[i],
                turns.take(i),
                target,
            ) && (fails(turns[i], target) ==> can_add(
                turns[i]->Failed_at,
                secs(TARGET_BACKOFF_MAX_SECS as nat),
            )),
    ensures
        ({
            let after = after_turns(backoffs, turns);
            let n = failures_in_a_row(turns, target);
            let count = if n <= u32::MAX {
                n as u32
            } else {
                u32::MAX
            };
            &&& after.contains_key(target) == (n > 0)
            &&& n > 0 ==> after[target] == BackoffState::Target(
                TargetBackoff {
                    failures: count,
                    retry_after: later_by(last_failure(turns, target), target_backoff_secs(n)),
                },
            )
        }),
    decreases turns.len(),
{
    if turns.len() > 0 {
        let before = turns.drop_last();
        assert forall|i: int| 0 <= i < before.len() implies !quarantines(
            #[trigger] before[i],
            target,
        ) && !forgets(before[i], before.take(i), target) && (fails(before[i], target) ==> can_add(
            before[i]->Failed_at,
            secs(TARGET_BACKOFF_MAX_SECS as nat),
        )) by {
            assert(before[i] == turns[i]);
            assert(before.take(i) =~= turns.take(i));
        }
        lemma_entry_of_failures_in_a_row(backoffs, before, target);
        lemma_end_of_wait(before, target);
        assert(turns[turns.len() - 1] == turns.last());
        assert(turns.take(turns.len() - 1) =~= before);
        let n = failures_in_a_row(turns, target);
        if n > u32::MAX {
            lemma_wait_at_the_largest_count(n);
            lemma_wait_at_the_largest_count(u32::MAX as nat);
        }
    }
}

/// Once its time has come, no address is left alone any longer.
pub proof fn law_every_backoff_expires(
    backoffs: Map<Pubkey, BackoffState>,
    key: Pubkey,
    now: Instant,
)
    requires
        backoffs.contains_key(key) ==> now.nanos >= retry_time(backoffs[key]).nanos,
    ensures
        !live(backoffs, now).contains_key(key),
{
}

/// Feeds that were cranked are not cranked again within the cooldown, and are after it.
pub proof fn law_cranks_are_not_repeated(
    cranked: Map<Pubkey, Instant>,
    oracles: Seq<Pubkey>,
    at: Instant,
    now: Instant,
)
    requires
        oracles.len() > 0,
    ensures
        crank_due(with_all(cranked, oracles, at), oracles, now) == !is_fresh(at, now),
{
    let after = with_all(cranked, oracles, at);
    assert forall|i: int| 0 <= i < oracles.len() implies fresh(after, now).contains_key(
        #[trigger] oracles[i],
    ) == is_fresh(at, now) by {
        assert(oracles.contains(oracles[i]));
    }
    if !is_fresh(at, now) {
        assert(!fresh(after, now).contains_key(oracles[0]));
    }
}

/// Transactions go out as a bundle only when a simulation of just these transactions succeeded.
pub proof fn law_a_bundle_needs_a_successful_simulation<T, E>(
    x: Records,
    r: ExecutionState<T, E>,
    event: Event<T, E>,
    now: Instant,
    s: SubmissionState<T, E>,
)
    requires
        !(r.stage is Submitting),
        stage_after(x, r, event, now) == StageState::Submitting(s),
        s.phase is Tipping,
    ensures
        event == Event::<T, E>::Simulated(Simulation::Succeeded),
        r.stage == StageState::<T, E>::Simulating(s.txs) || r.stage == StageState::<
            T,
            E,
        >::Resimulating(s.txs),
{
}

/// Transactions that a simulation reports to fail for another reason than a stale price are not
/// sent.
pub proof fn law_doomed_transactions_are_not_sent<T, E>(
    x: Records,
    r: ExecutionState<T, E>,
    now: Instant,
)
    requires
        r.stage is Simulating || r.stage is Resimulating,
    ensures
        ({
            let next = stage_after(x, r, Event::Simulated(Simulation::WouldFail), now);
            ||| next matches StageState::Finished(Ok(Outcome::Skipped(_)))
            ||| next matches StageState::CleaningUp(Ok(Outcome::Skipped(_)))
        }),
{
}

/// The transactions of the plan change in one way only: one crank, put in front of them.
pub proof fn law_only_a_crank_is_put_in_front<T, E>(
    x: Records,
    r: ExecutionState<T, E>,
    event: Event<T, E>,
    now: Instant,
    txs: Seq<T>,
)
    requires
        match r.stage {
            StageState::Simulating(known) => known == txs,
            StageState::Cranking { txs: known, .. } => known == txs,
            StageState::Resimulating(known) => known == txs,
            _ => false,
        },
    ensures
        match stage_after(x, r, event, now) {
            StageState::Simulating(next) => next == txs,
            StageState::Cranking { txs: next, .. } => next == txs,
            StageState::Resimulating(next) => next == txs || r.stage is Cranking && (
            event matches Event::CrankBuilt(crank) && next == seq![crank] + txs),
            StageState::Submitting(s) => s.txs == txs || r.stage is Cranking && (
            event matches Event::CrankBuilt(crank) && s.txs == seq![crank] + txs),
            _ => true,
        },
{
}

/// The lookup tables of a plan are always cleaned up before the execution is over.
pub proof fn law_lookup_tables_are_cleaned_up<T, E>(
    x: Records,
    r: ExecutionState<T, E>,
    event: Event<T, E>,
    now: Instant,
)
    requires
        execution_wf(r),
        !(r.stage is Finished),
        stage_after(x, r, event, now) is Finished,
    ensures
        execution_after(x, r, event, now).temp_luts == r.temp_luts,
        r.temp_luts.len() == 0 || r.stage is CleaningUp && event is CleanedUp,
{
}

/// An ending, once reached, stays: cleaning up does not change what came of the execution.
pub proof fn law_the_ending_stays<T, E>(
    x: Records,
    r: ExecutionState<T, E>,
    event: Event<T, E>,
    now: Instant,
    ending: Result<Outcome, ExecutionError<E>>,
)
    requires
        r.stage == StageState::<T, E>::CleaningUp(ending) || r.stage == StageState::<
            T,
            E,
        >::Finished(ending),
    ensures
        ({
            let next = stage_after(x, r, event, now);
            next == StageState::<T, E>::CleaningUp(ending) || next == StageState::<T, E>::Finished(
                ending,
            )
        }),
{
}

/// The requests that an execution with a plan can still make, at most.
pub open spec fn requests_left<T, E>(stage: StageState<T, E>) -> nat {
    match stage {
        StageState::Assembling => 0,
        StageState::Simulating(txs) => txs.len() + 7,
        StageState::Cranking { txs, .. } => txs.len() + 6,
        StageState::Resimulating(txs) => txs.len() + 4,
        StageState::Submitting(s) => steps_left(s) + 1,
        StageState::CleaningUp(_) => 1,
        StageState::Finished(_) => 0,
    }
}

/// The strategy is asked once, and every answer after that brings the execution nearer to its
/// end.
pub proof fn law_execution_ends<T, E>(
    x: Records,
    r: ExecutionState<T, E>,
    event: Event<T, E>,
    now: Instant,
)
    requires
        execution_wf(r),
        answers(request_in(r.stage), event),
    ensures
        !(stage_after(x, r, event, now) is Assembling),
        !(r.stage is Assembling) ==> requests_left(stage_after(x, r, event, now)) < requests_left(
            r.stage,
        ),
{
}

/// An event that answers another request than the pending one changes nothing.
pub proof fn law_stray_events_change_nothing<T, E>(
    x: Records,
    r: ExecutionState<T, E>,
    event: Event<T, E>,
    now: Instant,
)
    requires
        !answers(request_in(r.stage), event),
        execution_wf(r),
    ensures
        execution_after(x, r, event, now) == r,
        records_after(x, r, event, now) == x,
{
}

/// What happened in an execution, and when.
pub struct Happening<T, E> {
    pub event: Event<T, E>,
    pub at: Instant,
}

/// The records and the execution after some events.
pub open spec fn after_all<T, E>(
    x: Records,
    r: ExecutionState<T, E>,
    happenings: Seq<Happening<T, E>>,
) -> (Records, ExecutionState<T, E>)
    decreases happenings.len(),
{
    if happenings.len() == 0 {
        (x, r)
    } else {
        let (x, r) = after_all(x, r, happenings.drop_last());
        let last = happenings.last();
        (records_after(x, r, last.event, last.at), execution_after(x, r, last.event, last.at))
    }
}

/// Once a bundle was accepted, nothing of the execution is sent again, whatever happens
/// afterwards, and its outcome is that of the bundle.
pub proof fn law_an_accepted_bundle_is_the_end<T, E>(
    x: Records,
    r: ExecutionState<T, E>,
    accepted: SubmitEvent<T, E>,
    now: Instant,
    later: Seq<Happening<T, E>>,
)
    requires
        r.stage matches StageState::Submitting(s) && s.phase is Bundling,
        accepted is BundleConfirmed || accepted is BundleUnconfirmed,
    ensures
        ({
            let event = Event::Submission(accepted);
            let landing = if accepted is BundleConfirmed {
                Landing::Bundled
            } else {
                Landing::InFlight
            };
            let ending = Ok::<Outcome, ExecutionError<E>>(Outcome::Submitted(landing));
            let (_, end) = after_all(
                records_after(x, r, event, now),
                execution_after(x, r, event, now),
                later,
            );
            &&& end.stage == StageState::<T, E>::CleaningUp(ending) || end.stage == StageState::<
                T,
                E,
            >::Finished(ending)
            &&& !(request_in(end.stage) is Submit)
        }),
    decreases later.len(),
{
    if later.len() > 0 {
        law_an_accepted_bundle_is_the_end(x, r, accepted, now, later.drop_last());
    }
}

/// The execution has come to an ending. It is over where it made no lookup tables; otherwise these
/// are dealt with first.
pub open spec fn has_ending<T, E>(
    r: ExecutionState<T, E>,
    ending: Result<Outcome, ExecutionError<E>>,
) -> bool {
    if r.temp_luts.len() == 0 {
        r.stage == StageState::<T, E>::Finished(ending)
    } else {
        r.stage == StageState::<T, E>::CleaningUp(ending)
    }
}

/// The transactions of an execution are about to go out as a bundle, for which the tip is asked.
pub open spec fn is_bundling<T, E>(r: ExecutionState<T, E>, txs: Seq<T>) -> bool {
    &&& r.stage matches StageState::Submitting(s) && s.txs == txs && s.phase is Tipping
    &&& request_in(r.stage) == Request::Submit(SubmitRequest::BuildTip)
}

/// The transactions of an execution are about to go out one by one, the first of them first.
pub open spec fn is_sending<T, E>(r: ExecutionState<T, E>, txs: Seq<T>) -> bool {
    &&& r.stage matches StageState::Submitting(s) && s.txs == txs && s.phase
        == SubmitPhase::<E>::Sending(0)
    &&& request_in(r.stage) == Request::Submit(SubmitRequest::SendTransaction(0))
}

/// Transactions whose simulation succeeded are submitted as they are, as a bundle, after the
/// first simulation as after the one with the crank. Only an empty list is not: it is an error.
pub proof fn law_a_successful_simulation_is_submitted<T, E>(
    x: Records,
    r: ExecutionState<T, E>,
    txs: Seq<T>,
    now: Instant,
)
    requires
        r.stage == StageState::<T, E>::Simulating(txs) || r.stage == StageState::<
            T,
            E,
        >::Resimulating(txs),
    ensures
        ({
            let next = execution_after(x, r, Event::Simulated(Simulation::Succeeded), now);
            &&& next.temp_luts == r.temp_luts
            &&& txs.len() > 0 ==> is_bundling(next, txs)
            &&& txs.len() == 0 ==> has_ending(
                next,
                Err(ExecutionError::Submit(SubmitError::NoTransactions)),
            )
        }),
{
}

/// A plan is simulated before anything else, as the strategy made it, and its lookup tables are
/// those of the execution. What the strategy does not handle is skipped, and its error is that of
/// the execution.
pub proof fn law_a_plan_is_simulated_first<T, E>(
    x: Records,
    r: ExecutionState<T, E>,
    plan: ExecutionPlan<T>,
    error: E,
    message: String,
    now: Instant,
)
    requires
        r.stage is Assembling,
    ensures
        ({
            let next = execution_after(x, r, Event::Assembled(plan), now);
            &&& next.stage == StageState::<T, E>::Simulating(plan.txs@)
            &&& request_in(next.stage) == Request::Simulate
            &&& next.temp_luts == plan.temp_luts@
            &&& next.liquidatee == r.liquidatee
            &&& next.liab_mint == r.liab_mint
            &&& next.swb_oracles == r.swb_oracles
        }),
        execution_after(x, r, Event::NotHandled, now).stage == StageState::<T, E>::Finished(
            Ok(Outcome::Skipped(SkipReason::NotHandled)),
        ),
        execution_after(x, r, Event::AssembleFailed { error, message }, now).stage == StageState::<
            T,
            E,
        >::Finished(Err(ExecutionError::AssembleFailed(error))),
{
}

/// At least one of the feeds was not cranked before, or so long ago that the cooldown is over.
pub open spec fn has_stale_feed(
    cranked: Map<Pubkey, Instant>,
    oracles: Seq<Pubkey>,
    now: Instant,
) -> bool {
    exists|i: int|
        0 <= i < oracles.len() && (!cranked.contains_key(#[trigger] oracles[i])
            || cranked[oracles[i]].nanos + 30 * NANOS_PER_SEC <= now.nanos)
}

/// A crank is due exactly where a feed was not cranked within the cooldown.
pub proof fn law_a_crank_is_due_for_a_stale_feed(
    cranked: Map<Pubkey, Instant>,
    oracles: Seq<Pubkey>,
    now: Instant,
)
    ensures
        crank_due(cranked, oracles, now) == has_stale_feed(cranked, oracles, now),
{
    if crank_due(cranked, oracles, now) {
        let i = choose|i: int|
            0 <= i < oracles.len() && !fresh(cranked, now).contains_key(#[trigger] oracles[i]);
        assert(!cranked.contains_key(oracles[i]) || cranked[oracles[i]].nanos + 30 * NANOS_PER_SEC
            <= now.nanos);
    }
    if has_stale_feed(cranked, oracles, now) {
        let i = choose|i: int|
            0 <= i < oracles.len() && (!cranked.contains_key(#[trigger] oracles[i])
                || cranked[oracles[i]].nanos + 30 * NANOS_PER_SEC <= now.nanos);
        assert(!fresh(cranked, now).contains_key(oracles[i]));
    }
}

/// Transactions that fail on a stale price get a crank where a feed is stale, and are simulated
/// again in any case. Where no simulation can be had, they get it too, and go out one by one.
pub proof fn law_stale_prices_are_cranked<T, E>(
    x: Records,
    r: ExecutionState<T, E>,
    txs: Seq<T>,
    now: Instant,
)
    requires
        r.stage == StageState::<T, E>::Simulating(txs),
        txs.len() > 0,
    ensures
        ({
            let stale = execution_after(x, r, Event::Simulated(Simulation::StalePrice), now);
            let blind = execution_after(x, r, Event::Simulated(Simulation::Unavailable), now);
            if has_stale_feed(x.cranked, r.swb_oracles, now) {
                &&& stale.stage == (StageState::<T, E>::Cranking { txs, at: now, blind: false })
                &&& blind.stage == (StageState::<T, E>::Cranking { txs, at: now, blind: true })
                &&& request_in(stale.stage) == Request::BuildCrank
                &&& request_in(blind.stage) == Request::BuildCrank
            } else {
                &&& stale.stage == StageState::<T, E>::Resimulating(txs)
                &&& request_in(stale.stage) == Request::Simulate
                &&& is_sending(blind, txs)
            }
        }),
{
    law_a_crank_is_due_for_a_stale_feed(x.cranked, r.swb_oracles, now);
}

/// A crank that was built stands in front of the transactions, which keep their order; one that
/// could not be built leaves them as they are. They are simulated again, or go out one by one
/// where no simulation can be had.
pub proof fn law_a_built_crank_goes_first<T, E>(
    x: Records,
    r: ExecutionState<T, E>,
    txs: Seq<T>,
    at: Instant,
    blind: bool,
    crank: T,
    now: Instant,
    out: Seq<T>,
)
    requires
        r.stage == (StageState::<T, E>::Cranking { txs, at, blind }),
        txs.len() > 0,
        out.len() == txs.len() + 1,
        out[0] == crank,
        forall|i: int| 0 <= i < txs.len() ==> #[trigger] out[i + 1] == txs[i],
    ensures
        ({
            let built = execution_after(x, r, Event::CrankBuilt(crank), now);
            let failed = execution_after(x, r, Event::CrankFailed, now);
            if blind {
                is_sending(built, out) && is_sending(failed, txs)
            } else {
                built.stage == StageState::<T, E>::Resimulating(out) && failed.stage
                    == StageState::<T, E>::Resimulating(txs)
            }
        }),
{
    let with_crank = seq![crank] + txs;
    assert forall|i: int| 0 <= i < out.len() implies with_crank[i] == out[i] by {
        if i > 0 {
            assert(out[(i - 1) + 1] == txs[i - 1]);
        }
    }
    assert(with_crank =~= out);
}

/// Transactions that would fail are not sent: the execution ends as skipped, and the reason says
/// in which simulation it was found out.
pub proof fn law_failing_transactions_are_skipped<T, E>(
    x: Records,
    r: ExecutionState<T, E>,
    simulation: Simulation,
    now: Instant,
)
    requires
        r.stage is Simulating && simulation == Simulation::WouldFail || r.stage is Resimulating
            && simulation != Simulation::Succeeded,
    ensures
        has_ending(
            execution_after(x, r, Event::Simulated(simulation), now),
            Ok(
                Outcome::Skipped(
                    if r.stage is Simulating {
                        SkipReason::WouldFail
                    } else if simulation == Simulation::Unavailable {
                        SkipReason::CannotResimulate
                    } else {
                        SkipReason::FailsAfterCrank
                    },
                ),
            ),
        ),
{
}

/// An execution follows its submission step by step, and how that ends is how the execution ends.
pub proof fn law_the_outcome_is_that_of_the_submission<T, E>(
    x: Records,
    r: ExecutionState<T, E>,
    s: SubmissionState<T, E>,
    event: SubmitEvent<T, E>,
    now: Instant,
)
    requires
        r.stage == StageState::<T, E>::Submitting(s),
    ensures
        ({
            let next = execution_after(x, r, Event::Submission(event), now);
            let after = after_event(s, event);
            match after.phase {
                SubmitPhase::Done(Ok(landing)) => has_ending(
                    next,
                    Ok(Outcome::Submitted(landing)),
                ),
                SubmitPhase::Done(Err(e)) => has_ending(next, Err(ExecutionError::Submit(e))),
                _ => next.stage == StageState::<T, E>::Submitting(after) && request_in(next.stage)
                    == Request::Submit(request_of(after.phase)),
            }
        }),
{
}

/// The lookup tables are dealt with once, and with that the execution is over.
pub proof fn law_cleaning_up_is_the_last_step<T, E>(
    x: Records,
    r: ExecutionState<T, E>,
    ending: Result<Outcome, ExecutionError<E>>,
    event: Event<T, E>,
    now: Instant,
)
    requires
        r.stage == StageState::<T, E>::CleaningUp(ending),
    ensures
        request_in(r.stage) == Request::CleanUp,
        execution_after(x, r, Event::CleanedUp, now).stage == StageState::<T, E>::Finished(ending),
        request_in(StageState::<T, E>::Finished(ending)) == Request::Nothing,
        !(event is CleanedUp) ==> execution_after(x, r, event, now) == r,
{
}

/// A plan whose simulation succeeds lands as one bundle: its transactions in order, with the tip
/// behind them and nothing else.
pub proof fn law_a_sound_plan_lands_as_a_bundle<T, E>(
    x: Records,
    r: ExecutionState<T, E>,
    plan: ExecutionPlan<T>,
    tip: T,
    now: Instant,
)
    requires
        r.stage is Assembling,
        plan.txs@.len() > 0,
    ensures
        ({
            let planned = execution_after(x, r, Event::Assembled(plan), now);
            let simulated = execution_after(
                x,
                planned,
                Event::Simulated(Simulation::Succeeded),
                now,
            );
            let tipped = execution_after(
                x,
                simulated,
                Event::Submission(SubmitEvent::TipBuilt(tip)),
                now,
            );
            let landed = execution_after(
                x,
                tipped,
                Event::Submission(SubmitEvent::BundleConfirmed),
                now,
            );
            &&& request_in(tipped.stage) == Request::Submit(SubmitRequest::SendBundle)
            &&& tipped.stage matches StageState::Submitting(s) && s.txs == plan.txs@.push(tip)
            &&& has_ending(landed, Ok(Outcome::Submitted(Landing::Bundled)))
        }),
{
}

/// The execution is sending one by one.
pub open spec fn sends_one_by_one<T, E>(r: ExecutionState<T, E>) -> bool {
    r.stage matches StageState::Submitting(s) && s.phase is Sending
}

/// Each turn to sending one by one is counted, and nothing else is.
pub proof fn law_turns_to_one_by_one_are_counted<T, E>(
    x: Records,
    r: ExecutionState<T, E>,
    event: Event<T, E>,
    now: Instant,
)
    requires
        execution_wf(r),
        match r.stage {
            StageState::Simulating(txs) => txs.len() > 0,
            StageState::Cranking { txs, .. } => txs.len() > 0,
            _ => true,
        },
    ensures
        records_after(x, r, event, now).fallbacks == if !sends_one_by_one(r) && sends_one_by_one(
            execution_after(x, r, event, now),
        ) {
            if x.fallbacks == u64::MAX {
                0
            } else {
                (x.fallbacks + 1) as u64
            }
        } else {
            x.fallbacks
        },
{
}

/// A crank that was built is on record for each of its feeds, from the time at which it was found
/// due: until the cooldown is over, no execution with such feeds only is cranked again. A crank
/// that was not built is not on record.
pub proof fn law_a_built_crank_is_on_record<T, E>(
    x: Records,
    r: ExecutionState<T, E>,
    at: Instant,
    crank: T,
    now: Instant,
    oracle: Pubkey,
    oracles: Seq<Pubkey>,
    later: Instant,
)
    requires
        r.stage matches StageState::Cranking { at: found, .. } && found == at,
    ensures
        ({
            let built = records_after(x, r, Event::CrankBuilt(crank), now);
            &&& r.swb_oracles.contains(oracle) ==> built.cranked.contains_key(oracle)
                && built.cranked[oracle] == at
            &&& !r.swb_oracles.contains(oracle) ==> built.cranked.get(oracle) == x.cranked.get(
                oracle,
            )
            &&& later.nanos < at.nanos + 30 * NANOS_PER_SEC && (forall|i: int|
                0 <= i < oracles.len() ==> r.swb_oracles.contains(#[trigger] oracles[i]))
                ==> !has_stale_feed(built.cranked, oracles, later)
            &&& built.backoffs == x.backoffs
            &&& records_after(x, r, Event::CrankFailed, now).cranked == x.cranked
        }),
{
}

/// Looking the feeds up forgets only cranks whose cooldown is over: from then on it makes no
/// difference to what is due.
pub proof fn law_only_old_cranks_are_forgotten<T, E>(
    x: Records,
    r: ExecutionState<T, E>,
    event: Event<T, E>,
    now: Instant,
    oracles: Seq<Pubkey>,
    later: Instant,
)
    requires
        !(r.stage is Cranking),
        now.nanos <= later.nanos,
    ensures
        has_stale_feed(records_after(x, r, event, now).cranked, oracles, later) == has_stale_feed(
            x.cranked,
            oracles,
            later,
        ),
{
    let after = records_after(x, r, event, now).cranked;
    if has_stale_feed(after, oracles, later) {
        let i = choose|i: int|
            0 <= i < oracles.len() && (!after.contains_key(#[trigger] oracles[i])
                || after[oracles[i]].nanos + 30 * NANOS_PER_SEC <= later.nanos);
        assert(!x.cranked.contains_key(oracles[i]) || x.cranked[oracles[i]].nanos + 30
            * NANOS_PER_SEC <= later.nanos);
    }
    if has_stale_feed(x.cranked, oracles, later) {
        let i = choose|i: int|
            0 <= i < oracles.len() && (!x.cranked.contains_key(#[trigger] oracles[i])
                || x.cranked[oracles[i]].nanos + 30 * NANOS_PER_SEC <= later.nanos);
        assert(!after.contains_key(oracles[i]) || after[oracles[i]].nanos + 30 * NANOS_PER_SEC
            <= later.nanos);
    }
}

/// The address has an entry whose time has not come.
pub open spec fn waits(backoffs: Map<Pubkey, BackoffState>, key: Pubkey, now: Instant) -> bool {
    backoffs.contains_key(key) && match backoffs[key] {
        BackoffState::Mint(retry_after) => now.nanos < retry_after.nanos,
        BackoffState::Target(backoff) => now.nanos < backoff.retry_after.nanos,
    }
}

/// An intent is carried out unless its mint or its target waits, and the mint is asked first. What
/// is carried out is the intent's.
pub proof fn law_only_what_waits_is_skipped<T, E>(
    x: Records,
    liab_mint: Pubkey,
    intent: LiquidationIntent,
    now: Instant,
)
    ensures
        ({
            let r = started::<T, E>(x, liab_mint, intent, now);
            &&& r.stage == if waits(x.backoffs, liab_mint, now) {
                StageState::<T, E>::Finished(Ok(Outcome::Skipped(SkipReason::NoRoute)))
            } else if waits(x.backoffs, intent.liquidatee, now) {
                StageState::<T, E>::Finished(Ok(Outcome::Skipped(SkipReason::BackedOff)))
            } else {
                StageState::<T, E>::Assembling
            }
            &&& r.stage is Assembling ==> request_in(r.stage) == Request::Assemble
            &&& r.liquidatee == intent.liquidatee
            &&& r.liab_mint == liab_mint
            &&& r.swb_oracles == intent.swb_oracles@
            &&& r.temp_luts.len() == 0
        }),
{
}

/// What is dropped when an execution starts, and what is dropped by a question, waits no longer:
/// all that waits is kept as it is, and a start keeps the counts of targets too.
pub proof fn law_what_waits_is_kept(
    backoffs: Map<Pubkey, BackoffState>,
    key: Pubkey,
    now: Instant,
)
    ensures
        live(backoffs, now).contains_key(key) == waits(backoffs, key, now),
        waits(backoffs, key, now) ==> live(backoffs, now)[key] == backoffs[key],
        needed(backoffs, now).contains_key(key) == (waits(backoffs, key, now)
            || backoffs.contains_key(key) && backoffs[key] is Target),
        needed(backoffs, now).contains_key(key) ==> needed(backoffs, now)[key] == backoffs[key],
{
}

/// An assembly that succeeds ends the backoff of its target, and one that fails is recorded once:
/// under the mint where there is no route, under the target otherwise. No other event, and no
/// other address, is concerned.
pub proof fn law_assemblies_are_recorded<T, E>(
    x: Records,
    r: ExecutionState<T, E>,
    event: Event<T, E>,
    now: Instant,
    other: Pubkey,
)
    requires
        can_add(now, secs(NO_ROUTE_QUARANTINE_TTL_SECS as nat)),
    ensures
        ({
            let after = records_after(x, r, event, now).backoffs;
            let old_failures: nat = if x.backoffs.contains_key(r.liquidatee) {
                match x.backoffs[r.liquidatee] {
                    BackoffState::Target(backoff) => backoff.failures as nat,
                    BackoffState::Mint(_) => 0,
                }
            } else {
                0
            };
            match event {
                Event::Assembled(_) if r.stage is Assembling => {
                    &&& after.contains_key(r.liquidatee) ==> after[r.liquidatee] is Mint
                        && after[r.liquidatee] == x.backoffs[r.liquidatee]
                    &&& other != r.liquidatee ==> after.get(other) == x.backoffs.get(other)
                },
                Event::AssembleFailed { message, .. } if r.stage is Assembling => if contains_text(
                    message@,
                    "NO_ROUTES_FOUND"@,
                ) {
                    &&& after.contains_key(r.liab_mint)
                    &&& after[r.liab_mint] matches BackoffState::Mint(until) && until.nanos
                        == now.nanos + 3600 * NANOS_PER_SEC
                    &&& other != r.liab_mint ==> after.get(other) == x.backoffs.get(other)
                } else {
                    &&& after.contains_key(r.liquidatee)
                    &&& after[r.liquidatee] matches BackoffState::Target(backoff)
                        && backoff.failures == (if old_failures < u32::MAX {
                        old_failures + 1
                    } else {
                        u32::MAX as nat
                    }) && backoff.retry_after.nanos == now.nanos + target_backoff_secs(
                        backoff.failures as nat,
                    ) * NANOS_PER_SEC
                    &&& other != r.liquidatee ==> after.get(other) == x.backoffs.get(other)
                },
                _ => after == x.backoffs,
            }
        }),
{
    lemma2_to64();
    law_backoff_grows_to_its_cap(
        TARGET_BACKOFF_BASE_SECS as nat,
        TARGET_BACKOFF_MAX_SECS as nat,
        1,
        one_more(failures_of(x.backoffs, r.liquidatee)) as nat,
    );
}

/// The wait of a target is thirty seconds after the first failure, and each further failure
/// doubles it, up to a quarter of an hour.
pub proof fn law_target_waits_double(failures: nat)
    requires
        failures >= 1,
    ensures
        target_backoff_secs(1) == 30,
        target_backoff_secs(failures + 1) == if 2 * target_backoff_secs(failures) <= 900 {
            2 * target_backoff_secs(failures)
        } else {
            900
        },
{
    lemma2_to64();
    law_backoff_doubles_or_is_capped(30, 900, failures);
}

/// A step takes an execution, and the records with it, from one state to the next, and the pending
/// request and the result are those of the state.
pub proof fn law_steps_follow_the_states<T, E>(
    x: &mut Executor,
    r: Execution<T, E>,
    event: Event<T, E>,
    now: Instant,
    next: Execution<T, E>,
    request: Request,
    result: Option<Result<Outcome, ExecutionError<E>>>,
)
    requires
        call_ensures(Executor::step::<T, E>, (x, r, event, now), next),
        call_ensures(Execution::<T, E>::request, (&r,), request),
        call_ensures(Execution::<T, E>::into_result, (r,), result),
    ensures
        next@ == execution_after(old(x)@, r@, event, now),
        final(x)@ == records_after(old(x)@, r@, event, now),
        request == request_in(r@.stage),
        match result {
            Some(ending) => r@.stage == StageState::<T, E>::Finished(ending),
            None => !(r@.stage is Finished),
        },
{
}

/// An execution starts from the intent and from what waits at the time, where the bank of the
/// liability is known; the records lose nothing that waits or counts.
pub proof fn law_executions_start_from_the_records<T, E>(
    x: &mut Executor,
    banks: &BanksCache,
    intent: &LiquidationIntent,
    now: Instant,
    r: Result<Execution<T, E>, BanksError>,
)
    requires
        call_ensures(Executor::try_execute::<T, E>, (x, banks, intent, now), r),
    ensures
        match r {
            Ok(run) => banks.banks().contains_key(intent.liab_bank) && run@ == started::<T, E>(
                old(x)@,
                banks.banks()[intent.liab_bank].bank.mint,
                *intent,
                now,
            ) && final(x)@.backoffs == needed(old(x)@.backoffs, now) && final(x)@.cranked == old(
                x,
            )@.cranked && final(x)@.fallbacks == old(x)@.fallbacks,
            Err(e) => !banks.banks().contains_key(intent.liab_bank) && e
                == BanksError::BankNotFound(intent.liab_bank) && final(x)@ == old(x)@,
        },
{
}

/// A question is answered by what waits, and drops just the rest.
pub proof fn law_questions_are_answered_by_what_waits(
    x: &mut Executor,
    key: &Pubkey,
    now: Instant,
    backed_off: bool,
    other: Pubkey,
)
    requires
        call_ensures(Executor::is_backed_off, (x, key, now), backed_off),
    ensures
        backed_off == waits(old(x)@.backoffs, *key, now),
        final(x)@.backoffs.get(other) == if waits(old(x)@.backoffs, other, now) {
            old(x)@.backoffs.get(other)
        } else {
            None
        },
        final(x)@.cranked == old(x)@.cranked,
        final(x)@.fallbacks == old(x)@.fallbacks,
{
}

/// The records are kept by what is noted in them.
pub proof fn law_notes_are_kept_in_the_records(
    failed: &mut Executor,
    cleared: &mut Executor,
    cranked: &mut Executor,
    asked: &mut Executor,
    target: &Pubkey,
    liab_mint: Pubkey,
    message: &str,
    oracles: &Vec<Pubkey>,
    now: Instant,
    due: bool,
)
    requires
        call_ensures(
            Executor::note_assemble_failure,
            (failed, target, liab_mint, message, now),
            (),
        ),
        call_ensures(Executor::clear_target_backoff, (cleared, target), ()),
        call_ensures(Executor::note_cranked, (cranked, oracles, now), ()),
        call_ensures(Executor::crank_needed, (asked, oracles, now), due),
    ensures
        final(failed)@ == (Records {
            backoffs: with_failure(old(failed)@.backoffs, *target, liab_mint, message@, now),
            ..old(failed)@
        }),
        final(cleared)@ == (Records {
            backoffs: without_target(old(cleared)@.backoffs, *target),
            ..old(cleared)@
        }),
        final(cranked)@ == (Records {
            cranked: with_all(old(cranked)@.cranked, oracles@, now),
            ..old(cranked)@
        }),
        due == has_stale_feed(old(asked)@.cranked, oracles@, now),
        final(asked)@.backoffs == old(asked)@.backoffs,
        final(asked)@.fallbacks == old(asked)@.fallbacks,
{
    law_a_crank_is_due_for_a_stale_feed(old(asked)@.cranked, oracles@, now);
}

/// What was not asked for changes neither an execution nor the records, and an execution that is
/// over stays so.
pub proof fn law_only_answers_change_an_execution<T, E>(
    x: Records,
    r: ExecutionState<T, E>,
    event: Event<T, E>,
    now: Instant,
)
    requires
        match r.stage {
            StageState::Assembling => !(event is Assembled || event is NotHandled
                || event is AssembleFailed),
            StageState::Simulating(_) => !(event is Simulated),
            StageState::Cranking { .. } => !(event is CrankBuilt || event is CrankFailed),
            StageState::Resimulating(_) => !(event is Simulated),
            StageState::Submitting(_) => !(event is Submission),
            StageState::CleaningUp(_) => !(event is CleanedUp),
            StageState::Finished(_) => true,
        },
    ensures
        execution_after(x, r, event, now) == r,
        records_after(x, r, event, now) == x,
{
}

/// Without a simulation and without a transaction there is nothing to send: that is a turn to
/// sending one by one, and it ends well at once.
pub proof fn law_nothing_is_sent_of_an_empty_plan<T, E>(
    x: Records,
    r: ExecutionState<T, E>,
    now: Instant,
)
    requires
        r.stage == StageState::<T, E>::Simulating(Seq::empty()),
        !has_stale_feed(x.cranked, r.swb_oracles, now),
    ensures
        has_ending(
            execution_after(x, r, Event::Simulated(Simulation::Unavailable), now),
            Ok(Outcome::Submitted(Landing::OneByOne)),
        ),
        execution_after(x, r, Event::Simulated(Simulation::StalePrice), now).stage == StageState::<
            T,
            E,
        >::Resimulating(Seq::empty()),
{
    law_a_crank_is_due_for_a_stale_feed(x.cranked, r.swb_oracles, now);
}

/// The wait that is computed is the one that is meant.
pub proof fn law_the_computed_wait_is_the_wait(failures: u32, d: Duration)
    requires
        call_ensures(target_backoff_delay, (failures,), d),
    ensures
        d.nanos == target_backoff_secs(failures as nat) * NANOS_PER_SEC,
        failures <= 1 ==> d.nanos == 30 * NANOS_PER_SEC,
{
    law_backoff_doubles_or_is_capped(30, 900, 1);
}

/// Transactions that are handed in without an execution are landed by the same rules, and their
/// turns to sending one by one are counted too.
pub proof fn law_submissions_are_counted<T, E>(
    x: &mut Executor,
    kept: &Executor,
    txs: Vec<T>,
    start: Submission<T, E>,
    s: Submission<T, E>,
    event: SubmitEvent<T, E>,
    next: Submission<T, E>,
)
    requires
        state_wf(s@),
        call_ensures(Executor::submit::<T, E>, (kept, txs), start),
        call_ensures(Executor::submission_step::<T, E>, (x, s, event), next),
    ensures
        start@.txs == txs@,
        txs@.len() > 0 ==> start@.phase is Tipping,
        txs@.len() == 0 ==> start@.phase == SubmitPhase::<E>::Done(
            Err(SubmitError::NoTransactions),
        ),
        next@ == after_event(s@, event),
        final(x)@.backoffs == old(x)@.backoffs,
        final(x)@.cranked == old(x)@.cranked,
        final(x)@.fallbacks == if !(s@.phase is Sending) && next@.phase is Sending {
            if old(x)@.fallbacks == u64::MAX {
                0
            } else {
                (old(x)@.fallbacks + 1) as u64
            }
        } else {
            old(x)@.fallbacks
        },
{
}

/// What an execution shows of its transactions, feeds and lookup tables is what it has.
pub proof fn law_an_execution_shows_what_it_has<T, E>(
    r: &Execution<T, E>,
    txs: Option<&Vec<T>>,
    oracles: &Vec<Pubkey>,
    luts: &Vec<Pubkey>,
)
    requires
        call_ensures(Execution::<T, E>::txs, (r,), txs),
        call_ensures(Execution::<T, E>::swb_oracles, (r,), oracles),
        call_ensures(Execution::<T, E>::temp_luts, (r,), luts),
    ensures
        oracles@ == r@.swb_oracles,
        luts@ == r@.temp_luts,
        match r@.stage {
            StageState::Simulating(known) => txs matches Some(t) && t@ == known,
            StageState::Cranking { txs: known, .. } => txs matches Some(t) && t@ == known,
            StageState::Resimulating(known) => txs matches Some(t) && t@ == known,
            StageState::Submitting(s) => txs matches Some(t) && t@ == s.txs,
            _ => txs is None,
        },
{
}

/// Where there are feeds to look up, a crank stays on record exactly as long as its cooldown; with
/// nothing to look up, the record stays as it is.
pub proof fn law_cranks_are_forgotten_after_the_cooldown(
    x: &mut Executor,
    oracles: &Vec<Pubkey>,
    now: Instant,
    due: bool,
    feed: Pubkey,
)
    requires
        call_ensures(Executor::crank_needed, (x, oracles, now), due),
    ensures
        due == has_stale_feed(old(x)@.cranked, oracles@, now),
        final(x)@.cranked.get(feed) == if oracles@.len() > 0 && has_stale_feed(
            old(x)@.cranked,
            seq![feed],
            now,
        ) {
            None
        } else {
            old(x)@.cranked.get(feed)
        },
        final(x)@.backoffs == old(x)@.backoffs,
        final(x)@.fallbacks == old(x)@.fallbacks,
{
    law_a_crank_is_due_for_a_stale_feed(old(x)@.cranked, oracles@, now);
    assert(seq![feed][0] == feed);
}

/// Whatever comes in, an execution stays that of its target, its mint and its feeds, and once there
/// is a plan its lookup tables stay those of the plan.
pub proof fn law_an_execution_keeps_what_it_is_about<T, E>(
    x: &mut Executor,
    r: Execution<T, E>,
    event: Event<T, E>,
    now: Instant,
    next: Execution<T, E>,
)
    requires
        call_ensures(Executor::step::<T, E>, (x, r, event, now), next),
    ensures
        next@.liquidatee == r@.liquidatee,
        next@.liab_mint == r@.liab_mint,
        next@.swb_oracles == r@.swb_oracles,
        !(r@.stage is Assembling && event is Assembled) ==> next@.temp_luts == r@.temp_luts,
{
}

}
