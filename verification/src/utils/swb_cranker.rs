//! Cranking Switchboard feeds.
//!
//! Feeds are cranked a few at a time. Where that fails for a chunk, its feeds are cranked one by
//! one. Those that fail even so are quarantined, but only where another feed of the chunk
//! succeeded: where none did, the failure says nothing about the feeds.

use vstd::prelude::*;

use crate::cli::settings::{keypair_signer, wallet_pubkey};
use crate::keyed::{copy_range, with_all, KeyMap};
use crate::pubkey::Pubkey;
use crate::text::{contains, contains_text, occurs_at};
use crate::time::{can_add, secs, Duration, Instant, NANOS_PER_SEC};
use crate::transaction::{
    compile_message, compiled_message, encodable, instruction_views, sign_message,
    signed_transaction, table_views, Instruction, InstructionState, LookupTable,
};
use crate::utils::client_error::{ClientError, ClientErrorKind, RpcError};

verus! {

/// The error code of a stale price, as the program prints it.
pub const SWB_STALE_PRICE_ERROR_CODE: &'static str = "17a1";

/// The error code of a stale price.
pub const SWB_STALE_PRICE_ERROR_CODE_NUMBER: u32 = 6049;

/// The text of an error that stands for a stale price that was dealt with.
pub const SWB_STALE_HANDLED_ERROR: &'static str = "STALE HANDLED";

/// How many feeds are cranked at once.
pub const CHUNK_SIZE: usize = 6;

/// How long a feed stays in quarantine.
pub const ORACLE_QUARANTINE_SECS: u64 = 600;

// ── Stale prices ─────────────────────────────────────────────────────────────

/// The error is a response whose message names the code of a stale price.
pub open spec fn says_stale_price(err: ClientError) -> bool {
    err.kind matches ClientErrorKind::RpcError(RpcError::RpcResponseError { message, .. })
        && contains_text(message@, SWB_STALE_PRICE_ERROR_CODE@)
}

/// Whether the RPC client failed because of a stale price.
pub fn is_stale_swb_price_error(err: &ClientError) -> (r: bool)
    ensures
        r == says_stale_price(*err),
{
    match &err.kind {
        ClientErrorKind::RpcError(RpcError::RpcResponseError { message, .. }) => contains(
            message.as_str(),
            SWB_STALE_PRICE_ERROR_CODE,
        ),
        _ => false,
    }
}

// ── Quarantine ───────────────────────────────────────────────────────────────

/// The feeds in quarantine.
#[derive(Debug)]
pub struct SwbCranker {
    oracle_quarantine: KeyMap<Instant>,
}

/// A quarantine until a given time lasts.
pub open spec fn lasts(until: Instant, now: Instant) -> bool {
    until.nanos > now.nanos
}

/// The quarantines that last.
pub open spec fn lasting(quarantine: Map<Pubkey, Instant>, now: Instant) -> Map<Pubkey, Instant> {
    Map::new(
        |k: Pubkey| quarantine.contains_key(k) && lasts(quarantine[k], now),
        |k: Pubkey| quarantine[k],
    )
}

/// The feeds that are not in quarantine, in order.
pub open spec fn active(oracles: Seq<Pubkey>, quarantine: Map<Pubkey, Instant>) -> Seq<Pubkey> {
    oracles.filter(|k: Pubkey| !quarantine.contains_key(k))
}

/// When a quarantine that starts now ends.
pub open spec fn quarantine_end(now: Instant) -> Instant {
    Instant { nanos: (now.nanos + secs(ORACLE_QUARANTINE_SECS as nat)) as u128 }
}

impl View for SwbCranker {
    type V = Map<Pubkey, Instant>;

    closed spec fn view(&self) -> Map<Pubkey, Instant> {
        self.oracle_quarantine@
    }
}

impl SwbCranker {
    /// No feed is in quarantine twice.
    pub closed spec fn wf(&self) -> bool {
        self.oracle_quarantine.wf()
    }

    /// A cranker with no feed in quarantine.
    pub fn new() -> (c: SwbCranker)
        ensures
            c.wf(),
            c@ == Map::<Pubkey, Instant>::empty(),
    {
        SwbCranker { oracle_quarantine: KeyMap::new() }
    }

    /// The feeds that are not in quarantine. Quarantines that are over are dropped.
    pub fn filter_quarantined_oracles(&mut self, oracles: &Vec<Pubkey>, now: Instant) -> (
    rest: Vec<Pubkey>)
        requires
            old(self).wf(),
        ensures
            final(self).wf(),
            final(self)@ == lasting(old(self)@, now),
            rest@ == active(oracles@, lasting(old(self)@, now)),
    {
        self.oracle_quarantine.retain(
            |until: &Instant| -> (keep: bool)
                ensures keep == lasts(*until, now) { now.is_before(*until) },
        );
        let ghost quarantine = lasting(old(self)@, now);
        assert(self@ =~= quarantine);
        let mut rest: Vec<Pubkey> = Vec::new();
        let mut i: usize = 0;
        let ghost free = |k: Pubkey| !quarantine.contains_key(k);
        assert(active(oracles@.take(0), quarantine) =~= Seq::empty());
        while i < oracles.len()
            invariant
                self.wf(),
                self@ == quarantine,
                i <= oracles@.len(),
                free == (|k: Pubkey| !quarantine.contains_key(k)),
                rest@ == active(oracles@.take(i as int), quarantine),
            decreases oracles@.len() - i,
        {
            proof {
                assert(oracles@.take(i + 1) =~= oracles@.take(i as int).push(oracles@[i as int]));
                oracles@.take(i as int).lemma_filter_push(oracles@[i as int], free);
            }
            if !self.oracle_quarantine.contains_key(&oracles[i]) {
                rest.push(oracles[i]);
            }
            i += 1;
        }
        assert(oracles@.take(i as int) =~= oracles@);
        rest
    }

    /// Puts feeds in quarantine.
    pub fn quarantine_oracles(&mut self, oracles: &Vec<Pubkey>, now: Instant)
        requires
            old(self).wf(),
            can_add(now, secs(ORACLE_QUARANTINE_SECS as nat)),
        ensures
            final(self).wf(),
            final(self)@ == with_all(old(self)@, oracles@, quarantine_end(now)),
    {
        let until = now.plus(Duration::from_secs(ORACLE_QUARANTINE_SECS));
        self.oracle_quarantine.insert_all(oracles, until);
    }
}

// ── Cranking ─────────────────────────────────────────────────────────────────

#[derive(Debug)]
struct Singles {
    next: usize,
    recovered: usize,
    failed: Vec<Pubkey>,
}

/// How far the feeds of a chunk were cranked one by one.
pub struct SinglesState {
    /// The place in the chunk of the next feed.
    pub next: nat,
    /// How many succeeded.
    pub recovered: nat,
    /// Those that failed.
    pub failed: Seq<Pubkey>,
}

/// Feeds on their way to be cranked.
#[derive(Debug)]
pub struct CrankRun {
    oracles: Vec<Pubkey>,
    at: usize,
    singles: Option<Singles>,
}

/// What a run is.
pub struct CrankState {
    /// The feeds whose chunk is not done yet.
    pub pending: Seq<Pubkey>,
    /// Where the first chunk of these failed as a whole, how far its feeds were cranked one by
    /// one.
    pub singles: Option<SinglesState>,
}

/// The first chunk of the feeds.
pub open spec fn first_chunk(pending: Seq<Pubkey>) -> Seq<Pubkey> {
    if pending.len() <= CHUNK_SIZE {
        pending
    } else {
        pending.take(CHUNK_SIZE as int)
    }
}

/// The feeds to crank next, in one transaction; none when the run is over.
pub open spec fn crank_request(s: CrankState) -> Option<Seq<Pubkey>> {
    if s.pending.len() == 0 {
        None
    } else {
        match s.singles {
            None => Some(first_chunk(s.pending)),
            Some(singles) => Some(seq![first_chunk(s.pending)[singles.next as int]]),
        }
    }
}

/// The tally with one feed more.
pub open spec fn tallied(singles: SinglesState, oracle: Pubkey, ok: bool) -> SinglesState {
    SinglesState {
        next: singles.next + 1,
        recovered: if ok {
            singles.recovered + 1
        } else {
            singles.recovered
        },
        failed: if ok {
            singles.failed
        } else {
            singles.failed.push(oracle)
        },
    }
}

/// The run after a crank succeeded or failed.
pub open spec fn after_crank(s: CrankState, ok: bool) -> CrankState {
    let chunk = first_chunk(s.pending);
    let rest = CrankState { pending: s.pending.skip(chunk.len() as int), singles: None };
    if s.pending.len() == 0 {
        s
    } else {
        match s.singles {
            None => if ok {
                rest
            } else {
                CrankState {
                    singles: Some(SinglesState { next: 0, recovered: 0, failed: Seq::empty() }),
                    ..s
                }
            },
            Some(singles) => {
                let tally = tallied(singles, chunk[singles.next as int], ok);
                if tally.next < chunk.len() {
                    CrankState { singles: Some(tally), ..s }
                } else {
                    rest
                }
            },
        }
    }
}

/// The feeds that a crank's outcome puts in quarantine: those of a chunk that failed one by one,
/// once all are through and at least one succeeded.
pub open spec fn to_quarantine(s: CrankState, ok: bool) -> Seq<Pubkey> {
    let chunk = first_chunk(s.pending);
    match s.singles {
        None => Seq::empty(),
        Some(singles) => {
            let tally = tallied(singles, chunk[singles.next as int], ok);
            if s.pending.len() > 0 && tally.next >= chunk.len() && tally.recovered > 0 {
                tally.failed
            } else {
                Seq::empty()
            }
        },
    }
}

/// The tally counts the feeds before the next one, and those that failed are feeds of the chunk.
pub open spec fn crank_wf(s: CrankState) -> bool {
    s.singles matches Some(singles) ==> s.pending.len() > 0 && singles.next < first_chunk(
        s.pending,
    ).len() && singles.recovered + singles.failed.len() == singles.next && forall|k: Pubkey|
        #[trigger] singles.failed.contains(k) ==> first_chunk(s.pending).contains(k)
}

impl Singles {
    spec fn state(&self) -> SinglesState {
        SinglesState {
            next: self.next as nat,
            recovered: self.recovered as nat,
            failed: self.failed@,
        }
    }
}

impl View for CrankRun {
    type V = CrankState;

    closed spec fn view(&self) -> CrankState {
        CrankState {
            pending: self.oracles@.skip(self.at as int),
            singles: match self.singles {
                Some(singles) => Some(singles.state()),
                None => None,
            },
        }
    }
}

impl CrankRun {
    /// What holds of every run.
    pub closed spec fn wf(&self) -> bool {
        self.at <= self.oracles@.len() && crank_wf(self@)
    }

    fn chunk_end(&self) -> (end: usize)
        requires
            self.wf(),
        ensures
            self.at <= end <= self.oracles@.len(),
            first_chunk(self@.pending) == self.oracles@.subrange(self.at as int, end as int),
    {
        let end: usize = if self.oracles.len() - self.at <= CHUNK_SIZE {
            self.oracles.len()
        } else {
            self.at + CHUNK_SIZE
        };
        assert(first_chunk(self@.pending) =~= self.oracles@.subrange(self.at as int, end as int));
        end
    }

    /// The feeds whose chunk is not done yet.
    pub fn pending(&self) -> (feeds: Vec<Pubkey>)
        requires
            self.wf(),
        ensures
            feeds@ == self@.pending,
    {
        let feeds = copy_range(&self.oracles, self.at, self.oracles.len());
        assert(feeds@ =~= self@.pending);
        feeds
    }

    /// The feeds to crank next, in one transaction; `None` when the run is over.
    pub fn request(&self) -> (feeds: Option<Vec<Pubkey>>)
        requires
            self.wf(),
        ensures
            match feeds {
                Some(feeds) => crank_request(self@) == Some(feeds@),
                None => crank_request(self@) is None,
            },
    {
        if self.at == self.oracles.len() {
            return None;
        }
        let end: usize = self.chunk_end();
        match &self.singles {
            None => Some(copy_range(&self.oracles, self.at, end)),
            Some(singles) => {
                let feed = self.oracles[self.at + singles.next];
                let feeds: Vec<Pubkey> = vec![feed];
                assert(feeds@ =~= seq![feed]);
                Some(feeds)
            },
        }
    }
}

impl SwbCranker {
    /// Starts to crank those of the feeds that are not in quarantine.
    pub fn crank_oracles(&mut self, oracles: &Vec<Pubkey>, now: Instant) -> (run: CrankRun)
        requires
            old(self).wf(),
        ensures
            final(self).wf(),
            final(self)@ == lasting(old(self)@, now),
            run.wf(),
            crank_wf(run@),
            run@ == (CrankState {
                pending: active(oracles@, lasting(old(self)@, now)),
                singles: None,
            }),
    {
        let rest = self.filter_quarantined_oracles(oracles, now);
        assert(rest@.skip(0) =~= rest@);
        CrankRun { oracles: rest, at: 0, singles: None }
    }

    /// Takes in whether the crank that was asked for succeeded.
    pub fn step(&mut self, run: CrankRun, ok: bool, now: Instant) -> (next: CrankRun)
        requires
            old(self).wf(),
            run.wf(),
            can_add(now, secs(ORACLE_QUARANTINE_SECS as nat)),
        ensures
            final(self).wf(),
            final(self)@ == with_all(
                old(self)@,
                to_quarantine(run@, ok),
                quarantine_end(now),
            ),
            next.wf(),
            crank_wf(next@),
            next@ == after_crank(run@, ok),
    {
        proof {
            assert(with_all(old(self)@, Seq::empty(), quarantine_end(now)) =~= old(self)@);
        }
        if run.at == run.oracles.len() {
            return run;
        }
        let end: usize = run.chunk_end();
        let ghost chunk = first_chunk(run@.pending);
        let ghost rest = run@.pending.skip(chunk.len() as int);
        assert(run.oracles@.skip(end as int) =~= rest);
        let CrankRun { oracles, at, singles } = run;
        match singles {
            None => if ok {
                CrankRun { oracles, at: end, singles: None }
            } else {
                let failed: Vec<Pubkey> = Vec::new();
                CrankRun { oracles, at, singles: Some(Singles { next: 0, recovered: 0, failed }) }
            },
            Some(singles) => {
                let Singles { next, recovered, failed } = singles;
                let mut failed = failed;
                let mut recovered: usize = recovered;
                let ghost before = failed@;
                assert(chunk[next as int] == oracles@[at + next]);
                if ok {
                    recovered += 1;
                } else {
                    failed.push(oracles[at + next]);
                    proof {
                        assert forall|k: Pubkey| #[trigger] failed@.contains(
                            k,
                        ) implies chunk.contains(k) by {
                            if !before.contains(k) {
                                let j = choose|j: int| 0 <= j < failed@.len() && failed@[j] == k;
                                if j < before.len() {
                                    assert(before[j] == k);
                                }
                                assert(chunk[next as int] == k);
                            }
                        }
                    }
                }
                if next + 1 < end - at {
                    let singles = Singles { next: next + 1, recovered, failed };
                    CrankRun { oracles, at, singles: Some(singles) }
                } else {
                    if recovered > 0 {
                        self.quarantine_oracles(&failed, now);
                    }
                    CrankRun { oracles, at: end, singles: None }
                }
            },
        }
    }
}

// ── Transactions ─────────────────────────────────────────────────────────────

/// Why there is no crank transaction.
#[derive(Debug)]
pub enum CrankTxError {
    /// The bytes are no key pair.
    InvalidKeypair,
    /// The message could not be compiled.
    Compile(String),
    /// The message could not be signed.
    Sign(String),
}

/// The outcome of compiling instructions into a message that the key pair pays for, and signing
/// it.
pub open spec fn crank_tx_of(
    keypair: Seq<u8>,
    instructions: Seq<InstructionState>,
    tables: Seq<(Pubkey, Seq<Pubkey>)>,
    blockhash: Seq<u8>,
    r: Result<Vec<u8>, CrankTxError>,
) -> bool {
    match keypair_signer(keypair) {
        None => r matches Err(CrankTxError::InvalidKeypair),
        Some(payer) => match compiled_message(payer, instructions, tables, blockhash) {
            Err(error) => r matches Err(CrankTxError::Compile(e)) && e@ == error,
            Ok(message) => match signed_transaction(message, keypair) {
                Err(error) => r matches Err(CrankTxError::Sign(e)) && e@ == error,
                Ok(tx) => r matches Ok(t) && t@ == tx,
            },
        },
    }
}

impl SwbCranker {
    /// The transaction of the instructions that update some feeds. The key pair pays for it and
    /// signs it.
    pub fn build_crank_tx(
        keypair: &Vec<u8>,
        instructions: &Vec<Instruction>,
        tables: &Vec<LookupTable>,
        blockhash: [u8; 32],
    ) -> (r: Result<Vec<u8>, CrankTxError>)
        requires
            encodable(instruction_views(instructions@)),
        ensures
            crank_tx_of(
                keypair@,
                instruction_views(instructions@),
                table_views(tables@),
                blockhash@,
                r,
            ),
    {
        let payer = match wallet_pubkey(keypair) {
            Some(payer) => payer,
            None => {
                return Err(CrankTxError::InvalidKeypair);
            },
        };
        let message = match compile_message(&payer, instructions, tables, blockhash) {
            Ok(message) => message,
            Err(e) => {
                return Err(CrankTxError::Compile(e));
            },
        };
        match sign_message(&message, keypair) {
            Ok(tx) => Ok(tx),
            Err(e) => Err(CrankTxError::Sign(e)),
        }
    }
}

// ── Laws ─────────────────────────────────────────────────────────────────────

/// A feed that is put in quarantine is not cranked for the time of the quarantine, and is
/// cranked again after it.
pub proof fn law_quarantined_feeds_are_skipped(
    quarantine: Map<Pubkey, Instant>,
    failed: Seq<Pubkey>,
    now: Instant,
    oracles: Seq<Pubkey>,
    later: Instant,
    k: Pubkey,
)
    requires
        can_add(now, secs(ORACLE_QUARANTINE_SECS as nat)),
        failed.contains(k),
        oracles.contains(k),
    ensures
        active(
            oracles,
            lasting(with_all(quarantine, failed, quarantine_end(now)), later),
        ).contains(k) == (later.nanos >= now.nanos + secs(ORACLE_QUARANTINE_SECS as nat)),
{
    let after = lasting(with_all(quarantine, failed, quarantine_end(now)), later);
    lemma_active(oracles, after, k);
}

proof fn lemma_active(oracles: Seq<Pubkey>, quarantine: Map<Pubkey, Instant>, k: Pubkey)
    ensures
        active(oracles, quarantine).contains(k) <==> oracles.contains(k)
            && !quarantine.contains_key(k),
    decreases oracles.len(),
{
    let free = |k: Pubkey| !quarantine.contains_key(k);
    if oracles.len() == 0 {
        assert(active(oracles, quarantine) =~= Seq::empty());
    } else {
        let front = oracles.drop_last();
        lemma_active(front, quarantine, k);
        assert(oracles =~= front.push(oracles.last()));
        front.lemma_filter_push(oracles.last(), free);
        let before = active(front, quarantine);
        assert(oracles.contains(k) <==> front.contains(k) || k == oracles.last()) by {
            if front.contains(k) {
                let i = choose|i: int| 0 <= i < front.len() && front[i] == k;
                assert(oracles[i] == k);
            }
            assert(oracles[oracles.len() - 1] == oracles.last());
        }
        if free(oracles.last()) {
            let after = before.push(oracles.last());
            assert(after[before.len() as int] == oracles.last());
            if before.contains(k) {
                let i = choose|i: int| 0 <= i < before.len() && before[i] == k;
                assert(after[i] == k);
            }
        }
    }
}

/// Feeds are cranked unless they are in quarantine.
pub proof fn law_other_feeds_are_cranked(
    oracles: Seq<Pubkey>,
    quarantine: Map<Pubkey, Instant>,
    now: Instant,
    k: Pubkey,
)
    requires
        oracles.contains(k),
        quarantine.contains_key(k) ==> quarantine[k].nanos <= now.nanos,
    ensures
        active(oracles, lasting(quarantine, now)).contains(k),
{
    lemma_active(oracles, lasting(quarantine, now), k);
}

/// A chunk of which no feed succeeds puts none in quarantine.
pub proof fn law_no_quarantine_without_recovery(s: CrankState, ok: bool)
    requires
        crank_wf(s),
        s.singles matches Some(singles) ==> singles.recovered == 0,
        !ok,
    ensures
        to_quarantine(s, ok) == Seq::<Pubkey>::empty(),
{
}

/// Only feeds that failed by themselves are put in quarantine: feeds of the chunk, and not all
/// of them.
pub proof fn law_only_failed_feeds_are_quarantined(s: CrankState, ok: bool, k: Pubkey)
    requires
        crank_wf(s),
        to_quarantine(s, ok).contains(k),
    ensures
        first_chunk(s.pending).contains(k),
        to_quarantine(s, ok).len() < first_chunk(s.pending).len(),
        s.singles matches Some(singles) && (singles.failed.contains(k) || !ok && k == first_chunk(
            s.pending,
        )[singles.next as int]),
{
    let failed = to_quarantine(s, ok);
    let j = choose|j: int| 0 <= j < failed.len() && failed[j] == k;
    let singles = s.singles->0;
    if j < singles.failed.len() {
        assert(singles.failed[j] == k);
        assert(singles.failed.contains(k));
    } else {
        assert(first_chunk(s.pending)[singles.next as int] == k);
    }
}

/// A chunk is left only when it succeeded as a whole or each of its feeds was tried by itself,
/// and the feeds behind it are left as they are.
pub proof fn law_no_feed_is_passed_over(s: CrankState, ok: bool)
    requires
        crank_wf(s),
        s.pending.len() > 0,
    ensures
        ({
            let next = after_crank(s, ok);
            let chunk = first_chunk(s.pending);
            &&& s.pending == chunk + s.pending.skip(chunk.len() as int)
            &&& next.pending == s.pending || next.pending == s.pending.skip(chunk.len() as int) && (
            s.singles is None && ok || (s.singles matches Some(singles) && singles.next + 1
                == chunk.len()))
        }),
{
    let chunk = first_chunk(s.pending);
    assert(s.pending =~= chunk + s.pending.skip(chunk.len() as int));
}

/// Cranks that a run can still ask for, at most.
pub open spec fn cranks_left(s: CrankState) -> nat {
    match s.singles {
        Some(singles) => (2 * s.pending.len() - 1 - singles.next) as nat,
        None => 2 * s.pending.len(),
    }
}

/// Every crank brings a run nearer to its end.
pub proof fn law_a_crank_run_ends(s: CrankState, ok: bool)
    requires
        crank_wf(s),
        crank_request(s) is Some,
    ensures
        cranks_left(after_crank(s, ok)) < cranks_left(s),
        crank_wf(after_crank(s, ok)),
{
    let chunk = first_chunk(s.pending);
    if let Some(singles) = s.singles {
        let tally = tallied(singles, chunk[singles.next as int], ok);
        assert forall|k: Pubkey| #[trigger] tally.failed.contains(k) implies chunk.contains(k) by {
            let j = choose|j: int| 0 <= j < tally.failed.len() && tally.failed[j] == k;
            if j < singles.failed.len() {
                assert(singles.failed[j] == k);
                assert(singles.failed.contains(k));
            } else {
                assert(chunk[singles.next as int] == k);
            }
        }
    }
}

/// Feeds are cranked up to six at a time, in order.
pub proof fn law_chunks_are_cranked_in_order(s: CrankState)
    requires
        s.singles is None,
    ensures
        match crank_request(s) {
            Some(feeds) => {
                &&& feeds.len() == if s.pending.len() <= 6 {
                    s.pending.len()
                } else {
                    6
                }
                &&& feeds.len() > 0
                &&& forall|i: int| 0 <= i < feeds.len() ==> #[trigger] feeds[i] == s.pending[i]
                &&& after_crank(s, true).singles is None
                &&& after_crank(s, true).pending == s.pending.skip(feeds.len() as int)
                &&& after_crank(s, false).pending == s.pending
                &&& crank_request(after_crank(s, false)) == Some(seq![s.pending[0]])
            },
            None => s.pending.len() == 0,
        },
{
}

/// A run after some cranks, each of which succeeded or failed.
pub open spec fn after_cranks(s: CrankState, outcomes: Seq<bool>) -> CrankState
    decreases outcomes.len(),
{
    if outcomes.len() == 0 {
        s
    } else {
        after_crank(after_cranks(s, outcomes.drop_last()), outcomes.last())
    }
}

/// At least one crank succeeded.
pub open spec fn some_succeeded(outcomes: Seq<bool>) -> bool {
    exists|i: int| 0 <= i < outcomes.len() && #[trigger] outcomes[i]
}

/// The feed was cranked by itself, and failed.
pub open spec fn failed_alone(chunk: Seq<Pubkey>, outcomes: Seq<bool>, k: Pubkey) -> bool {
    exists|i: int|
        0 <= i < outcomes.len() && i < chunk.len() && !outcomes[i] && #[trigger] chunk[i] == k
}

/// The tally of the feeds of a chunk that were cranked one by one, as long as some are left.
proof fn lemma_tally(s: CrankState, outcomes: Seq<bool>)
    requires
        s.singles is None,
        s.pending.len() > 0,
        outcomes.len() < first_chunk(s.pending).len(),
    ensures
        ({
            let now = after_cranks(after_crank(s, false), outcomes);
            let chunk = first_chunk(s.pending);
            &&& now.pending == s.pending
            &&& now.singles matches Some(singles) && {
                &&& singles.next == outcomes.len()
                &&& singles.recovered > 0 <==> some_succeeded(outcomes)
                &&& forall|k: Pubkey| #[trigger]
                    singles.failed.contains(k) <==> failed_alone(chunk, outcomes, k)
            }
        }),
    decreases outcomes.len(),
{
    let chunk = first_chunk(s.pending);
    if outcomes.len() > 0 {
        let front = outcomes.drop_last();
        lemma_tally(s, front);
        let before = after_cranks(after_crank(s, false), front).singles->0;
        let now = after_cranks(after_crank(s, false), outcomes).singles->0;
        let place = front.len() as int;
        let ok = outcomes.last();
        assert(outcomes[place] == ok);
        assert(some_succeeded(outcomes) <==> some_succeeded(front) || ok) by {
            if some_succeeded(front) {
                let i = choose|i: int| 0 <= i < front.len() && #[trigger] front[i];
                assert(outcomes[i]);
            }
            if some_succeeded(outcomes) {
                let i = choose|i: int| 0 <= i < outcomes.len() && #[trigger] outcomes[i];
                if i < place {
                    assert(front[i]);
                }
            }
        }
        assert forall|k: Pubkey| #[trigger] now.failed.contains(k) <==> failed_alone(
            chunk,
            outcomes,
            k,
        ) by {
            lemma_one_more_failed(chunk, front, ok, k);
            assert(front.push(ok) =~= outcomes);
            if !ok {
                assert(now.failed == before.failed.push(chunk[place]));
                assert(now.failed[before.failed.len() as int] == chunk[place]);
                if before.failed.contains(k) {
                    let j = choose|j: int| 0 <= j < before.failed.len() && before.failed[j] == k;
                    assert(now.failed[j] == k);
                }
            }
        }
    } else {
        let now = after_cranks(after_crank(s, false), outcomes).singles->0;
        assert(now.failed.len() == 0);
    }
}

proof fn lemma_one_more_failed(chunk: Seq<Pubkey>, outcomes: Seq<bool>, ok: bool, k: Pubkey)
    requires
        outcomes.len() < chunk.len(),
    ensures
        failed_alone(chunk, outcomes.push(ok), k) <==> failed_alone(chunk, outcomes, k) || !ok && k
            == chunk[outcomes.len() as int],
{
    let all = outcomes.push(ok);
    let place = outcomes.len() as int;
    if failed_alone(chunk, outcomes, k) {
        let i = choose|i: int|
            0 <= i < outcomes.len() && i < chunk.len() && !outcomes[i] && #[trigger] chunk[i] == k;
        assert(!all[i] && chunk[i] == k);
    }
    if failed_alone(chunk, all, k) {
        let i = choose|i: int|
            0 <= i < all.len() && i < chunk.len() && !all[i] && #[trigger] chunk[i] == k;
        if i < place {
            assert(!outcomes[i] && chunk[i] == k);
        }
    }
    if !ok && k == chunk[place] {
        assert(!all[place] && chunk[place] == k);
    }
}

/// Where a chunk failed as a whole, its feeds are cranked one by one, each once and in order. With
/// the last of them, all that failed by themselves are put in quarantine for ten minutes, where at
/// least one succeeded, whatever the order; where none did, none is. No other feed is, and none
/// before the last was tried.
pub proof fn law_feeds_that_fail_alone_are_quarantined(
    s: CrankState,
    outcomes: Seq<bool>,
    ok: bool,
    quarantine: Map<Pubkey, Instant>,
    now: Instant,
    k: Pubkey,
)
    requires
        s.singles is None,
        0 < s.pending.len(),
        outcomes.len() < s.pending.len(),
        outcomes.len() < 6,
        can_add(now, secs(ORACLE_QUARANTINE_SECS as nat)),
    ensures
        ({
            let run = after_cranks(after_crank(s, false), outcomes);
            let all = outcomes.push(ok);
            let chunk = s.pending.take(
                if s.pending.len() <= 6 {
                    s.pending.len() as int
                } else {
                    6
                },
            );
            let after = with_all(quarantine, to_quarantine(run, ok), quarantine_end(now));
            &&& crank_request(run) == Some(seq![s.pending[outcomes.len() as int]])
            &&& if all.len() < chunk.len() {
                after == quarantine && after_crank(run, ok).pending == s.pending
            } else {
                &&& after_crank(run, ok).pending == s.pending.skip(chunk.len() as int)
                &&& after_crank(run, ok).singles is None
                &&& some_succeeded(all) && failed_alone(chunk, all, k) ==> after.contains_key(k)
                    && after[k].nanos == now.nanos + 600 * NANOS_PER_SEC
                &&& !(some_succeeded(all) && failed_alone(chunk, all, k)) ==> after.get(k)
                    == quarantine.get(k)
            }
        }),
{
    let chunk = first_chunk(s.pending);
    let run = after_cranks(after_crank(s, false), outcomes);
    let all = outcomes.push(ok);
    lemma_tally(s, outcomes);
    lemma_one_more_failed(chunk, outcomes, ok, k);
    let known = s.pending.take(
        if s.pending.len() <= 6 {
            s.pending.len() as int
        } else {
            6
        },
    );
    assert(chunk =~= known);
    let singles = run.singles->0;
    let tally = tallied(singles, chunk[singles.next as int], ok);
    assert(some_succeeded(all) <==> some_succeeded(outcomes) || ok) by {
        if some_succeeded(outcomes) {
            let i = choose|i: int| 0 <= i < outcomes.len() && #[trigger] outcomes[i];
            assert(all[i]);
        }
        if some_succeeded(all) {
            let i = choose|i: int| 0 <= i < all.len() && #[trigger] all[i];
            if i < outcomes.len() {
                assert(outcomes[i]);
            }
        }
        assert(all[outcomes.len() as int] == ok);
    }
    assert(tally.failed.contains(k) <==> failed_alone(chunk, all, k)) by {
        if !ok {
            assert(tally.failed == singles.failed.push(chunk[outcomes.len() as int]));
            assert(tally.failed[singles.failed.len() as int] == chunk[outcomes.len() as int]);
            if singles.failed.contains(k) {
                let j = choose|j: int| 0 <= j < singles.failed.len() && singles.failed[j] == k;
                assert(tally.failed[j] == k);
            }
        }
    }
    if all.len() < chunk.len() {
        assert(with_all(quarantine, to_quarantine(run, ok), quarantine_end(now)) =~= quarantine);
    }
}

/// A crank of a whole chunk puts no feed in quarantine.
pub proof fn law_a_whole_chunk_is_never_quarantined(s: CrankState, ok: bool)
    requires
        s.singles is None,
    ensures
        to_quarantine(s, ok).len() == 0,
{
}

/// Feeds are kept or left out one by one, in their order: those that are in quarantine are left
/// out, and what holds of a list holds of its parts.
pub proof fn law_feeds_are_kept_in_order(
    front: Seq<Pubkey>,
    oracle: Pubkey,
    quarantine: Map<Pubkey, Instant>,
    now: Instant,
)
    ensures
        active(Seq::empty(), lasting(quarantine, now)) == Seq::<Pubkey>::empty(),
        active(front.push(oracle), lasting(quarantine, now)) == if quarantine.contains_key(oracle)
            && quarantine[oracle].nanos > now.nanos {
            active(front, lasting(quarantine, now))
        } else {
            active(front, lasting(quarantine, now)).push(oracle)
        },
        quarantine.contains_key(oracle) && quarantine[oracle].nanos > now.nanos ==> lasting(
            quarantine,
            now,
        ).contains_key(oracle) && lasting(quarantine, now)[oracle] == quarantine[oracle],
{
    let kept = lasting(quarantine, now);
    let free = |k: Pubkey| !kept.contains_key(k);
    front.lemma_filter_push(oracle, free);
    assert(active(Seq::empty(), kept) =~= Seq::<Pubkey>::empty());
}

/// An error is one of a stale price exactly where the node answered with an error whose message
/// has the code in it, whatever stands around it and whatever number comes with it.
pub proof fn law_a_stale_price_is_told_by_its_code(
    code: i64,
    message: String,
    before: Seq<char>,
    after: Seq<char>,
    err: ClientError,
)
    requires
        err.kind == ClientErrorKind::RpcError(RpcError::RpcResponseError { code, message }),
    ensures
        message@ == before + "17a1"@ + after ==> says_stale_price(err),
        says_stale_price(err) ==> contains_text(message@, "17a1"@),
{
    let needle = "17a1"@;
    if message@ == before + needle + after {
        assert(message@.subrange(before.len() as int, before.len() as int + needle.len())
            =~= needle);
        assert(occurs_at(message@, needle, before.len() as int));
    }
}

/// Any other failure of the client is not one of a stale price.
pub proof fn law_only_answers_tell_of_stale_prices(err: ClientError)
    requires
        !(err.kind matches ClientErrorKind::RpcError(RpcError::RpcResponseError { .. })),
    ensures
        !says_stale_price(err),
{
}

/// A crank transaction is paid for and signed by the one key pair: it is the message of the
/// instructions with the key pair's address as the payer, signed with the key pair.
pub proof fn law_a_crank_is_paid_by_its_signer(
    keypair: Seq<u8>,
    payer: Pubkey,
    instructions: Seq<InstructionState>,
    tables: Seq<(Pubkey, Seq<Pubkey>)>,
    blockhash: Seq<u8>,
    r: Result<Vec<u8>, CrankTxError>,
)
    requires
        crank_tx_of(keypair, instructions, tables, blockhash, r),
        keypair_signer(keypair) == Some(payer),
    ensures
        match compiled_message(payer, instructions, tables, blockhash) {
            Err(error) => r matches Err(CrankTxError::Compile(e)) && e@ == error,
            Ok(message) => match signed_transaction(message, keypair) {
                Err(error) => r matches Err(CrankTxError::Sign(e)) && e@ == error,
                Ok(tx) => r matches Ok(t) && t@ == tx,
            },
        },
{
}

/// Runs start with the feeds that are not in quarantine, and go on as the states of this module
/// say; what is quarantined is so until ten minutes have passed.
pub proof fn law_runs_follow_their_states(
    starts: &mut SwbCranker,
    steps: &mut SwbCranker,
    filters: &mut SwbCranker,
    adds: &mut SwbCranker,
    oracles: &Vec<Pubkey>,
    now: Instant,
    start: CrankRun,
    run: CrankRun,
    ok: bool,
    next: CrankRun,
    rest: Vec<Pubkey>,
    k: Pubkey,
)
    requires
        can_add(now, secs(ORACLE_QUARANTINE_SECS as nat)),
        call_ensures(SwbCranker::crank_oracles, (starts, oracles, now), start),
        call_ensures(SwbCranker::step, (steps, run, ok, now), next),
        call_ensures(SwbCranker::filter_quarantined_oracles, (filters, oracles, now), rest),
        call_ensures(SwbCranker::quarantine_oracles, (adds, oracles, now), ()),
    ensures
        start@.pending == active(oracles@, lasting(old(starts)@, now)),
        start@.singles is None,
        final(starts)@ == lasting(old(starts)@, now),
        next@ == after_crank(run@, ok),
        final(steps)@ == with_all(old(steps)@, to_quarantine(run@, ok), quarantine_end(now)),
        rest@ == active(oracles@, lasting(old(filters)@, now)),
        final(filters)@ == lasting(old(filters)@, now),
        oracles@.contains(k) ==> final(adds)@.contains_key(k) && final(adds)@[k].nanos == now.nanos
            + 600 * NANOS_PER_SEC,
        !oracles@.contains(k) ==> final(adds)@.get(k) == old(adds)@.get(k),
{
}

/// A run asks for the feeds of its state, and an error is judged as modelled.
pub proof fn law_runs_ask_as_modelled(
    run: &CrankRun,
    feeds: Option<Vec<Pubkey>>,
    pending: Vec<Pubkey>,
    err: &ClientError,
    stale: bool,
)
    requires
        call_ensures(CrankRun::request, (run,), feeds),
        call_ensures(CrankRun::pending, (run,), pending),
        call_ensures(is_stale_swb_price_error, (err,), stale),
    ensures
        match feeds {
            Some(feeds) => crank_request(run@) == Some(feeds@),
            None => crank_request(run@) is None,
        },
        pending@ == run@.pending,
        stale == says_stale_price(*err),
{
}

/// Crank transactions are built as modelled.
pub proof fn law_cranks_are_built_as_modelled(
    keypair: &Vec<u8>,
    instructions: &Vec<Instruction>,
    tables: &Vec<LookupTable>,
    blockhash: [u8; 32],
    r: Result<Vec<u8>, CrankTxError>,
)
    requires
        call_ensures(SwbCranker::build_crank_tx, (keypair, instructions, tables, blockhash), r),
    ensures
        crank_tx_of(
            keypair@,
            instruction_views(instructions@),
            table_views(tables@),
            blockhash@,
            r,
        ),
        keypair_signer(keypair@) is None ==> r matches Err(CrankTxError::InvalidKeypair),
{
}

}
