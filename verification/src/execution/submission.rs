//! Landing an ordered list of transactions.
//!
//! The transactions go out as an atomic bundle, with a tip behind them. They are sent one by one
//! only where the bundle was never accepted. A bundle that was accepted but did not confirm in
//! time stays in flight: it is not sent again, since that could execute it twice.
//!
//! What a transaction is (`T`), and what a failed send reports (`E`), does not matter here. The
//! caller performs the pending request and hands back what came of it.

use vstd::prelude::*;

verus! {

/// How the transactions reached the chain.
#[derive(Clone, Copy, Debug, PartialEq, Eq, Structural)]
pub enum Landing {
    /// The bundle was confirmed.
    Bundled,
    /// The bundle was accepted and may still land.
    InFlight,
    /// Each transaction was sent by itself and confirmed.
    OneByOne,
}

/// Why the transactions did not reach the chain.
#[derive(Debug)]
pub enum SubmitError<E> {
    /// There was nothing to send.
    NoTransactions,
    /// Sending one by one, the transaction at this place, counted from one, failed. Those before
    /// it are applied.
    SendFailed { place: usize, total: usize, cause: E },
}

/// Where a submission stands.
#[derive(Debug)]
pub enum SubmitPhase<E> {
    /// The tip is asked for.
    Tipping,
    /// The bundle is out. The tip is the last transaction.
    Bundling,
    /// The transaction at this index is out; those before it are confirmed.
    Sending(usize),
    /// Nothing is left to do.
    Done(Result<Landing, SubmitError<E>>),
}

/// What the caller is to do.
#[derive(Clone, Copy, Debug, PartialEq, Eq, Structural)]
pub enum SubmitRequest {
    /// Build the transaction that pays the tip.
    BuildTip,
    /// Send all transactions as one bundle and poll for its confirmation.
    SendBundle,
    /// Send the transaction at this index and wait for its confirmation.
    SendTransaction(usize),
    /// Nothing.
    Nothing,
}

/// What came of it.
#[derive(Debug)]
pub enum SubmitEvent<T, E> {
    TipBuilt(T),
    TipFailed,
    BundleConfirmed,
    BundleUnconfirmed,
    BundleNotAccepted,
    TransactionConfirmed,
    TransactionFailed(E),
}

/// Transactions on their way.
#[derive(Debug)]
pub struct Submission<T, E> {
    txs: Vec<T>,
    phase: SubmitPhase<E>,
}

/// What a submission is: its transactions and where it stands.
pub struct SubmissionState<T, E> {
    pub txs: Seq<T>,
    pub phase: SubmitPhase<E>,
}

// ── Models ───────────────────────────────────────────────────────────────────

/// The request that a phase waits on.
pub open spec fn request_of<E>(phase: SubmitPhase<E>) -> SubmitRequest {
    match phase {
        SubmitPhase::Tipping => SubmitRequest::BuildTip,
        SubmitPhase::Bundling => SubmitRequest::SendBundle,
        SubmitPhase::Sending(i) => SubmitRequest::SendTransaction(i),
        SubmitPhase::Done(_) => SubmitRequest::Nothing,
    }
}

/// The event is an answer to the request.
pub open spec fn event_answers<T, E>(request: SubmitRequest, event: SubmitEvent<T, E>) -> bool {
    match event {
        SubmitEvent::TipBuilt(_) | SubmitEvent::TipFailed => request == SubmitRequest::BuildTip,
        SubmitEvent::BundleConfirmed
        | SubmitEvent::BundleUnconfirmed
        | SubmitEvent::BundleNotAccepted => request == SubmitRequest::SendBundle,
        SubmitEvent::TransactionConfirmed
        | SubmitEvent::TransactionFailed(_) => request is SendTransaction,
    }
}

/// A list of transactions about to go out as a bundle.
pub open spec fn bundle_first<T, E>(txs: Seq<T>) -> SubmissionState<T, E> {
    SubmissionState {
        txs,
        phase: if txs.len() == 0 {
            SubmitPhase::Done(Err(SubmitError::NoTransactions))
        } else {
            SubmitPhase::Tipping
        },
    }
}

/// A list of transactions of which those before `i` are confirmed.
pub open spec fn send_from<T, E>(txs: Seq<T>, i: nat) -> SubmissionState<T, E> {
    SubmissionState {
        txs,
        phase: if i >= txs.len() {
            SubmitPhase::Done(Ok(Landing::OneByOne))
        } else {
            SubmitPhase::Sending(i as usize)
        },
    }
}

/// The state after an event. An event that answers another request changes nothing.
pub open spec fn after_event<T, E>(
    s: SubmissionState<T, E>,
    event: SubmitEvent<T, E>,
) -> SubmissionState<T, E> {
    match (s.phase, event) {
        (SubmitPhase::Tipping, SubmitEvent::TipBuilt(tip)) => SubmissionState {
            txs: s.txs.push(tip),
            phase: SubmitPhase::Bundling,
        },
        (SubmitPhase::Tipping, SubmitEvent::TipFailed) => send_from(s.txs, 0),
        (SubmitPhase::Bundling, SubmitEvent::BundleConfirmed) => SubmissionState {
            txs: s.txs,
            phase: SubmitPhase::Done(Ok(Landing::Bundled)),
        },
        (SubmitPhase::Bundling, SubmitEvent::BundleUnconfirmed) => SubmissionState {
            txs: s.txs,
            phase: SubmitPhase::Done(Ok(Landing::InFlight)),
        },
        (SubmitPhase::Bundling, SubmitEvent::BundleNotAccepted) => send_from(s.txs.drop_last(), 0),
        (SubmitPhase::Sending(i), SubmitEvent::TransactionConfirmed) => send_from(
            s.txs,
            (i + 1) as nat,
        ),
        (SubmitPhase::Sending(i), SubmitEvent::TransactionFailed(cause)) => SubmissionState {
            txs: s.txs,
            phase: SubmitPhase::Done(
                Err(
                    SubmitError::SendFailed {
                        place: (i + 1) as usize,
                        total: s.txs.len() as usize,
                        cause,
                    },
                ),
            ),
        },
        _ => s,
    }
}

/// The event makes the submission turn from the bundle to sending one by one.
pub open spec fn falls_back<T, E>(s: SubmissionState<T, E>, event: SubmitEvent<T, E>) -> bool {
    ||| s.phase is Tipping && event is TipFailed
    ||| s.phase is Bundling && event is BundleNotAccepted
}

/// A submission sends something: there is a transaction before the tip is asked for, one beside
/// the tip in the bundle, and one at the index that is out.
pub open spec fn state_wf<T, E>(s: SubmissionState<T, E>) -> bool {
    &&& s.txs.len() <= usize::MAX
    &&& s.phase is Tipping ==> s.txs.len() > 0
    &&& s.phase is Bundling ==> s.txs.len() > 1
    &&& s.phase matches SubmitPhase::Sending(i) ==> i < s.txs.len()
}

// ── Steps ────────────────────────────────────────────────────────────────────

impl<T, E> View for Submission<T, E> {
    type V = SubmissionState<T, E>;

    closed spec fn view(&self) -> SubmissionState<T, E> {
        SubmissionState { txs: self.txs@, phase: self.phase }
    }
}

impl<T, E> Submission<T, E> {
    /// Starts with the bundle.
    pub fn bundle(txs: Vec<T>) -> (s: Submission<T, E>)
        ensures
            s@ == bundle_first::<T, E>(txs@),
            state_wf(s@),
    {
        let phase = if txs.len() == 0 {
            SubmitPhase::Done(Err(SubmitError::NoTransactions))
        } else {
            SubmitPhase::Tipping
        };
        Submission { txs, phase }
    }

    /// Starts with the first transaction, one by one.
    pub fn one_by_one(txs: Vec<T>) -> (s: Submission<T, E>)
        ensures
            s@ == send_from::<T, E>(txs@, 0),
            state_wf(s@),
    {
        Self::resume(txs, 0)
    }

    fn resume(txs: Vec<T>, from: usize) -> (s: Submission<T, E>)
        ensures
            s@ == send_from::<T, E>(txs@, from as nat),
            state_wf(s@),
    {
        let phase = if from >= txs.len() {
            SubmitPhase::Done(Ok(Landing::OneByOne))
        } else {
            SubmitPhase::Sending(from)
        };
        Submission { txs, phase }
    }

    /// The pending request.
    pub fn request(&self) -> (r: SubmitRequest)
        ensures
            r == request_of(self@.phase),
    {
        match &self.phase {
            SubmitPhase::Tipping => SubmitRequest::BuildTip,
            SubmitPhase::Bundling => SubmitRequest::SendBundle,
            SubmitPhase::Sending(i) => SubmitRequest::SendTransaction(*i),
            SubmitPhase::Done(_) => SubmitRequest::Nothing,
        }
    }

    /// The transactions, with the tip where one was added.
    pub fn txs(&self) -> (txs: &Vec<T>)
        ensures
            txs@ == self@.txs,
    {
        &self.txs
    }

    /// Takes an event in.
    pub fn step(self, event: SubmitEvent<T, E>) -> (s: Submission<T, E>)
        requires
            state_wf(self@),
        ensures
            s@ == after_event(self@, event),
            state_wf(s@),
    {
        let Submission { txs, phase } = self;
        match (phase, event) {
            (SubmitPhase::Tipping, SubmitEvent::TipBuilt(tip)) => {
                let mut txs = txs;
                txs.push(tip);
                assert(txs@.len() == txs.len());
                Submission { txs, phase: SubmitPhase::Bundling }
            },
            (SubmitPhase::Tipping, SubmitEvent::TipFailed) => Self::resume(txs, 0),
            (SubmitPhase::Bundling, SubmitEvent::BundleConfirmed) => Submission {
                txs,
                phase: SubmitPhase::Done(Ok(Landing::Bundled)),
            },
            (SubmitPhase::Bundling, SubmitEvent::BundleUnconfirmed) => Submission {
                txs,
                phase: SubmitPhase::Done(Ok(Landing::InFlight)),
            },
            (SubmitPhase::Bundling, SubmitEvent::BundleNotAccepted) => {
                let mut txs = txs;
                let _ = txs.pop();
                assert(txs@ =~= self@.txs.drop_last());
                Self::resume(txs, 0)
            },
            (SubmitPhase::Sending(i), SubmitEvent::TransactionConfirmed) => Self::resume(
                txs,
                i + 1,
            ),
            (SubmitPhase::Sending(i), SubmitEvent::TransactionFailed(cause)) => {
                let total: usize = txs.len();
                Submission {
                    txs,
                    phase: SubmitPhase::Done(
                        Err(SubmitError::SendFailed { place: i + 1, total, cause }),
                    ),
                }
            },
            (phase, _) => Submission { txs, phase },
        }
    }

    /// What came of the submission, or the submission itself while a request is pending.
    pub fn into_result(self) -> (r: Result<
        Result<Landing, SubmitError<E>>,
        Submission<T, E>,
    >)
        ensures
            match r {
                Ok(result) => self@.phase == SubmitPhase::Done(result),
                Err(s) => s@ == self@ && !(s@.phase is Done),
            },
    {
        let Submission { txs, phase } = self;
        match phase {
            SubmitPhase::Done(result) => Ok(result),
            phase => Err(Submission { txs, phase }),
        }
    }
}

// ── Laws ─────────────────────────────────────────────────────────────────────

/// A bundle that was accepted is the end of the submission: whatever events follow, nothing is
/// sent again.
pub proof fn law_accepted_bundle_is_never_resent<T, E>(
    s: SubmissionState<T, E>,
    accepted: SubmitEvent<T, E>,
    later: SubmitEvent<T, E>,
)
    requires
        s.phase is Bundling,
        accepted is BundleConfirmed || accepted is BundleUnconfirmed,
    ensures
        after_event(s, accepted).phase matches SubmitPhase::Done(Ok(_)),
        after_event(after_event(s, accepted), later) == after_event(s, accepted),
{
}

/// The transactions are sent one by one only where no bundle was accepted, and then as they
/// were handed in: without the tip.
pub proof fn law_fallback_sends_the_transactions_without_the_tip<T, E>(
    s: SubmissionState<T, E>,
    tip: T,
)
    requires
        s.phase is Tipping,
    ensures
        after_event(s, SubmitEvent::TipFailed) == send_from::<T, E>(s.txs, 0),
        after_event(after_event(s, SubmitEvent::TipBuilt(tip)), SubmitEvent::BundleNotAccepted)
            == send_from::<T, E>(s.txs, 0),
{
    assert(s.txs.push(tip).drop_last() =~= s.txs);
}

/// Sending one by one starts only from a tip that could not be built or a bundle that was not
/// accepted.
pub proof fn law_one_by_one_needs_a_refused_bundle<T, E>(
    s: SubmissionState<T, E>,
    event: SubmitEvent<T, E>,
)
    requires
        !(s.phase is Sending),
        after_event(s, event).phase is Sending,
    ensures
        falls_back(s, event),
{
}

/// The transactions go out in order: the next one follows only when the one before it is
/// confirmed, and a failure is the end.
pub proof fn law_one_by_one_keeps_the_order<T, E>(
    s: SubmissionState<T, E>,
    event: SubmitEvent<T, E>,
    i: usize,
)
    requires
        state_wf(s),
        s.phase == SubmitPhase::<E>::Sending(i),
    ensures
        after_event(s, event).txs == s.txs,
        after_event(s, event).phase matches SubmitPhase::Sending(j) ==> j == i || j == i + 1
            && event is TransactionConfirmed,
        after_event(s, event).phase matches SubmitPhase::Done(Ok(_)) ==> i + 1 == s.txs.len()
            && event is TransactionConfirmed,
{
}

/// The requests that a submission can still make, at most.
pub open spec fn steps_left<T, E>(s: SubmissionState<T, E>) -> nat {
    match s.phase {
        SubmitPhase::Tipping => s.txs.len() + 2,
        SubmitPhase::Bundling => s.txs.len(),
        SubmitPhase::Sending(i) => (s.txs.len() - i) as nat,
        SubmitPhase::Done(_) => 0,
    }
}

/// Every answer brings the submission nearer to its end, which is reached when no request is
/// left.
pub proof fn law_submission_ends<T, E>(s: SubmissionState<T, E>, event: SubmitEvent<T, E>)
    requires
        state_wf(s),
        event_answers(request_of(s.phase), event),
    ensures
        steps_left(after_event(s, event)) < steps_left(s),
        steps_left(s) == 0 <==> s.phase is Done,
{
}

/// A list that is not empty goes out as one bundle: the transactions in order, and the tip behind
/// them. How the bundle fared is how the transactions landed.
pub proof fn law_a_list_goes_out_as_a_tipped_bundle<T, E>(txs: Seq<T>, tip: T)
    requires
        txs.len() > 0,
    ensures
        ({
            let start = bundle_first::<T, E>(txs);
            let out = after_event(start, SubmitEvent::TipBuilt(tip));
            &&& request_of(start.phase) == SubmitRequest::BuildTip
            &&& request_of(out.phase) == SubmitRequest::SendBundle
            &&& out.txs.len() == txs.len() + 1
            &&& out.txs.last() == tip
            &&& forall|i: int| 0 <= i < txs.len() ==> #[trigger] out.txs[i] == txs[i]
            &&& after_event(out, SubmitEvent::BundleConfirmed).phase == SubmitPhase::<E>::Done(
                Ok(Landing::Bundled),
            )
            &&& after_event(out, SubmitEvent::BundleUnconfirmed).phase == SubmitPhase::<E>::Done(
                Ok(Landing::InFlight),
            )
        }),
{
}

/// An empty list is refused at once: nothing is asked for.
pub proof fn law_an_empty_list_is_refused<T, E>(txs: Seq<T>)
    ensures
        bundle_first::<T, E>(txs).phase == SubmitPhase::<E>::Done(
            Err(SubmitError::NoTransactions),
        ) <==> txs.len() == 0,
        bundle_first::<T, E>(txs).phase is Done <==> request_of(bundle_first::<T, E>(txs).phase)
            == SubmitRequest::Nothing,
        bundle_first::<T, E>(txs).phase is Done <==> txs.len() == 0,
{
}

/// Where no bundle was accepted, the first transaction is sent by itself, of just the list that
/// was handed in.
pub proof fn law_a_refused_bundle_is_sent_from_the_start<T, E>(txs: Seq<T>, tip: T)
    requires
        txs.len() > 0,
    ensures
        ({
            let start = bundle_first::<T, E>(txs);
            let untipped = after_event(start, SubmitEvent::TipFailed);
            let refused = after_event(
                after_event(start, SubmitEvent::TipBuilt(tip)),
                SubmitEvent::BundleNotAccepted,
            );
            &&& untipped.txs == txs
            &&& untipped.phase == SubmitPhase::<E>::Sending(0)
            &&& refused.txs == txs
            &&& refused.phase == SubmitPhase::<E>::Sending(0)
            &&& request_of(refused.phase) == SubmitRequest::SendTransaction(0)
        }),
{
    assert(txs.push(tip).drop_last() =~= txs);
}

/// A submission after a number of confirmations.
pub open spec fn after_confirmations<T, E>(s: SubmissionState<T, E>, n: nat) -> SubmissionState<T, E>
    decreases n,
{
    if n == 0 {
        s
    } else {
        after_event(after_confirmations(s, (n - 1) as nat), SubmitEvent::TransactionConfirmed)
    }
}

/// Sending one by one takes the transactions in turn, each once, and ends well with the last
/// confirmation and not before. Where one fails, the error says which of how many, and nothing
/// further is sent.
pub proof fn law_one_by_one_sends_each_once<T, E>(
    s: SubmissionState<T, E>,
    n: nat,
    cause: E,
    later: SubmitEvent<T, E>,
)
    requires
        s.phase == SubmitPhase::<E>::Sending(0),
        0 < s.txs.len() <= usize::MAX,
        n <= s.txs.len(),
    ensures
        ({
            let now = after_confirmations(s, n);
            let failed = after_event(now, SubmitEvent::TransactionFailed(cause));
            &&& now.txs == s.txs
            &&& n < s.txs.len() ==> request_of(now.phase) == SubmitRequest::SendTransaction(
                n as usize,
            ) && failed.phase == SubmitPhase::<E>::Done(
                Err(
                    SubmitError::SendFailed {
                        place: (n + 1) as usize,
                        total: s.txs.len() as usize,
                        cause,
                    },
                ),
            ) && after_event(failed, later) == failed
            &&& n == s.txs.len() ==> now.phase == SubmitPhase::<E>::Done(Ok(Landing::OneByOne))
                && after_event(now, later) == now
        }),
    decreases n,
{
    if n > 0 {
        law_one_by_one_sends_each_once(s, (n - 1) as nat, cause, later);
    }
}

/// An event that is no answer to what was asked for leaves a submission as it is.
pub proof fn law_only_answers_change_a_submission<T, E>(
    s: SubmissionState<T, E>,
    event: SubmitEvent<T, E>,
)
    requires
        match s.phase {
            SubmitPhase::Tipping => !(event is TipBuilt || event is TipFailed),
            SubmitPhase::Bundling => !(event is BundleConfirmed || event is BundleUnconfirmed
                || event is BundleNotAccepted),
            SubmitPhase::Sending(_) => !(event is TransactionConfirmed
                || event is TransactionFailed),
            SubmitPhase::Done(_) => true,
        },
    ensures
        after_event(s, event) == s,
        !event_answers(request_of(s.phase), event),
{
}

/// Submissions start and go on as the states of this module say.
pub proof fn law_submissions_follow_their_states<T, E>(
    txs: Vec<T>,
    bundle: Submission<T, E>,
    one_by_one: Submission<T, E>,
    s: Submission<T, E>,
    event: SubmitEvent<T, E>,
    next: Submission<T, E>,
    request: SubmitRequest,
)
    requires
        call_ensures(Submission::<T, E>::bundle, (txs,), bundle),
        call_ensures(Submission::<T, E>::one_by_one, (txs,), one_by_one),
        call_ensures(Submission::<T, E>::step, (s, event), next),
        call_ensures(Submission::<T, E>::request, (&s,), request),
    ensures
        bundle@.txs == txs@,
        bundle@.phase is Tipping <==> txs@.len() > 0,
        bundle@.phase is Done <==> txs@.len() == 0,
        one_by_one@.txs == txs@,
        txs@.len() > 0 ==> one_by_one@.phase == SubmitPhase::<E>::Sending(0),
        txs@.len() == 0 ==> one_by_one@.phase == SubmitPhase::<E>::Done(Ok(Landing::OneByOne)),
        next@ == after_event(s@, event),
        request == request_of(s@.phase),
{
}

}
