//! Selling what was seized.
//!
//! The rebalancer keeps the value of each token at or below its threshold: what exceeds it is
//! sold for the token of the reserve, down to half of the threshold. Liquidations buy what they
//! need themselves, so nothing is bought here.
//!
//! A cycle goes through the tokens one by one. Tokens for which no swap route was found lately
//! are left alone for a while. The caller performs the pending request and hands back what came
//! of it.

use vstd::arithmetic::power2::lemma2_to64;
use vstd::prelude::*;

use crate::fixed_point::{
    fits_u64, half_bits, law_a_half_is_half, law_the_whole_part_is_cut_off, whole, I80F48, ONE_BITS,
};
use crate::keyed::{KeyMap, KeySet};
use crate::pubkey::Pubkey;
use crate::text::{contains, contains_text};
use crate::time::{
    backoff_secs, can_add, exponential_delay, law_backoff_doubles_or_is_capped,
    law_backoff_grows_to_its_cap, secs, Duration, Instant, NANOS_PER_SEC,
};

verus! {

/// The wait of a token after the first failure to find a route.
pub const ROUTE_BACKOFF_BASE_SECS: u64 = 60;

/// The longest wait of a token.
pub const ROUTE_BACKOFF_MAX_SECS: u64 = 3600;

/// What an error says where a stake bank is empty.
pub const EMPTY_STAKE_POOL: &'static str = "Stake pool supply is zero";

/// What a failed swap says where there is no route.
pub const NO_AGGREGATORS: &'static str = "No aggregators available";

/// The backoff of a token for which no swap route was found.
#[derive(Clone, Copy, Debug, PartialEq, Eq, Structural)]
pub struct RouteBackoff {
    /// Failures in a row.
    pub failures: u32,
    /// The token is not tried before this time.
    pub retry_after: Instant,
}

/// The wait of a token, in seconds, after the `failures`-th failure in a row.
pub open spec fn route_backoff_secs(failures: nat) -> nat {
    backoff_secs(ROUTE_BACKOFF_BASE_SECS as nat, ROUTE_BACKOFF_MAX_SECS as nat, failures)
}

/// The wait of a token after the `failures`-th failure in a row: the base wait, doubled by each
/// further failure, up to the cap.
pub fn backoff_delay(failures: u32) -> (d: Duration)
    ensures
        d.nanos == secs(route_backoff_secs(failures as nat)),
{
    proof {
        lemma2_to64();
    }
    exponential_delay(ROUTE_BACKOFF_BASE_SECS, ROUTE_BACKOFF_MAX_SECS, failures, 16)
}

// ── Swaps ────────────────────────────────────────────────────────────────────

/// A swap to carry out.
#[derive(Clone, Copy, Debug)]
pub struct Swap {
    pub amount: u64,
    pub input_mint: Pubkey,
    pub output_mint: Pubkey,
}

/// Why a swap is not carried out.
#[derive(Clone, Copy, Debug)]
pub enum SwapError {
    /// The input and the output are the same.
    SameMint(Pubkey),
    /// There is nothing to swap.
    ZeroAmount(Pubkey),
}

/// The swap that is to be carried out, or why it is not.
pub open spec fn swap_of(amount: u64, input_mint: Pubkey, output_mint: Pubkey) -> Result<
    Swap,
    SwapError,
> {
    if input_mint == output_mint {
        Err(SwapError::SameMint(input_mint))
    } else if amount == 0 {
        Err(SwapError::ZeroAmount(input_mint))
    } else {
        Ok(Swap { amount, input_mint, output_mint })
    }
}

impl Swap {
    /// A swap of some amount, which is not zero, into another token.
    pub fn new(amount: u64, input_mint: Pubkey, output_mint: Pubkey) -> (swap: Result<
        Swap,
        SwapError,
    >)
        ensures
            swap == swap_of(amount, input_mint, output_mint),
    {
        if input_mint == output_mint {
            Err(SwapError::SameMint(input_mint))
        } else if amount == 0 {
            Err(SwapError::ZeroAmount(input_mint))
        } else {
            Ok(Swap { amount, input_mint, output_mint })
        }
    }
}

// ── The rebalancer's records ─────────────────────────────────────────────────

/// The thresholds, and what the rebalancer remembers from one cycle to the next.
#[derive(Debug)]
pub struct Rebalancer {
    swap_mint: Pubkey,
    default_token_max_threshold: I80F48,
    token_thresholds: KeyMap<I80F48>,
    empty_stake_banks: KeySet,
    route_backoff: KeyMap<RouteBackoff>,
}

/// What a rebalancer is.
pub struct RebalancerState {
    /// The token of the reserve.
    pub swap_mint: Pubkey,
    /// The threshold of a token that has none of its own.
    pub default_max: I80F48,
    /// The thresholds of tokens.
    pub max_values: Map<Pubkey, I80F48>,
    /// The tokens whose stake bank is empty.
    pub empty_stake_banks: Set<Pubkey>,
    /// The tokens without a swap route.
    pub route_backoff: Map<Pubkey, RouteBackoff>,
}

impl View for Rebalancer {
    type V = RebalancerState;

    closed spec fn view(&self) -> RebalancerState {
        RebalancerState {
            swap_mint: self.swap_mint,
            default_max: self.default_token_max_threshold,
            max_values: self.token_thresholds@,
            empty_stake_banks: self.empty_stake_banks@,
            route_backoff: self.route_backoff@,
        }
    }
}

/// The threshold of a token.
pub open spec fn max_value_of(x: RebalancerState, mint: Pubkey) -> I80F48 {
    if x.max_values.contains_key(mint) {
        x.max_values[mint]
    } else {
        x.default_max
    }
}

/// The token is passed over: it is the reserve's, its stake bank is empty, or it is backed off.
pub open spec fn passed_over(x: RebalancerState, mint: Pubkey, now: Instant) -> bool {
    ||| mint == x.swap_mint
    ||| x.empty_stake_banks.contains(mint)
    ||| x.route_backoff.contains_key(mint) && now.nanos < x.route_backoff[mint].retry_after.nanos
}

/// The failures in a row that are on record for a token.
pub open spec fn route_failures(x: RebalancerState, mint: Pubkey) -> u32 {
    if x.route_backoff.contains_key(mint) {
        x.route_backoff[mint].failures
    } else {
        0
    }
}

/// The records after another failure to find a route.
pub open spec fn with_no_route(x: RebalancerState, mint: Pubkey, now: Instant) -> RebalancerState {
    let before = route_failures(x, mint);
    let failures = if before == u32::MAX {
        before
    } else {
        (before + 1) as u32
    };
    let retry_after = Instant {
        nanos: (now.nanos + secs(route_backoff_secs(failures as nat))) as u128,
    };
    RebalancerState {
        route_backoff: x.route_backoff.insert(mint, RouteBackoff { failures, retry_after }),
        ..x
    }
}

impl Rebalancer {
    /// No token stands in a record twice.
    pub closed spec fn wf(&self) -> bool {
        self.token_thresholds.wf() && self.empty_stake_banks.wf() && self.route_backoff.wf()
    }

    /// A rebalancer that remembers nothing.
    pub fn new(
        swap_mint: Pubkey,
        default_token_max_threshold: I80F48,
        token_thresholds: KeyMap<I80F48>,
    ) -> (r: Rebalancer)
        requires
            token_thresholds.wf(),
        ensures
            r.wf(),
            r@ == (RebalancerState {
                swap_mint,
                default_max: default_token_max_threshold,
                max_values: token_thresholds@,
                empty_stake_banks: Set::empty(),
                route_backoff: Map::empty(),
            }),
    {
        Rebalancer {
            swap_mint,
            default_token_max_threshold,
            token_thresholds,
            empty_stake_banks: KeySet::new(),
            route_backoff: KeyMap::new(),
        }
    }

    fn passes_over(&self, mint: &Pubkey, now: Instant) -> (r: bool)
        requires
            self.wf(),
        ensures
            r == passed_over(self@, *mint, now),
    {
        if *mint == self.swap_mint || self.empty_stake_banks.contains(mint) {
            return true;
        }
        match self.route_backoff.get(mint) {
            Some(backoff) => now.is_before(backoff.retry_after),
            None => false,
        }
    }

    fn max_value(&self, mint: &Pubkey) -> (max: I80F48)
        requires
            self.wf(),
        ensures
            max == max_value_of(self@, *mint),
    {
        match self.token_thresholds.get(mint) {
            Some(max) => *max,
            None => self.default_token_max_threshold,
        }
    }

    fn note_no_route(&mut self, mint: Pubkey, now: Instant)
        requires
            old(self).wf(),
            can_add(now, secs(ROUTE_BACKOFF_MAX_SECS as nat)),
        ensures
            final(self).wf(),
            final(self)@ == with_no_route(old(self)@, mint, now),
    {
        let before: u32 = match self.route_backoff.get(&mint) {
            Some(backoff) => backoff.failures,
            None => 0,
        };
        let failures: u32 = before.saturating_add(1);
        let delay = backoff_delay(failures);
        assert(delay.nanos <= secs(ROUTE_BACKOFF_MAX_SECS as nat));
        self.route_backoff.insert(
            mint,
            RouteBackoff { failures, retry_after: now.plus(delay) },
        );
    }
}

// ── A cycle ──────────────────────────────────────────────────────────────────

/// What the caller is to do.
#[derive(Clone, Copy, Debug)]
pub enum SellRequest {
    /// Look the token up and value what is held of it.
    Value(Pubkey),
    /// Convert a value into an amount of the token.
    Amount { mint: Pubkey, value: I80F48 },
    /// Carry out a swap.
    Swap(Swap),
    /// Nothing.
    Nothing,
}

/// What came of it.
#[derive(Debug)]
pub enum SellEvent<E> {
    /// The token is not known.
    UnknownToken(E),
    /// The token could not be priced, and what the error says.
    NoPrice(String),
    /// What is held could not be valued.
    NoValue(E),
    /// The value of what is held.
    Value(I80F48),
    /// The value could not be converted.
    NoAmount(E),
    /// The amount.
    Amount(I80F48),
    /// The swap was carried out.
    Swapped,
    /// The swap failed, and what the error says.
    SwapFailed(String),
}

/// Where a cycle stands with its current token.
#[derive(Debug)]
pub enum SellPhase<E> {
    /// Its value is asked for.
    Valuing,
    /// The amount is asked for that is worth a value.
    Sizing(I80F48),
    /// It is being sold.
    Swapping(Swap),
    /// The cycle is over.
    Done(Result<(), E>),
}

/// A cycle through the tokens.
#[derive(Debug)]
pub struct SellRun<E> {
    mints: Vec<Pubkey>,
    at: usize,
    phase: SellPhase<E>,
}

/// What a cycle is.
pub struct SellState<E> {
    /// The tokens.
    pub mints: Seq<Pubkey>,
    /// The place of the current token.
    pub at: nat,
    pub phase: SellPhase<E>,
}

impl<E> View for SellRun<E> {
    type V = SellState<E>;

    closed spec fn view(&self) -> SellState<E> {
        SellState { mints: self.mints@, at: self.at as nat, phase: self.phase }
    }
}

/// There is a current token until the cycle is over, and it is not the reserve's.
pub open spec fn sell_wf<E>(x: RebalancerState, r: SellState<E>) -> bool {
    &&& !(r.phase is Done) ==> r.at < r.mints.len() && r.mints[r.at as int] != x.swap_mint
    &&& r.phase matches SellPhase::Swapping(swap) ==> swap.amount > 0 && swap.input_mint
        == r.mints[r.at as int] && swap.output_mint == x.swap_mint
}

/// The place of the first token from `from` on that is not passed over.
pub open spec fn next_place(
    x: RebalancerState,
    mints: Seq<Pubkey>,
    from: nat,
    now: Instant,
) -> nat
    decreases mints.len() - from,
{
    if from >= mints.len() {
        mints.len()
    } else if passed_over(x, mints[from as int], now) {
        next_place(x, mints, from + 1, now)
    } else {
        from
    }
}

/// The cycle at the first token from `from` on that is not passed over.
pub open spec fn moved_to<E>(
    x: RebalancerState,
    mints: Seq<Pubkey>,
    from: nat,
    now: Instant,
) -> SellState<E> {
    let at = next_place(x, mints, from, now);
    SellState {
        mints,
        at,
        phase: if at < mints.len() {
            SellPhase::Valuing
        } else {
            SellPhase::Done(Ok(()))
        },
    }
}

/// The value that is sold of a token: what exceeds half of its threshold.
pub open spec fn excess_bits(x: RebalancerState, mint: Pubkey, value: I80F48) -> int {
    value.bits - half_bits(max_value_of(x, mint))
}

/// The records after an event.
pub open spec fn rebalancer_after<E>(
    x: RebalancerState,
    r: SellState<E>,
    event: SellEvent<E>,
    now: Instant,
) -> RebalancerState {
    let mint = r.mints[r.at as int];
    match (r.phase, event) {
        (SellPhase::Valuing, SellEvent::NoPrice(message)) => if contains_text(
            message@,
            EMPTY_STAKE_POOL@,
        ) {
            RebalancerState { empty_stake_banks: x.empty_stake_banks.insert(mint), ..x }
        } else {
            x
        },
        (SellPhase::Swapping(_), SellEvent::Swapped) => RebalancerState {
            route_backoff: x.route_backoff.remove(mint),
            ..x
        },
        (SellPhase::Swapping(_), SellEvent::SwapFailed(message)) => if contains_text(
            message@,
            NO_AGGREGATORS@,
        ) {
            with_no_route(x, mint, now)
        } else {
            x
        },
        _ => x,
    }
}

/// The cycle after an event. An event that answers another request changes nothing.
pub open spec fn sell_after<E>(
    x: RebalancerState,
    r: SellState<E>,
    event: SellEvent<E>,
    now: Instant,
) -> SellState<E> {
    let mint = r.mints[r.at as int];
    let next = moved_to(rebalancer_after(x, r, event, now), r.mints, r.at + 1, now);
    match (r.phase, event) {
        (SellPhase::Valuing, SellEvent::UnknownToken(e)) => SellState {
            phase: SellPhase::Done(Err(e)),
            ..r
        },
        (SellPhase::Valuing, SellEvent::NoPrice(_)) => next,
        (SellPhase::Valuing, SellEvent::NoValue(e)) => SellState {
            phase: SellPhase::Done(Err(e)),
            ..r
        },
        (SellPhase::Valuing, SellEvent::Value(value)) => if value.bits > max_value_of(
            x,
            mint,
        ).bits {
            SellState {
                phase: SellPhase::Sizing(
                    I80F48 { bits: excess_bits(x, mint, value) as i128 },
                ),
                ..r
            }
        } else {
            next
        },
        (SellPhase::Sizing(_), SellEvent::NoAmount(e)) => SellState {
            phase: SellPhase::Done(Err(e)),
            ..r
        },
        (SellPhase::Sizing(_), SellEvent::Amount(amount)) => match swap_of(
            whole(amount) as u64,
            mint,
            x.swap_mint,
        ) {
            Ok(swap) => SellState { phase: SellPhase::Swapping(swap), ..r },
            Err(_) => next,
        },
        (SellPhase::Swapping(_), SellEvent::Swapped) => next,
        (SellPhase::Swapping(_), SellEvent::SwapFailed(_)) => next,
        _ => r,
    }
}

/// The numbers that an event brings can be computed with: where there is an excess to sell, it can
/// be represented, and an amount is one of whole tokens.
pub open spec fn computable<E>(x: RebalancerState, r: SellState<E>, event: SellEvent<E>) -> bool {
    match (r.phase, event) {
        (SellPhase::Valuing, SellEvent::Value(value)) => value.bits > max_value_of(
            x,
            r.mints[r.at as int],
        ).bits ==> i128::MIN <= excess_bits(x, r.mints[r.at as int], value) <= i128::MAX,
        (SellPhase::Sizing(_), SellEvent::Amount(amount)) => fits_u64(amount),
        _ => true,
    }
}

/// The request that a cycle waits on.
pub open spec fn sell_request<E>(r: SellState<E>) -> SellRequest {
    match r.phase {
        SellPhase::Valuing => SellRequest::Value(r.mints[r.at as int]),
        SellPhase::Sizing(value) => SellRequest::Amount { mint: r.mints[r.at as int], value },
        SellPhase::Swapping(swap) => SellRequest::Swap(swap),
        SellPhase::Done(_) => SellRequest::Nothing,
    }
}

impl<E> SellRun<E> {
    /// What holds of every cycle of a rebalancer.
    pub open spec fn wf(&self, rebalancer: &Rebalancer) -> bool {
        sell_wf(rebalancer@, self@)
    }

    /// The pending request.
    pub fn request(&self) -> (request: SellRequest)
        requires
            !(self@.phase is Done) ==> self@.at < self@.mints.len(),
        ensures
            request == sell_request(self@),
    {
        match &self.phase {
            SellPhase::Valuing => SellRequest::Value(self.mints[self.at]),
            SellPhase::Sizing(value) => SellRequest::Amount {
                mint: self.mints[self.at],
                value: *value,
            },
            SellPhase::Swapping(swap) => SellRequest::Swap(*swap),
            SellPhase::Done(_) => SellRequest::Nothing,
        }
    }

    /// What came of the cycle; `None` while a request is pending.
    pub fn into_result(self) -> (r: Option<Result<(), E>>)
        ensures
            r == match self@.phase {
                SellPhase::Done(result) => Some(result),
                _ => None,
            },
    {
        match self.phase {
            SellPhase::Done(result) => Some(result),
            _ => None,
        }
    }
}

impl Rebalancer {
    fn move_to<E>(&self, mints: Vec<Pubkey>, from: usize, now: Instant) -> (r: SellRun<E>)
        requires
            self.wf(),
            from <= mints@.len(),
        ensures
            r@ == moved_to::<E>(self@, mints@, from as nat, now),
            r.wf(self),
    {
        let mut at: usize = from;
        while at < mints.len() && self.passes_over(&mints[at], now)
            invariant
                self.wf(),
                from <= at <= mints@.len(),
                next_place(self@, mints@, from as nat, now) == next_place(
                    self@,
                    mints@,
                    at as nat,
                    now,
                ),
            decreases mints@.len() - at,
        {
            at += 1;
        }
        let phase = if at < mints.len() {
            SellPhase::Valuing
        } else {
            SellPhase::Done(Ok(()))
        };
        SellRun { mints, at, phase }
    }

    /// Starts a cycle through the tokens.
    pub fn run<E>(&self, mints: Vec<Pubkey>, now: Instant) -> (r: SellRun<E>)
        requires
            self.wf(),
        ensures
            r@ == moved_to::<E>(self@, mints@, 0, now),
            r.wf(self),
    {
        self.move_to(mints, 0, now)
    }

    /// Whether the numbers that an event brings can be computed with.
    pub fn can_take<E>(&self, r: &SellRun<E>, event: &SellEvent<E>) -> (ok: bool)
        requires
            self.wf(),
            r.wf(self),
        ensures
            ok == computable(self@, r@, *event),
    {
        match (&r.phase, event) {
            (SellPhase::Valuing, SellEvent::Value(value)) => {
                let max = self.max_value(&r.mints[r.at]);
                !value.exceeds(max) || value.bits.checked_sub(max.half().bits).is_some()
            },
            (SellPhase::Sizing(_), SellEvent::Amount(amount)) => amount.is_u64(),
            _ => true,
        }
    }

    /// Takes an event in.
    pub fn step<E>(&mut self, r: SellRun<E>, event: SellEvent<E>, now: Instant) -> (next: SellRun<
        E,
    >)
        requires
            old(self).wf(),
            r.wf(old(self)),
            computable(old(self)@, r@, event),
            can_add(now, secs(ROUTE_BACKOFF_MAX_SECS as nat)),
        ensures
            final(self).wf(),
            final(self)@ == rebalancer_after(old(self)@, r@, event, now),
            next@ == sell_after(old(self)@, r@, event, now),
            next.wf(final(self)),
    {
        let SellRun { mints, at, phase } = r;
        assert(mints@.len() == mints.len());
        match (phase, event) {
            (SellPhase::Valuing, SellEvent::UnknownToken(e)) => SellRun {
                mints,
                at,
                phase: SellPhase::Done(Err(e)),
            },
            (SellPhase::Valuing, SellEvent::NoPrice(message)) => {
                if contains(message.as_str(), EMPTY_STAKE_POOL) {
                    self.empty_stake_banks.insert(mints[at]);
                }
                self.move_to(mints, at + 1, now)
            },
            (SellPhase::Valuing, SellEvent::NoValue(e)) => SellRun {
                mints,
                at,
                phase: SellPhase::Done(Err(e)),
            },
            (SellPhase::Valuing, SellEvent::Value(value)) => {
                let max = self.max_value(&mints[at]);
                if value.exceeds(max) {
                    let phase = SellPhase::Sizing(value.minus(max.half()));
                    SellRun { mints, at, phase }
                } else {
                    self.move_to(mints, at + 1, now)
                }
            },
            (SellPhase::Sizing(_), SellEvent::NoAmount(e)) => SellRun {
                mints,
                at,
                phase: SellPhase::Done(Err(e)),
            },
            (SellPhase::Sizing(_), SellEvent::Amount(amount)) => {
                match Swap::new(amount.to_u64(), mints[at], self.swap_mint) {
                    Ok(swap) => SellRun { mints, at, phase: SellPhase::Swapping(swap) },
                    Err(_) => self.move_to(mints, at + 1, now),
                }
            },
            (SellPhase::Swapping(_), SellEvent::Swapped) => {
                self.route_backoff.remove(&mints[at]);
                self.move_to(mints, at + 1, now)
            },
            (SellPhase::Swapping(_), SellEvent::SwapFailed(message)) => {
                if contains(message.as_str(), NO_AGGREGATORS) {
                    self.note_no_route(mints[at], now);
                }
                self.move_to(mints, at + 1, now)
            },
            (phase, _) => SellRun { mints, at, phase },
        }
    }
}

// ── Laws ─────────────────────────────────────────────────────────────────────

/// The token of the reserve is never sold, and every sale is into it.
pub proof fn law_the_reserve_is_never_sold<E>(x: RebalancerState, r: SellState<E>, swap: Swap)
    requires
        sell_wf(x, r),
        sell_request(r) == SellRequest::Swap(swap),
    ensures
        swap.input_mint != x.swap_mint,
        swap.output_mint == x.swap_mint,
        swap.amount > 0,
{
}

/// A token is sold only where its value exceeds its threshold, and then down to half of it,
/// which does not exceed it.
pub proof fn law_a_sale_brings_the_value_below_the_threshold<E>(
    x: RebalancerState,
    r: SellState<E>,
    value: I80F48,
    now: Instant,
    sold: I80F48,
)
    requires
        r.phase is Valuing,
        computable(x, r, SellEvent::Value(value)),
        sell_after(x, r, SellEvent::Value(value), now).phase == SellPhase::<E>::Sizing(sold),
    ensures
        value.bits > max_value_of(x, r.mints[r.at as int]).bits,
        value.bits - sold.bits == half_bits(max_value_of(x, r.mints[r.at as int])),
        max_value_of(x, r.mints[r.at as int]).bits >= 0 ==> value.bits - sold.bits
            <= max_value_of(x, r.mints[r.at as int]).bits && sold.bits > 0,
{
}

/// A token whose value does not exceed its threshold is left as it is.
pub proof fn law_tokens_below_the_threshold_are_kept<E>(
    x: RebalancerState,
    r: SellState<E>,
    value: I80F48,
    now: Instant,
)
    requires
        r.phase is Valuing,
        value.bits <= max_value_of(x, r.mints[r.at as int]).bits,
    ensures
        sell_after(x, r, SellEvent::Value(value), now) == moved_to::<E>(
            x,
            r.mints,
            r.at + 1,
            now,
        ),
        rebalancer_after(x, r, SellEvent::<E>::Value(value), now) == x,
{
}

/// A token for which no route was found is passed over until its wait is over, which grows with
/// each failure in a row.
pub proof fn law_no_route_backs_off_the_token(
    x: RebalancerState,
    mint: Pubkey,
    now: Instant,
    later: Instant,
)
    requires
        can_add(now, secs(ROUTE_BACKOFF_MAX_SECS as nat)),
        mint != x.swap_mint,
        !x.empty_stake_banks.contains(mint),
        route_failures(x, mint) < u32::MAX,
    ensures
        route_failures(with_no_route(x, mint, now), mint) == route_failures(x, mint) + 1,
        passed_over(with_no_route(x, mint, now), mint, later) <==> later.nanos < now.nanos + secs(
            route_backoff_secs((route_failures(x, mint) + 1) as nat),
        ),
{
}

/// A token that was sold is not backed off any more.
pub proof fn law_a_sale_clears_the_backoff<E>(
    x: RebalancerState,
    r: SellState<E>,
    now: Instant,
)
    requires
        r.phase is Swapping,
    ensures
        route_failures(
            rebalancer_after(x, r, SellEvent::<E>::Swapped, now),
            r.mints[r.at as int],
        ) == 0,
{
}

/// A token whose stake bank was found empty is passed over from then on.
pub proof fn law_empty_stake_banks_are_passed_over<E>(
    x: RebalancerState,
    r: SellState<E>,
    message: String,
    now: Instant,
    later: Instant,
)
    requires
        r.phase is Valuing,
        contains_text(message@, EMPTY_STAKE_POOL@),
    ensures
        passed_over(
            rebalancer_after(x, r, SellEvent::<E>::NoPrice(message), now),
            r.mints[r.at as int],
            later,
        ),
{
}

/// The first token from a place on that is not passed over: all before it are, and it is not.
pub proof fn lemma_next_place(x: RebalancerState, mints: Seq<Pubkey>, from: nat, now: Instant)
    requires
        from <= mints.len(),
    ensures
        from <= next_place(x, mints, from, now) <= mints.len(),
        forall|i: int|
            from <= i < next_place(x, mints, from, now) ==> passed_over(x, #[trigger] mints[i], now),
        next_place(x, mints, from, now) < mints.len() ==> !passed_over(
            x,
            mints[next_place(x, mints, from, now) as int],
            now,
        ),
    decreases mints.len() - from,
{
    if from < mints.len() && passed_over(x, mints[from as int], now) {
        lemma_next_place(x, mints, from + 1, now);
    }
}

/// A cycle takes each token once and in order, and passes over only those that are to be passed
/// over.
pub proof fn law_a_cycle_goes_through_the_tokens<E>(
    x: RebalancerState,
    r: SellState<E>,
    event: SellEvent<E>,
    now: Instant,
)
    requires
        sell_wf(x, r),
    ensures
        ({
            let after = rebalancer_after(x, r, event, now);
            let next = sell_after(x, r, event, now);
            &&& next.mints == r.mints
            &&& next.at == r.at || r.at < next.at <= r.mints.len()
            &&& forall|i: int|
                r.at < i < next.at ==> passed_over(after, #[trigger] r.mints[i], now)
            &&& next.at > r.at && next.phase is Valuing ==> !passed_over(
                after,
                r.mints[next.at as int],
                now,
            )
        }),
{
    if r.at < r.mints.len() {
        lemma_next_place(rebalancer_after(x, r, event, now), r.mints, r.at + 1, now);
    }
}

/// A token is passed over for one of three reasons and no other: it is the reserve's, its stake
/// bank was found empty, or it waits for a route.
pub proof fn law_tokens_are_passed_over_for_a_reason(
    x: RebalancerState,
    mint: Pubkey,
    now: Instant,
)
    ensures
        passed_over(x, mint, now) <==> {
            ||| mint == x.swap_mint
            ||| x.empty_stake_banks.contains(mint)
            ||| x.route_backoff.contains_key(mint) && x.route_backoff[mint].retry_after.nanos
                > now.nanos
        },
{
}

/// The cycle stands at the first token behind a place that is not passed over, whose value it asks
/// for; where there is none, it is over.
pub open spec fn goes_on<E>(
    x: RebalancerState,
    mints: Seq<Pubkey>,
    behind: int,
    now: Instant,
    next: SellState<E>,
) -> bool {
    &&& next.mints == mints
    &&& behind < next.at
    &&& forall|i: int|
        behind < i < next.at && i < mints.len() ==> passed_over(x, #[trigger] mints[i], now)
    &&& if next.at < mints.len() {
        &&& next.phase is Valuing
        &&& !passed_over(x, mints[next.at as int], now)
        &&& sell_request(next) matches SellRequest::Value(mint) && mint == mints[next.at as int]
    } else {
        next.phase == SellPhase::<E>::Done(Ok(()))
    }
}

/// A cycle starts at the first token that is not passed over.
pub proof fn law_a_cycle_starts_at_the_first_token<E>(
    x: RebalancerState,
    mints: Seq<Pubkey>,
    now: Instant,
)
    ensures
        goes_on(x, mints, -1, now, moved_to::<E>(x, mints, 0, now)),
{
    lemma_next_place(x, mints, 0, now);
}

/// Whatever comes of a token, the cycle goes on to the next one: whether it was sold, could not be
/// sold, could not be priced, is not worth selling, or is worth less than its threshold. Only an
/// error of the caller's ends it early.
pub proof fn law_a_cycle_goes_on_after_a_token<E>(
    x: RebalancerState,
    r: SellState<E>,
    event: SellEvent<E>,
    now: Instant,
)
    requires
        sell_wf(x, r),
        match (r.phase, event) {
            (SellPhase::Valuing, SellEvent::NoPrice(_)) => true,
            (SellPhase::Valuing, SellEvent::Value(value)) => value.bits <= (
            if x.max_values.contains_key(r.mints[r.at as int]) {
                x.max_values[r.mints[r.at as int]].bits
            } else {
                x.default_max.bits
            }),
            (SellPhase::Sizing(_), SellEvent::Amount(amount)) => 0 <= amount.bits < ONE_BITS,
            (SellPhase::Swapping(_), SellEvent::Swapped) => true,
            (SellPhase::Swapping(_), SellEvent::SwapFailed(_)) => true,
            _ => false,
        },
    ensures
        goes_on(
            rebalancer_after(x, r, event, now),
            r.mints,
            r.at as int,
            now,
            sell_after(x, r, event, now),
        ),
{
    lemma_next_place(rebalancer_after(x, r, event, now), r.mints, r.at + 1, now);
}

/// A cycle ends well only when every token behind the current one is passed over.
pub proof fn law_a_cycle_ends_well_only_at_the_last_token<E>(
    x: RebalancerState,
    r: SellState<E>,
    event: SellEvent<E>,
    now: Instant,
    i: int,
)
    requires
        sell_wf(x, r),
        !(r.phase is Done),
        sell_after(x, r, event, now).phase matches SellPhase::Done(Ok(_)),
        r.at < i < r.mints.len(),
    ensures
        passed_over(rebalancer_after(x, r, event, now), r.mints[i], now),
{
    lemma_next_place(rebalancer_after(x, r, event, now), r.mints, r.at + 1, now);
}

/// An error of the caller's ends the cycle with that error, and nothing else does.
pub proof fn law_errors_end_a_cycle<E>(
    x: RebalancerState,
    r: SellState<E>,
    event: SellEvent<E>,
    now: Instant,
    error: E,
)
    requires
        !(r.phase is Done),
    ensures
        sell_after(x, r, event, now).phase == SellPhase::<E>::Done(Err(error)) <==> {
            ||| r.phase is Valuing && event == SellEvent::UnknownToken(error)
            ||| r.phase is Valuing && event == SellEvent::NoValue(error)
            ||| r.phase is Sizing && event == SellEvent::NoAmount(error)
        },
{
}

/// What is held of a token above its own threshold, or above that for all where it has none, is
/// sold down to half of the threshold: the amount is asked for that is worth the rest.
pub proof fn law_every_excess_is_sold<E>(
    x: RebalancerState,
    r: SellState<E>,
    value: I80F48,
    max: I80F48,
    now: Instant,
)
    requires
        r.phase is Valuing,
        max == if x.max_values.contains_key(r.mints[r.at as int]) {
            x.max_values[r.mints[r.at as int]]
        } else {
            x.default_max
        },
        value.bits > max.bits,
        value.bits - half_bits(max) <= i128::MAX,
    ensures
        ({
            let next = sell_after(x, r, SellEvent::Value(value), now);
            &&& next.mints == r.mints
            &&& next.at == r.at
            &&& next.phase matches SellPhase::Sizing(sold) && if max.bits >= 0 {
                0 < sold.bits && 2 * (value.bits - sold.bits) <= max.bits < 2 * (value.bits
                    - sold.bits) + 2
            } else {
                2 * (value.bits - sold.bits) - 2 < max.bits <= 2 * (value.bits - sold.bits)
            }
            &&& sell_request(next) matches SellRequest::Amount { mint, value: sold } && mint
                == r.mints[r.at as int] && next.phase == SellPhase::<E>::Sizing(sold)
            &&& rebalancer_after(x, r, SellEvent::<E>::Value(value), now) == x
        }),
{
    law_a_half_is_half(max);
}

/// Of the amount, the whole units are swapped into the reserve's token.
pub proof fn law_whole_units_are_swapped<E>(
    x: RebalancerState,
    r: SellState<E>,
    amount: I80F48,
    now: Instant,
)
    requires
        sell_wf(x, r),
        r.phase is Sizing,
        fits_u64(amount),
        amount.bits >= ONE_BITS,
    ensures
        ({
            let next = sell_after(x, r, SellEvent::Amount(amount), now);
            &&& next.mints == r.mints
            &&& next.at == r.at
            &&& sell_request(next) matches SellRequest::Swap(swap) && {
                &&& swap.amount * ONE_BITS <= amount.bits < (swap.amount + 1) * ONE_BITS
                &&& swap.input_mint == r.mints[r.at as int]
                &&& swap.output_mint == x.swap_mint
            }
        }),
{
    law_the_whole_part_is_cut_off(amount);
}

/// A swap needs two tokens and an amount, and then is what was asked for.
pub proof fn law_a_swap_is_what_was_asked_for(
    amount: u64,
    input_mint: Pubkey,
    output_mint: Pubkey,
)
    ensures
        match swap_of(amount, input_mint, output_mint) {
            Ok(swap) => input_mint != output_mint && amount > 0 && swap.amount == amount
                && swap.input_mint == input_mint && swap.output_mint == output_mint,
            Err(SwapError::SameMint(mint)) => input_mint == output_mint && mint == input_mint,
            Err(SwapError::ZeroAmount(mint)) => input_mint != output_mint && amount == 0 && mint
                == input_mint,
        },
{
}

/// The records change by three events only, and only for the current token: an empty stake bank
/// is remembered, a missing route is counted and makes the token wait, and a sale ends that wait.
pub proof fn law_only_the_current_token_is_recorded<E>(
    x: RebalancerState,
    r: SellState<E>,
    event: SellEvent<E>,
    now: Instant,
    other: Pubkey,
)
    requires
        can_add(now, secs(ROUTE_BACKOFF_MAX_SECS as nat)),
    ensures
        ({
            let after = rebalancer_after(x, r, event, now);
            let mint = r.mints[r.at as int];
            let old_failures: nat = if x.route_backoff.contains_key(mint) {
                x.route_backoff[mint].failures as nat
            } else {
                0
            };
            &&& after.swap_mint == x.swap_mint
            &&& after.default_max == x.default_max
            &&& after.max_values == x.max_values
            &&& other != mint ==> after.empty_stake_banks.contains(other)
                == x.empty_stake_banks.contains(other) && after.route_backoff.get(other)
                == x.route_backoff.get(other)
            &&& after.empty_stake_banks.contains(mint) <==> x.empty_stake_banks.contains(mint) || (
            r.phase is Valuing && (event matches SellEvent::NoPrice(message) && contains_text(
                message@,
                "Stake pool supply is zero"@,
            )))
            &&& match event {
                SellEvent::Swapped if r.phase is Swapping => !after.route_backoff.contains_key(
                    mint,
                ),
                SellEvent::SwapFailed(message) if r.phase is Swapping && contains_text(
                    message@,
                    "No aggregators available"@,
                ) => {
                    &&& after.route_backoff.contains_key(mint)
                    &&& after.route_backoff[mint].failures == if old_failures < u32::MAX {
                        old_failures + 1
                    } else {
                        u32::MAX as nat
                    }
                    &&& after.route_backoff[mint].retry_after.nanos == now.nanos
                        + route_backoff_secs(after.route_backoff[mint].failures as nat)
                        * NANOS_PER_SEC
                },
                _ => after.route_backoff.get(mint) == x.route_backoff.get(mint),
            }
        }),
{
    law_backoff_grows_to_its_cap(
        ROUTE_BACKOFF_BASE_SECS as nat,
        ROUTE_BACKOFF_MAX_SECS as nat,
        rebalancer_after(x, r, event, now).route_backoff[r.mints[r.at as int]].failures as nat,
        rebalancer_after(x, r, event, now).route_backoff[r.mints[r.at as int]].failures as nat,
    );
}

/// The wait for a route is a minute after the first failure, and each further failure doubles it,
/// up to an hour.
pub proof fn law_route_waits_double(failures: nat)
    requires
        failures >= 1,
    ensures
        route_backoff_secs(1) == 60,
        route_backoff_secs(failures + 1) == if 2 * route_backoff_secs(failures) <= 3600 {
            2 * route_backoff_secs(failures)
        } else {
            3600
        },
{
    law_backoff_doubles_or_is_capped(60, 3600, failures);
}

/// What was not asked for does not change a cycle, and one that is over stays so.
pub proof fn law_only_answers_change_a_cycle<E>(
    x: RebalancerState,
    r: SellState<E>,
    event: SellEvent<E>,
    now: Instant,
)
    requires
        match r.phase {
            SellPhase::Valuing => event is NoAmount || event is Amount || event is Swapped
                || event is SwapFailed,
            SellPhase::Sizing(_) => !(event is NoAmount || event is Amount),
            SellPhase::Swapping(_) => !(event is Swapped || event is SwapFailed),
            SellPhase::Done(_) => true,
        },
    ensures
        sell_after(x, r, event, now) == r,
        rebalancer_after(x, r, event, now) == x,
{
}

/// Cycles start and go on as the states of this module say.
pub proof fn law_cycles_follow_their_states<E>(
    x: &mut Rebalancer,
    kept: &Rebalancer,
    mints: Vec<Pubkey>,
    start: SellRun<E>,
    r: SellRun<E>,
    event: SellEvent<E>,
    now: Instant,
    next: SellRun<E>,
    request: SellRequest,
)
    requires
        call_ensures(Rebalancer::run::<E>, (kept, mints, now), start),
        call_ensures(Rebalancer::step::<E>, (x, r, event, now), next),
        call_ensures(SellRun::<E>::request, (&r,), request),
    ensures
        start@ == moved_to::<E>(kept@, mints@, 0, now),
        next@ == sell_after(old(x)@, r@, event, now),
        final(x)@ == rebalancer_after(old(x)@, r@, event, now),
        request == sell_request(r@),
{
}

/// What fits can be computed with: the part above half of the threshold, where there is an excess,
/// and an amount of whole units that fit in 64 bits.
pub proof fn law_what_fits_can_be_taken<E>(
    x: &Rebalancer,
    r: &SellRun<E>,
    event: &SellEvent<E>,
    ok: bool,
)
    requires
        call_ensures(Rebalancer::can_take::<E>, (x, r, event), ok),
    ensures
        ok <==> match (r@.phase, *event) {
            (SellPhase::Valuing, SellEvent::Value(value)) => {
                let max = max_value_of(x@, r@.mints[r@.at as int]);
                value.bits > max.bits ==> i128::MIN <= value.bits - half_bits(max) <= i128::MAX
            },
            (SellPhase::Sizing(_), SellEvent::Amount(amount)) => 0 <= amount.bits < (u64::MAX + 1)
                * ONE_BITS,
            _ => true,
        },
{
    if let SellEvent::Amount(amount) = *event {
        if amount.bits >= 0 {
            law_the_whole_part_is_cut_off(amount);
        }
    }
}

/// A new rebalancer has the thresholds that it is given and remembers nothing.
pub proof fn law_a_new_rebalancer_remembers_nothing(
    swap_mint: Pubkey,
    default_max: I80F48,
    thresholds: KeyMap<I80F48>,
    r: Rebalancer,
    mint: Pubkey,
    now: Instant,
)
    requires
        call_ensures(Rebalancer::new, (swap_mint, default_max, thresholds), r),
    ensures
        passed_over(r@, mint, now) <==> mint == swap_mint,
        max_value_of(r@, mint) == match thresholds@.get(mint) {
            Some(max) => max,
            None => default_max,
        },
        r@.swap_mint == swap_mint,
{
}

/// The wait that is computed is the one that is meant.
pub proof fn law_the_computed_wait_is_the_wait(failures: u32, d: Duration)
    requires
        call_ensures(backoff_delay, (failures,), d),
    ensures
        d.nanos == route_backoff_secs(failures as nat) * NANOS_PER_SEC,
        failures <= 1 ==> d.nanos == 60 * NANOS_PER_SEC,
{
    law_backoff_doubles_or_is_capped(60, 3600, 1);
}

/// Whatever comes in, a cycle stays one through its tokens, and the thresholds and the token of the
/// reserve stay as they are.
pub proof fn law_a_cycle_keeps_its_tokens_and_thresholds<E>(
    x: &mut Rebalancer,
    r: SellRun<E>,
    event: SellEvent<E>,
    now: Instant,
    next: SellRun<E>,
)
    requires
        call_ensures(Rebalancer::step::<E>, (x, r, event, now), next),
    ensures
        next@.mints == r@.mints,
        final(x)@.swap_mint == old(x)@.swap_mint,
        final(x)@.default_max == old(x)@.default_max,
        final(x)@.max_values == old(x)@.max_values,
{
}

}
