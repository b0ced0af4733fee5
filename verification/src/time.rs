//! Points in time and spans between them.
//!
//! A point in time is counted from an origin that the caller fixes once, such as the start of
//! the process.

use vstd::arithmetic::power2::{
    lemma2_to64, lemma_pow2_strictly_increases, lemma_pow2_unfold, pow2,
};
use vstd::bits::{lemma_u64_pow2_no_overflow, lemma_u64_shl_is_mul};
use vstd::prelude::*;

verus! {

pub const NANOS_PER_SEC: u128 = 1_000_000_000;

/// A span of time.
#[derive(Clone, Copy, Debug, PartialEq, Eq, Structural)]
pub struct Duration {
    pub nanos: u128,
}

/// A span of whole seconds.
pub open spec fn secs(n: nat) -> nat {
    n * (NANOS_PER_SEC as nat)
}

impl Duration {
    /// A span of whole seconds.
    pub fn from_secs(s: u64) -> (d: Duration)
        ensures
            d.nanos == secs(s as nat),
    {
        Duration { nanos: s as u128 * NANOS_PER_SEC }
    }

    /// The whole seconds of a span whose seconds fit in 64 bits.
    pub fn as_secs(&self) -> (s: u64)
        requires
            self.nanos / NANOS_PER_SEC <= u64::MAX,
        ensures
            s == self.nanos / NANOS_PER_SEC,
    {
        (self.nanos / NANOS_PER_SEC) as u64
    }
}

/// A point in time.
#[derive(Clone, Copy, Debug, PartialEq, Eq, Structural)]
pub struct Instant {
    pub nanos: u128,
}

/// The span from `earlier` to `later`; none where `earlier` is the later one.
pub open spec fn span_since(later: Instant, earlier: Instant) -> nat {
    if later.nanos >= earlier.nanos {
        (later.nanos - earlier.nanos) as nat
    } else {
        0
    }
}

/// The point in time can be moved by this many nanoseconds.
pub open spec fn can_add(at: Instant, nanos: nat) -> bool {
    at.nanos + nanos <= u128::MAX
}

impl Instant {
    /// Whether the point in time can be moved by a span.
    pub fn has_room_for(&self, d: Duration) -> (r: bool)
        ensures
            r == can_add(*self, d.nanos as nat),
    {
        d.nanos <= u128::MAX - self.nanos
    }

    /// The point in time that lies `d` after this one.
    pub fn plus(&self, d: Duration) -> (r: Instant)
        requires
            can_add(*self, d.nanos as nat),
        ensures
            r.nanos == self.nanos + d.nanos,
    {
        Instant { nanos: self.nanos + d.nanos }
    }

    /// Whether this point in time lies before another.
    pub fn is_before(&self, other: Instant) -> (r: bool)
        ensures
            r == (self.nanos < other.nanos),
    {
        self.nanos < other.nanos
    }

    /// The span from an earlier point in time to this one; none where that one is later.
    pub fn duration_since(&self, earlier: Instant) -> (d: Duration)
        ensures
            d.nanos == span_since(*self, earlier),
    {
        if self.nanos >= earlier.nanos {
            Duration { nanos: self.nanos - earlier.nanos }
        } else {
            Duration { nanos: 0 }
        }
    }
}

// ── Backoff ──────────────────────────────────────────────────────────────────

/// The wait after the `failures`-th failure in a row: `base * 2^(failures - 1)` seconds, capped
/// at `cap` seconds.
pub open spec fn backoff_secs(base: nat, cap: nat, failures: nat) -> nat {
    let doublings = if failures == 0 {
        0
    } else {
        (failures - 1) as nat
    };
    let uncapped = base * pow2(doublings);
    if uncapped <= cap {
        uncapped
    } else {
        cap
    }
}

/// The wait after the `failures`-th failure in a row. No more than `max_shift` doublings are
/// computed, by which the cap must have been reached.
pub fn exponential_delay(base: u64, cap: u64, failures: u32, max_shift: u32) -> (d: Duration)
    requires
        max_shift < 64,
        base * pow2(max_shift as nat) >= cap,
    ensures
        d.nanos == secs(backoff_secs(base as nat, cap as nat, failures as nat)),
{
    let doublings: u32 = failures.saturating_sub(1);
    let shift: u32 = if doublings < max_shift {
        doublings
    } else {
        max_shift
    };
    let factor: u64 = 1u64 << (shift as u64);
    proof {
        lemma_u64_pow2_no_overflow(shift as nat);
        lemma_u64_shl_is_mul(1u64, shift as u64);
        assert(factor == pow2(shift as nat));
        if shift < doublings {
            lemma_pow2_strictly_increases(shift as nat, doublings as nat);
            assert(base * pow2(shift as nat) <= base * pow2(doublings as nat)) by (nonlinear_arith)
                requires
                    pow2(shift as nat) <= pow2(doublings as nat),
            ;
        }
    }
    let uncapped: u64 = match base.checked_mul(factor) {
        Some(product) => product,
        None => u64::MAX,
    };
    Duration::from_secs(
        if uncapped < cap {
            uncapped
        } else {
            cap
        },
    )
}

/// The wait never exceeds the cap, and no failure shortens it.
pub proof fn law_backoff_grows_to_its_cap(base: nat, cap: nat, fewer: nat, more: nat)
    requires
        fewer <= more,
    ensures
        backoff_secs(base, cap, more) <= cap,
        backoff_secs(base, cap, fewer) <= backoff_secs(base, cap, more),
{
    if 1 <= fewer < more {
        lemma_pow2_strictly_increases((fewer - 1) as nat, (more - 1) as nat);
        lemma_factor_order(base, pow2((fewer - 1) as nat), pow2((more - 1) as nat));
    } else if fewer == 0 && 1 < more {
        lemma_pow2_strictly_increases(0, (more - 1) as nat);
        lemma_factor_order(base, pow2(0), pow2((more - 1) as nat));
    }
}

/// Until the cap is reached, each further failure doubles the wait.
pub proof fn law_backoff_doubles(base: nat, cap: nat, failures: nat)
    requires
        failures >= 1,
        2 * backoff_secs(base, cap, failures) <= cap,
    ensures
        backoff_secs(base, cap, failures + 1) == 2 * backoff_secs(base, cap, failures),
{
    lemma_pow2_unfold(failures);
    let before = pow2((failures - 1) as nat);
    assert(base * (2 * before) == 2 * (base * before)) by (nonlinear_arith);
}

proof fn lemma_factor_order(base: nat, a: nat, b: nat)
    requires
        a <= b,
    ensures
        base * a <= base * b,
{
    assert(base * a <= base * b) by (nonlinear_arith)
        requires
            a <= b,
    ;
}

/// The first wait is the base, and each further failure doubles the wait as far as the cap
/// permits.
pub proof fn law_backoff_doubles_or_is_capped(base: nat, cap: nat, failures: nat)
    requires
        failures >= 1,
        base <= cap,
    ensures
        backoff_secs(base, cap, 0) == base,
        backoff_secs(base, cap, 1) == base,
        backoff_secs(base, cap, failures + 1) == if 2 * backoff_secs(base, cap, failures) <= cap {
            2 * backoff_secs(base, cap, failures)
        } else {
            cap
        },
{
    lemma2_to64();
    lemma_pow2_unfold(failures);
    let before = pow2((failures - 1) as nat);
    assert(base * (2 * before) == 2 * (base * before)) by (nonlinear_arith);
    assert(base * 1 == base);
}

}
