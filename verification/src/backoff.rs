//! Backoff policy and the supervised-task step.
//!
//! A backoff policy is a pure map from a consecutive-failure count to a wait
//! in milliseconds, with a linear and an exponential strategy. The supervised
//! task step decides, after each run of a repeating unit of work, how long to
//! wait and how the failure streak advances.

use vstd::prelude::*;
use vstd::arithmetic::mul::lemma_mul_upper_bound;
use vstd::arithmetic::mul::lemma_mul_inequality;

verus! {

/// Strategy for spacing out retries of a failing task.
///
/// All durations are in milliseconds. `max_stacks` caps how many failures
/// count: beyond it the wait stays constant.
#[derive(Debug, Clone)]
pub enum BackoffStrategy {
    Exponential { start_ms: u64, increment_ms: u64, power: u32, max_stacks: u64 },
    Linear { start_ms: u64, increment_ms: u64, max_stacks: u64 },
}

/// `min(x, u64::MAX)`: the value a saturating computation produces.
pub open spec fn cap_u64(x: int) -> int {
    if x > u64::MAX {
        u64::MAX as int
    } else {
        x
    }
}

/// `base^exp` over mathematical integers.
pub open spec fn pow_int(base: int, exp: nat) -> int
    decreases exp,
{
    if exp == 0 {
        1
    } else {
        base * pow_int(base, (exp - 1) as nat)
    }
}

/// The wait, in milliseconds, that a strategy prescribes after `failures`
/// consecutive failures. Every arithmetic step saturates at `u64::MAX`.
pub open spec fn backoff_wait(strategy: BackoffStrategy, failures: int) -> int {
    match strategy {
        BackoffStrategy::Linear { start_ms, increment_ms, max_stacks } => {
            let stacks = vstd::math::min(failures, max_stacks as int);
            cap_u64(start_ms + cap_u64(increment_ms * stacks))
        },
        BackoffStrategy::Exponential { start_ms, increment_ms, power, max_stacks } => {
            let stacks = vstd::math::min(failures, max_stacks as int);
            cap_u64(start_ms + cap_u64(increment_ms * cap_u64(pow_int(stacks, power as nat))))
        },
    }
}

/// Saturating multiply: `min(a * b, u64::MAX)`.
fn sat_mul(a: u64, b: u64) -> (r: u64)
    ensures
        r == cap_u64(a * b),
{
    proof {
        lemma_mul_upper_bound(a as int, u64::MAX as int, b as int, u64::MAX as int);
    }
    let wide: u128 = (a as u128) * (b as u128);
    if wide > u64::MAX as u128 {
        u64::MAX
    } else {
        wide as u64
    }
}

/// Saturating add: `min(a + b, u64::MAX)`.
fn sat_add(a: u64, b: u64) -> (r: u64)
    ensures
        r == cap_u64(a + b),
{
    if a > u64::MAX - b {
        u64::MAX
    } else {
        a + b
    }
}

/// Saturating power: `min(base^exp, u64::MAX)`.
fn sat_pow(base: u64, exp: u32) -> (r: u64)
    ensures
        r == cap_u64(pow_int(base as int, exp as nat)),
{
    let mut r: u64 = 1;
    let mut i: u32 = 0;
    while i < exp
        invariant
            i <= exp,
            r == cap_u64(pow_int(base as int, i as nat)),
        decreases exp - i,
    {
        let ghost p_i = pow_int(base as int, i as nat);
        let next = sat_mul(r, base);
        proof {
            lemma_pow_int_nonneg(base as int, i as nat);
            assert(pow_int(base as int, (i + 1) as nat) == pow_int(base as int, i as nat) * base
                as int) by {
                lemma_pow_int_step(base as int, (i + 1) as nat);
            }
            if p_i > u64::MAX {
                // r is saturated; the capped results coincide whatever `base` is.
                if base == 0 {
                    assert(p_i * base == 0) by (nonlinear_arith)
                        requires
                            base == 0,
                    ;
                } else {
                    assert(p_i * base >= p_i) by (nonlinear_arith)
                        requires
                            base >= 1,
                            p_i >= 0,
                    ;
                    assert(u64::MAX as int * base as int >= u64::MAX) by (nonlinear_arith)
                        requires
                            base >= 1,
                    ;
                }
            }
        }
        r = next;
        i = i + 1;
    }
    r
}

proof fn lemma_pow_int_nonneg(base: int, exp: nat)
    requires
        base >= 0,
    ensures
        pow_int(base, exp) >= 0,
    decreases exp,
{
    if exp > 0 {
        lemma_pow_int_nonneg(base, (exp - 1) as nat);
        lemma_mul_inequality(0, base, pow_int(base, (exp - 1) as nat));
        assert(base * pow_int(base, (exp - 1) as nat) >= 0) by (nonlinear_arith)
            requires
                base >= 0,
                pow_int(base, (exp - 1) as nat) >= 0,
        ;
    }
}

proof fn lemma_pow_int_step(base: int, exp: nat)
    requires
        exp >= 1,
    ensures
        pow_int(base, exp) == pow_int(base, (exp - 1) as nat) * base,
{
    assert(base * pow_int(base, (exp - 1) as nat) == pow_int(base, (exp - 1) as nat) * base)
        by (nonlinear_arith);
}

/// Raising both bases to the same power keeps their order.
proof fn lemma_pow_int_base_monotonic(b1: int, b2: int, exp: nat)
    requires
        0 <= b1 <= b2,
    ensures
        pow_int(b1, exp) <= pow_int(b2, exp),
    decreases exp,
{
    if exp > 0 {
        lemma_pow_int_base_monotonic(b1, b2, (exp - 1) as nat);
        lemma_pow_int_nonneg(b1, (exp - 1) as nat);
        assert(b1 * pow_int(b1, (exp - 1) as nat) <= b2 * pow_int(b2, (exp - 1) as nat))
            by (nonlinear_arith)
            requires
                0 <= b1 <= b2,
                0 <= pow_int(b1, (exp - 1) as nat) <= pow_int(b2, (exp - 1) as nat),
        ;
    }
}

impl BackoffStrategy {
    /// The wait before the next retry after `failures` consecutive failures.
    pub fn next_backoff(&self, failures: u64) -> (wait_ms: u64)
        ensures
            wait_ms == backoff_wait(*self, failures as int),
    {
        match *self {
            BackoffStrategy::Linear { start_ms, increment_ms, max_stacks } => {
                let stacks = if failures < max_stacks {
                    failures
                } else {
                    max_stacks
                };
                sat_add(start_ms, sat_mul(increment_ms, stacks))
            },
            BackoffStrategy::Exponential { start_ms, increment_ms, power, max_stacks } => {
                let stacks = if failures < max_stacks {
                    failures
                } else {
                    max_stacks
                };
                sat_add(start_ms, sat_mul(increment_ms, sat_pow(stacks, power)))
            },
        }
    }
}

/// Waits never shrink as the failure streak grows, and stay constant once the
/// streak reaches `max_stacks`.
pub proof fn lemma_backoff_monotonic(strategy: BackoffStrategy, n: int)
    requires
        n >= 0,
    ensures
        backoff_wait(strategy, n + 1) >= backoff_wait(strategy, n),
        (match strategy {
            BackoffStrategy::Linear { max_stacks, .. } => n >= max_stacks ==> backoff_wait(
                strategy,
                n,
            ) == backoff_wait(strategy, max_stacks as int),
            BackoffStrategy::Exponential { max_stacks, .. } => n >= max_stacks ==> backoff_wait(
                strategy,
                n,
            ) == backoff_wait(strategy, max_stacks as int),
        }),
{
    match strategy {
        BackoffStrategy::Linear { start_ms, increment_ms, max_stacks } => {
            let s1 = vstd::math::min(n, max_stacks as int);
            let s2 = vstd::math::min(n + 1, max_stacks as int);
            lemma_mul_inequality(s1, s2, increment_ms as int);
            assert(increment_ms * s1 == s1 * increment_ms) by (nonlinear_arith);
            assert(increment_ms * s2 == s2 * increment_ms) by (nonlinear_arith);
        },
        BackoffStrategy::Exponential { start_ms, increment_ms, power, max_stacks } => {
            let s1 = vstd::math::min(n, max_stacks as int);
            let s2 = vstd::math::min(n + 1, max_stacks as int);
            lemma_pow_int_base_monotonic(s1, s2, power as nat);
            lemma_pow_int_nonneg(s1, power as nat);
            let p1 = cap_u64(pow_int(s1, power as nat));
            let p2 = cap_u64(pow_int(s2, power as nat));
            lemma_mul_inequality(p1, p2, increment_ms as int);
            assert(increment_ms * p1 == p1 * increment_ms) by (nonlinear_arith);
            assert(increment_ms * p2 == p2 * increment_ms) by (nonlinear_arith);
        },
    }
}

/// Settings for one supervised task: the idle wait after a successful run,
/// and the backoff policy applied to failures.
#[derive(Debug, Clone)]
pub struct TaskSettings {
    pub sleep_time_ms: u64,
    pub backoff_strategy: BackoffStrategy,
}

impl Default for BackoffStrategy {
    /// Five seconds, plus five more per failure, capped at ten failures.
    fn default() -> (r: Self)
        ensures
            r == (BackoffStrategy::Linear { start_ms: 5000, increment_ms: 5000, max_stacks: 10 }),
    {
        BackoffStrategy::Linear { start_ms: 5000, increment_ms: 5000, max_stacks: 10 }
    }
}

impl Default for TaskSettings {
    /// One minute of idle wait between successful runs.
    fn default() -> (r: Self)
        ensures
            r == (TaskSettings {
                sleep_time_ms: 60_000,
                backoff_strategy: BackoffStrategy::Linear {
                    start_ms: 5000,
                    increment_ms: 5000,
                    max_stacks: 10,
                },
            }),
    {
        TaskSettings { sleep_time_ms: 60_000, backoff_strategy: BackoffStrategy::default() }
    }
}

/// The failure streak of one supervised task.
#[derive(Debug, Clone)]
pub struct SupervisorState {
    pub consecutive_failures: u64,
}

impl SupervisorState {
    pub fn new() -> (r: Self)
        ensures
            r.consecutive_failures == 0,
    {
        SupervisorState { consecutive_failures: 0 }
    }
}

/// One scheduling decision of the supervised task runner.
///
/// After a successful run the failure streak resets and the task idles for
/// `sleep_time_ms`. After a failure the task waits what the backoff policy
/// prescribes for the streak so far — not the idle delay — and the streak
/// grows by one.
pub fn supervisor_step(state: &mut SupervisorState, settings: &TaskSettings, succeeded: bool) -> (wait_ms: u64)
    ensures
        succeeded ==> final(state).consecutive_failures == 0 && wait_ms == settings.sleep_time_ms,
        !succeeded ==> wait_ms == backoff_wait(
            settings.backoff_strategy,
            old(state).consecutive_failures as int,
        ) && final(state).consecutive_failures == cap_u64(old(state).consecutive_failures + 1),
{
    if succeeded {
        state.consecutive_failures = 0;
        settings.sleep_time_ms
    } else {
        let wait = settings.backoff_strategy.next_backoff(state.consecutive_failures);
        if state.consecutive_failures < u64::MAX {
            state.consecutive_failures = state.consecutive_failures + 1;
        }
        wait
    }
}

} // verus!
