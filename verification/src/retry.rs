//! Bounded retry with exponential backoff and full jitter.
use vstd::prelude::*;

use vstd::arithmetic::power2::pow2;

use std::time::{SystemTime, SystemTimeError};

use crate::time::Duration;

verus! {

/// How often an operation is tried, and how long to wait in between.
#[derive(Debug, Clone, Copy, PartialEq, Eq, Structural)]
pub struct RetryPolicy {
    /// Total attempts per operation (1 = no retry).
    pub attempts: u32,
    /// The longest wait before the first retry.
    pub base_delay: Duration,
    /// The longest wait before any retry.
    pub max_delay: Duration,
}

impl Default for RetryPolicy {
    fn default() -> (r: Self)
        ensures
            r.attempts == 3,
            r.base_delay.nanos() == 200_000_000,
            r.max_delay.nanos() == 5_000_000_000,
    {
        RetryPolicy {
            attempts: 3,
            base_delay: Duration::from_millis(200),
            max_delay: Duration::from_secs(5),
        }
    }
}

/// The smaller of two numbers.
pub open spec fn smaller(a: nat, b: nat) -> nat {
    if a <= b {
        a
    } else {
        b
    }
}

/// The longest wait, in nanoseconds, before retry number `attempt` (counted from 0): the base
/// delay, doubled `attempt` times, but never more than the maximum.
pub open spec fn cap_nanos(policy: RetryPolicy, attempt: nat) -> nat {
    smaller(policy.max_delay.nanos(), policy.base_delay.nanos() * pow2(attempt))
}

proof fn lemma_cap_doubles(base: nat, limit: nat, n: nat)
    ensures
        smaller(limit, base * pow2(n + 1)) == smaller(limit, 2 * smaller(limit, base * pow2(n))),
{
    vstd::arithmetic::power2::lemma_pow2_unfold(n + 1);
    assert(base * (2 * pow2(n)) == 2 * (base * pow2(n))) by (nonlinear_arith);
}

proof fn lemma_cap_stays(base: nat, limit: nat, n: nat, m: nat)
    requires
        n <= m,
        smaller(limit, base * pow2(n)) == limit || smaller(limit, base * pow2(n)) == 0,
    ensures
        smaller(limit, base * pow2(m)) == smaller(limit, base * pow2(n)),
    decreases m,
{
    if n < m {
        lemma_cap_stays(base, limit, n, (m - 1) as nat);
        lemma_cap_doubles(base, limit, (m - 1) as nat);
    }
}

/// Upper bound for the sleep before retry number `attempt` (0-based):
/// `min(max_delay, base_delay * 2^attempt)`, overflow-safe.
pub fn backoff_cap(policy: &RetryPolicy, attempt: u32) -> (r: Duration)
    ensures
        r.nanos() == cap_nanos(*policy, attempt as nat),
{
    let ghost base = policy.base_delay.nanos();
    let ghost limit = policy.max_delay.nanos();
    proof {
        vstd::arithmetic::power2::lemma2_to64();
        assert(base * pow2(0) == base) by (nonlinear_arith)
            requires
                pow2(0) == 1,
        ;
    }
    let mut cap: Duration = if policy.base_delay.is_longer_than(&policy.max_delay) {
        policy.max_delay
    } else {
        policy.base_delay
    };
    let zero: Duration = Duration::from_millis(0);
    let mut i: u32 = 0;
    while i < attempt && policy.max_delay.is_longer_than(&cap) && cap.is_longer_than(&zero)
        invariant
            i <= attempt,
            base == policy.base_delay.nanos(),
            limit == policy.max_delay.nanos(),
            zero.nanos() == 0,
            cap.nanos() == smaller(limit, base * pow2(i as nat)),
        decreases attempt - i,
    {
        proof {
            lemma_cap_doubles(base, limit, i as nat);
        }
        cap = cap.doubled_up_to(&policy.max_delay);
        i = i + 1;
    }
    proof {
        if i < attempt {
            lemma_cap_stays(base, limit, i as nat, attempt as nat);
        }
    }
    cap
}

/// A point in time of the system clock.
#[verifier::external_type_specification]
#[verifier::external_body]
pub struct ExSystemTime(SystemTime);

/// Why no span reaches from one point in time of the system clock to another.
#[verifier::external_type_specification]
#[verifier::external_body]
pub struct ExSystemTimeError(SystemTimeError);

/// std's `SystemTime::now` reads the system clock. Nothing is promised of the value.
pub assume_specification[ SystemTime::now ]() -> (r: SystemTime)
;

/// std's `SystemTime::duration_since` measures the span since an earlier point in time, and fails
/// where the other point in time is the later one. Nothing is promised of the value.
pub assume_specification[ SystemTime::duration_since ](
    this: &SystemTime,
    earlier: SystemTime,
) -> (r: Result<std::time::Duration, SystemTimeError>)
;

/// std's `Duration::subsec_nanos` gives the fractional part of a span, which is less than a
/// second.
pub assume_specification[ std::time::Duration::subsec_nanos ](this: &std::time::Duration) -> (r:
    u32)
    ensures
        r < 1_000_000_000,
;

/// The start of the Unix epoch: std's `SystemTime::UNIX_EPOCH`. Nothing is promised of the value.
#[verifier::external_body]
fn unix_epoch() -> (r: SystemTime) {
    SystemTime::UNIX_EPOCH
}

/// The number that a reading of the clock stands for, where the reading is the nanoseconds beyond
/// the last whole second since the Unix epoch, or `None` where the clock stands before the epoch:
/// these nanoseconds, or 0.
pub fn clock_number(reading: Option<u32>) -> (r: u64)
    ensures
        r == match reading {
            Some(nanos) => nanos as u64,
            None => 0,
        },
{
    match reading {
        Some(nanos) => nanos as u64,
        None => 0,
    }
}

/// The subsecond part of the system clock, in nanoseconds; 0 where the clock stands before the
/// Unix epoch. Nothing is promised of the reading itself but that it is less than a second.
fn clock_nanos() -> (r: u64)
    ensures
        r < 1_000_000_000,
{
    let reading: Option<u32> = match SystemTime::now().duration_since(unix_epoch()) {
        Ok(d) => Some(d.subsec_nanos()),
        Err(_) => None,
    };
    clock_number(reading)
}

/// How many whole milliseconds of a cap of `cap` nanoseconds count for the jitter: as many as the
/// low 64 bits say.
pub open spec fn jitter_millis(cap: nat) -> nat {
    (cap / 1_000_000) % 0x1_0000_0000_0000_0000
}

/// Whether a delay up to the cap can be picked: the milliseconds plus one fit into 64 bits.
pub open spec fn can_jitter(cap: nat) -> bool {
    jitter_millis(cap) < u64::MAX
}

/// The delay, in nanoseconds, that the subsecond part of the clock picks: the clock's number,
/// wrapped at the milliseconds of the cap, taken as milliseconds.
pub open spec fn jitter(cap: nat, clock: nat) -> nat {
    (clock % (jitter_millis(cap) + 1)) * 1_000_000
}

/// Whether a delay, in nanoseconds, is one that some state of the clock picks.
pub open spec fn is_jitter(cap: nat, delay: nat) -> bool {
    delay <= cap && exists|clock: nat|
        clock < 1_000_000_000 && delay == #[trigger] jitter(cap, clock)
}

/// The delay that the subsecond part of the clock picks.
pub fn jittered_with(cap: Duration, clock: u64) -> (r: Duration)
    requires
        can_jitter(cap.nanos()),
    ensures
        r.nanos() == jitter(cap.nanos(), clock as nat),
        r.nanos() <= cap.nanos(),
{
    let cap_ms: u64 = (cap.as_millis() % 0x1_0000_0000_0000_0000) as u64;
    let millis: u64 = clock % (cap_ms + 1);
    proof {
        assert(cap.millis() % 0x1_0000_0000_0000_0000 <= cap.millis());
        assert(millis <= cap.millis());
        assert(cap.millis() * 1_000_000 <= cap.nanos());
    }
    Duration::from_millis(millis)
}

/// Full jitter: a pseudo-random duration in `[0, cap]`. Entropy comes from the subsecond clock.
pub fn jittered(cap: Duration) -> (r: Duration)
    requires
        can_jitter(cap.nanos()),
    ensures
        is_jitter(cap.nanos(), r.nanos()),
{
    let clock: u64 = clock_nanos();
    jittered_with(cap, clock)
}

/// Whether the delay before retry number `attempt` can be picked.
pub open spec fn delay_is_defined(policy: RetryPolicy, attempt: nat) -> bool {
    can_jitter(cap_nanos(policy, attempt))
}

/// Whether the delay before retry number `attempt` can be picked.
pub fn has_delay(policy: &RetryPolicy, attempt: u32) -> (r: bool)
    ensures
        r == delay_is_defined(*policy, attempt as nat),
{
    backoff_cap(policy, attempt).as_millis() % 0x1_0000_0000_0000_0000 < u64::MAX as u128
}

/// The jittered sleep before retry number `attempt` (0-based).
pub fn backoff_delay(policy: &RetryPolicy, attempt: u32) -> (r: Duration)
    requires
        delay_is_defined(*policy, attempt as nat),
    ensures
        is_jitter(cap_nanos(*policy, attempt as nat), r.nanos()),
{
    jittered(backoff_cap(policy, attempt))
}

/// What to do after an attempt failed.
#[derive(Debug, Clone, Copy, PartialEq, Eq, Structural)]
pub enum RetryStep {
    /// Wait this long, then try again.
    RetryAfter(Duration),
    /// Hand the error on unchanged.
    GiveUp,
}

/// Whether an operation is tried again after attempt number `attempt` (counted from 0) failed:
/// the error must be transient, and attempts must be left.
pub open spec fn is_retried(policy: RetryPolicy, attempt: nat, transient: bool) -> bool {
    transient && attempt + 1 < policy.attempts
}

/// Decides what follows when attempt number `attempt` (0-based) of an operation failed. Only
/// errors classified as transient are retried, up to `policy.attempts` attempts in total, with
/// exponential backoff and full jitter in between; the final error is handed on unchanged.
pub fn with_retry(policy: &RetryPolicy, attempt: u32, transient: bool) -> (r: RetryStep)
    requires
        is_retried(*policy, attempt as nat, transient) ==> delay_is_defined(
            *policy,
            attempt as nat,
        ),
    ensures
        match r {
            RetryStep::RetryAfter(delay) => is_retried(*policy, attempt as nat, transient)
                && is_jitter(cap_nanos(*policy, attempt as nat), delay.nanos()),
            RetryStep::GiveUp => !is_retried(*policy, attempt as nat, transient),
        },
{
    if transient && policy.attempts > 0 && attempt < policy.attempts - 1 {
        RetryStep::RetryAfter(backoff_delay(policy, attempt))
    } else {
        RetryStep::GiveUp
    }
}

/// How one attempt at an operation ends.
pub enum Attempt {
    /// It succeeds.
    Success,
    /// It fails with an error that may go away.
    Transient,
    /// It fails with an error that stays.
    Definitive,
}

/// How many attempts are made from attempt number `attempt` on, where `ends` says how each of
/// them would end.
pub open spec fn attempts_made(policy: RetryPolicy, attempt: nat, ends: Seq<Attempt>) -> nat
    decreases ends.len(),
{
    if ends.len() == 0 {
        0
    } else if ends[0] is Transient && is_retried(policy, attempt, true) {
        1 + attempts_made(policy, attempt + 1, ends.skip(1))
    } else {
        1
    }
}

/// No operation is tried more often than the policy says, nor more than once where it says 0.
pub proof fn law_attempts_are_bounded(policy: RetryPolicy, ends: Seq<Attempt>)
    ensures
        attempts_made(policy, 0, ends) <= policy.attempts || attempts_made(policy, 0, ends) <= 1,
{
    lemma_attempts_left(policy, 0, ends);
}

proof fn lemma_attempts_left(policy: RetryPolicy, attempt: nat, ends: Seq<Attempt>)
    ensures
        attempts_made(policy, attempt, ends) + attempt <= policy.attempts || attempts_made(
            policy,
            attempt,
            ends,
        ) <= 1,
        attempts_made(policy, attempt, ends) <= ends.len(),
    decreases ends.len(),
{
    if ends.len() > 0 && ends[0] is Transient && is_retried(policy, attempt, true) {
        lemma_attempts_left(policy, attempt + 1, ends.skip(1));
    }
}

/// All attempts but the last end in a transient error, and the last one ends otherwise unless the
/// attempts are used up: what it ends in is what the caller gets.
pub proof fn law_only_transient_errors_are_retried(policy: RetryPolicy, ends: Seq<Attempt>)
    requires
        ends.len() >= policy.attempts,
        ends.len() > 0,
    ensures
        ({
            let n = attempts_made(policy, 0, ends) as int;
            &&& 1 <= n <= ends.len()
            &&& forall|k: int| 0 <= k < n - 1 ==> (#[trigger] ends[k]) is Transient
            &&& ends[n - 1] is Transient ==> n >= policy.attempts
        }),
{
    lemma_retried_errors(policy, 0, ends);
}

proof fn lemma_retried_errors(policy: RetryPolicy, attempt: nat, ends: Seq<Attempt>)
    requires
        attempt + ends.len() >= policy.attempts,
        ends.len() > 0,
    ensures
        ({
            let n = attempts_made(policy, attempt, ends) as int;
            &&& 1 <= n <= ends.len()
            &&& forall|k: int| 0 <= k < n - 1 ==> (#[trigger] ends[k]) is Transient
            &&& ends[n - 1] is Transient ==> attempt + n >= policy.attempts
        }),
    decreases ends.len(),
{
    if ends[0] is Transient && is_retried(policy, attempt, true) {
        let rest = ends.skip(1);
        lemma_retried_errors(policy, attempt + 1, rest);
        let n = attempts_made(policy, attempt, ends) as int;
        assert forall|k: int| 0 <= k < n - 1 implies (#[trigger] ends[k]) is Transient by {
            if k > 0 {
                assert(ends[k] == rest[k - 1]);
            }
        }
        assert(ends[n - 1] == rest[n - 2]);
    }
}

/// The wait before a retry never shrinks from one retry to the next, as far as its cap goes, and
/// never exceeds the maximum.
pub proof fn law_backoff_grows_up_to_the_maximum(policy: RetryPolicy, attempt: nat)
    ensures
        cap_nanos(policy, attempt) <= cap_nanos(policy, attempt + 1) <= policy.max_delay.nanos(),
{
    lemma_cap_doubles(policy.base_delay.nanos(), policy.max_delay.nanos(), attempt);
}

/// The longest wait starts at the base delay and doubles from one retry to the next, until it
/// reaches the maximum and stays there.
pub proof fn law_backoff_doubles(policy: RetryPolicy, attempt: nat)
    ensures
        policy.base_delay.nanos() <= policy.max_delay.nanos() ==> cap_nanos(policy, 0)
            == policy.base_delay.nanos(),
        policy.base_delay.nanos() > policy.max_delay.nanos() ==> cap_nanos(policy, 0)
            == policy.max_delay.nanos(),
        2 * cap_nanos(policy, attempt) <= policy.max_delay.nanos() ==> cap_nanos(
            policy,
            attempt + 1,
        ) == 2 * cap_nanos(policy, attempt),
        2 * cap_nanos(policy, attempt) > policy.max_delay.nanos() ==> cap_nanos(policy, attempt + 1)
            == policy.max_delay.nanos(),
{
    let base = policy.base_delay.nanos();
    vstd::arithmetic::power2::lemma2_to64();
    assert(base * pow2(0) == base) by (nonlinear_arith)
        requires
            pow2(0) == 1,
    ;
    lemma_cap_doubles(base, policy.max_delay.nanos(), attempt);
}

/// Jitter is full: every whole number of milliseconds up to the cap is picked by some state of the
/// clock, as far as the clock tells so many states apart, and nothing else is picked.
pub proof fn law_jitter_reaches_every_delay(cap: nat, millis: nat)
    requires
        cap / 1_000_000 < u64::MAX,
        millis < 1_000_000_000,
    ensures
        is_jitter(cap, millis * 1_000_000) <==> millis * 1_000_000 <= cap,
        forall|delay: nat| #[trigger] is_jitter(cap, delay) ==> delay <= cap && delay % 1_000_000
            == 0,
{
    if millis * 1_000_000 <= cap {
        let n = jitter_millis(cap) + 1;
        assert(millis % n == millis) by (nonlinear_arith)
            requires
                millis < n,
        ;
        assert(jitter(cap, millis) == millis * 1_000_000);
    }
}

/// An operation is tried again exactly where its error is transient and it was tried fewer times
/// than the policy allows.
pub proof fn law_retries_use_up_the_attempts(policy: RetryPolicy, made: nat, transient: bool)
    requires
        made > 0,
    ensures
        is_retried(policy, (made - 1) as nat, transient) <==> transient && made < policy.attempts,
{
}

} // verus!
