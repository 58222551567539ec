//! Bounded retry with exponential backoff, as the advertisement client uses
//! it: up to ten attempts, and after the failure of attempt `n`, counted from
//! zero, a wait of two to the power `n` seconds.

use vstd::prelude::*;

verus! {

/// Number of attempts after which an advertisement is given up.
pub const MAX_ATTEMPTS: u32 = 10;

/// Two to the power `n`.
pub open spec fn pow2(n: nat) -> nat
    decreases n,
{
    if n == 0 {
        1
    } else {
        2 * pow2((n - 1) as nat)
    }
}

/// The powers of two grow.
pub proof fn lemma_pow2_monotonic(a: nat, b: nat)
    requires
        a <= b,
    ensures
        pow2(a) <= pow2(b),
    decreases b,
{
    if a < b {
        lemma_pow2_monotonic(a, (b - 1) as nat);
    }
}

/// Seconds to wait after attempt `attempt`, counted from zero, has failed.
pub fn backoff_secs(attempt: u32) -> (secs: u64)
    requires
        attempt < MAX_ATTEMPTS,
    ensures
        secs == pow2(attempt as nat),
{
    let mut secs: u64 = 1;
    let mut i: u32 = 0;
    while i < attempt
        invariant
            i <= attempt < MAX_ATTEMPTS,
            secs == pow2(i as nat),
        decreases attempt - i,
    {
        proof {
            lemma_pow2_monotonic(i as nat, 9);
            assert(pow2(9) == 512) by {
                reveal_with_fuel(pow2, 10);
            }
        }
        secs = secs * 2;
        i = i + 1;
    }
    secs
}

/// What the client does next.
#[derive(Clone, Copy, Debug, PartialEq, Eq, Structural)]
pub enum Plan {
    /// Make an attempt.
    Attempt,
    /// Give up: every attempt has failed.
    GiveUp,
}

/// What follows an attempt.
#[derive(Clone, Copy, Debug, PartialEq, Eq, Structural)]
pub enum AfterAttempt {
    /// The attempt succeeded; the advertisement is done.
    Done,
    /// The attempt failed; wait this many seconds.
    Wait(u64),
}

/// How an advertisement ended.
#[derive(Clone, Copy, Debug, PartialEq, Eq, Structural)]
pub enum Verdict {
    /// An attempt succeeded.
    Advertised,
    /// Every attempt failed.
    ExceededRetries,
    /// The known outcomes end before the advertisement does.
    Unfinished,
}

/// The progress of one advertisement: how many attempts have failed.
#[derive(Clone, Copy, Debug, PartialEq, Eq, Structural)]
pub struct Retry {
    pub failures: u32,
}

impl Retry {
    /// The state before the first attempt.
    pub fn new() -> (r: Retry)
        ensures
            r.failures == 0,
    {
        Retry { failures: 0 }
    }

    /// Whether another attempt is due.
    pub fn plan(&self) -> (p: Plan)
        ensures
            p == (if self.failures < MAX_ATTEMPTS {
                Plan::Attempt
            } else {
                Plan::GiveUp
            }),
    {
        if self.failures < MAX_ATTEMPTS {
            Plan::Attempt
        } else {
            Plan::GiveUp
        }
    }

    /// Records how the attempt that `plan` asked for went. A failure counts,
    /// and is followed by the wait that its number gives.
    pub fn record(&mut self, succeeded: bool) -> (next: AfterAttempt)
        requires
            old(self).failures < MAX_ATTEMPTS,
        ensures
            succeeded ==> next == AfterAttempt::Done && *final(self) == *old(self),
            !succeeded ==> next == AfterAttempt::Wait(pow2(old(self).failures as nat) as u64)
                && final(self).failures == old(self).failures + 1,
    {
        if succeeded {
            AfterAttempt::Done
        } else {
            let secs = backoff_secs(self.failures);
            self.failures = self.failures + 1;
            AfterAttempt::Wait(secs)
        }
    }
}

/// Number of failures before the first success among `outcomes`, but no more
/// than `MAX_ATTEMPTS`: the number of waits.
pub open spec fn failures_before_end(outcomes: Seq<bool>) -> nat
    decreases outcomes.len(),
{
    if outcomes.len() == 0 {
        0
    } else {
        let before = failures_before_end(outcomes.drop_last());
        if before == outcomes.len() - 1 && before < MAX_ATTEMPTS && !outcomes.last() {
            before + 1
        } else {
            before
        }
    }
}

/// The waits of an advertisement whose attempts go as `outcomes` say: one
/// after each failure, each twice as long as the one before, the first of one
/// second.
pub open spec fn waits(outcomes: Seq<bool>) -> Seq<u64> {
    Seq::new(failures_before_end(outcomes), |i: int| pow2(i as nat) as u64)
}

/// How an advertisement ends whose attempts go as `outcomes` say.
pub open spec fn verdict(outcomes: Seq<bool>) -> Verdict {
    let n = failures_before_end(outcomes);
    if n >= MAX_ATTEMPTS {
        Verdict::ExceededRetries
    } else if n < outcomes.len() {
        Verdict::Advertised
    } else {
        Verdict::Unfinished
    }
}

/// `failures_before_end` counts the failures at the start of `outcomes`,
/// up to `MAX_ATTEMPTS`.
pub proof fn lemma_failures_before_end(outcomes: Seq<bool>)
    ensures
        failures_before_end(outcomes) <= outcomes.len(),
        failures_before_end(outcomes) <= MAX_ATTEMPTS,
        forall|i: int| 0 <= i < failures_before_end(outcomes) ==> !#[trigger] outcomes[i],
        failures_before_end(outcomes) < outcomes.len() && failures_before_end(outcomes)
            < MAX_ATTEMPTS ==> outcomes[failures_before_end(outcomes) as int],
    decreases outcomes.len(),
{
    if outcomes.len() > 0 {
        lemma_failures_before_end(outcomes.drop_last());
        assert(forall|i: int| 0 <= i < outcomes.len() - 1 ==> outcomes[i] == outcomes.drop_last()[i]);
    }
}

/// Ten failures in a row give the waits 1, 2, 4, 8, 16, 32, 64, 128, 256 and
/// 512 seconds, and then the advertisement is given up, whatever outcomes
/// might follow.
pub proof fn lemma_ten_failures(outcomes: Seq<bool>)
    requires
        outcomes.len() >= MAX_ATTEMPTS,
        forall|i: int| 0 <= i < MAX_ATTEMPTS ==> !#[trigger] outcomes[i],
    ensures
        waits(outcomes) == seq![1u64, 2, 4, 8, 16, 32, 64, 128, 256, 512],
        verdict(outcomes) == Verdict::ExceededRetries,
{
    lemma_failures_before_end(outcomes);
    let n = failures_before_end(outcomes);
    if n < MAX_ATTEMPTS {
        assert(!outcomes[n as int]);
    }
    reveal_with_fuel(pow2, 11);
    assert(waits(outcomes) =~= seq![1u64, 2, 4, 8, 16, 32, 64, 128, 256, 512]);
}

/// Runs the retry policy over attempts whose outcomes are known: `true` for
/// an attempt that succeeds. Returns the waits in seconds, in order, and how
/// the advertisement ends.
pub fn run(outcomes: &Vec<bool>) -> (r: (Vec<u64>, Verdict))
    ensures
        r.0@ == waits(outcomes@),
        r.1 == verdict(outcomes@),
{
    let mut state = Retry::new();
    let mut delays: Vec<u64> = Vec::new();
    let mut i: usize = 0;
    loop
        invariant
            i <= outcomes.len(),
            i == state.failures,
            state.failures <= MAX_ATTEMPTS,
            failures_before_end(outcomes@.take(i as int)) == i,
            delays@ == waits(outcomes@.take(i as int)),
        decreases outcomes.len() - i,
    {
        match state.plan() {
            Plan::GiveUp => {
                proof {
                    lemma_failures_settled(outcomes@, i as int);
                    assert(waits(outcomes@) =~= waits(outcomes@.take(i as int)));
                }
                return (delays, Verdict::ExceededRetries);
            },
            Plan::Attempt => {},
        }
        if i >= outcomes.len() {
            proof {
                assert(outcomes@.take(i as int) =~= outcomes@);
            }
            return (delays, Verdict::Unfinished);
        }
        proof {
            assert(outcomes@.take(i + 1).drop_last() =~= outcomes@.take(i as int));
            assert(outcomes@.take(i + 1).last() == outcomes@[i as int]);
        }
        match state.record(outcomes[i]) {
            AfterAttempt::Done => {
                proof {
                    lemma_failures_settled(outcomes@, i + 1);
                    assert(waits(outcomes@) =~= waits(outcomes@.take(i as int)));
                }
                return (delays, Verdict::Advertised);
            },
            AfterAttempt::Wait(secs) => {
                delays.push(secs);
                proof {
                    assert(delays@ =~= waits(outcomes@.take(i + 1)));
                }
            },
        }
        i = i + 1;
    }
}

/// Once the count of failures stays behind the number of outcomes, or has
/// reached `MAX_ATTEMPTS`, further outcomes do not change it.
pub proof fn lemma_failures_settled(outcomes: Seq<bool>, n: int)
    requires
        0 <= n <= outcomes.len(),
        failures_before_end(outcomes.take(n)) < n || failures_before_end(outcomes.take(n))
            >= MAX_ATTEMPTS,
    ensures
        failures_before_end(outcomes) == failures_before_end(outcomes.take(n)),
    decreases outcomes.len() - n,
{
    if n < outcomes.len() {
        assert(outcomes.take(n + 1).drop_last() =~= outcomes.take(n));
        lemma_failures_settled(outcomes, n + 1);
    } else {
        assert(outcomes.take(n) =~= outcomes);
    }
}

} // verus!
