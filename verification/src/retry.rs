//! The retry policy: which outcomes of an attempt are tried again, how often, and after what
//! delay.

use crate::classifier::{Outcome, TransportError};
use vstd::prelude::*;

verus! {

/// The delay between two attempts, in milliseconds.
#[derive(Debug, Clone, Copy, PartialEq, Eq, Structural)]
pub enum Backoff {
    /// The same delay before every retry.
    Fixed(u64),
    /// The delay before the first retry; it doubles with every further retry.
    Exponential(u64),
}

/// The retry policy of one run. Every request has the whole budget for itself.
#[derive(Debug, Clone, Copy, PartialEq, Eq, Structural)]
pub struct RetryPolicy {
    /// How many attempts may follow the first.
    pub max_retries: u32,
    pub backoff: Backoff,
    /// Whether an attempt that timed out is tried again.
    pub retry_timeouts: bool,
    /// Whether an attempt whose connection was reset is tried again.
    pub retry_resets: bool,
}

/// What follows an attempt.
#[derive(Debug, Clone, Copy, PartialEq, Eq, Structural)]
pub enum RetryStep {
    /// Try again after this many milliseconds.
    Again(u64),
    /// The outcome stands and is classified.
    Settled,
}

/// Two to the power of `n`.
pub open spec fn pow2(n: nat) -> nat
    decreases n,
{
    if n == 0 {
        1
    } else {
        2 * pow2((n - 1) as nat)
    }
}

/// `n`, or the largest `u64` where `n` is larger.
pub open spec fn capped(n: int) -> u64 {
    if n <= u64::MAX {
        n as u64
    } else {
        u64::MAX
    }
}

impl RetryPolicy {
    /// The policy that is used where none is configured: two retries, one second apart, for
    /// responses with status code 429, timeouts and resets.
    pub fn standard() -> (out: Self)
        ensures
            out == (RetryPolicy {
                max_retries: 2,
                backoff: Backoff::Fixed(1000),
                retry_timeouts: true,
                retry_resets: true,
            }),
    {
        RetryPolicy {
            max_retries: 2,
            backoff: Backoff::Fixed(1000),
            retry_timeouts: true,
            retry_resets: true,
        }
    }

    /// The outcomes that are worth another attempt: a response with status code 429, and
    /// the transient failures that the policy names.
    pub open spec fn retryable(&self, outcome: Outcome) -> bool {
        match outcome {
            Outcome::Response(code) => code == 429,
            Outcome::TransportFailure(TransportError::Timeout, _) => self.retry_timeouts,
            Outcome::TransportFailure(TransportError::ConnectionReset, _) => self.retry_resets,
            Outcome::TransportFailure(TransportError::Other, _) => false,
        }
    }

    /// The delay before the retry that follows `attempts` attempts, as far as a `u64` holds
    /// it: with exponential backoff the first delay, doubled once for every attempt behind
    /// the first.
    pub open spec fn delay(&self, attempts: u32) -> u64 {
        match self.backoff {
            Backoff::Fixed(delay) => delay,
            Backoff::Exponential(first) => if attempts <= 1 {
                first
            } else {
                capped(first * pow2((attempts - 1) as nat))
            },
        }
    }

    /// What follows the attempt with number `attempts`, counted from 1, that gave `outcome`:
    /// another attempt where the outcome is retryable and the budget is not used up.
    pub open spec fn step(&self, attempts: u32, outcome: Outcome) -> RetryStep {
        if self.retryable(outcome) && attempts <= self.max_retries {
            RetryStep::Again(self.delay(attempts))
        } else {
            RetryStep::Settled
        }
    }

    /// Whether `outcome` is worth another attempt.
    pub fn is_retryable(&self, outcome: &Outcome) -> (out: bool)
        ensures
            out == self.retryable(*outcome),
    {
        match outcome {
            Outcome::Response(code) => *code == 429,
            Outcome::TransportFailure(TransportError::Timeout, _) => self.retry_timeouts,
            Outcome::TransportFailure(TransportError::ConnectionReset, _) => self.retry_resets,
            Outcome::TransportFailure(TransportError::Other, _) => false,
        }
    }

    /// The delay before the retry that follows `attempts` attempts.
    pub fn delay_after(&self, attempts: u32) -> (out: u64)
        ensures
            out == self.delay(attempts),
    {
        match self.backoff {
            Backoff::Fixed(delay) => delay,
            Backoff::Exponential(first) => {
                let mut delay: u64 = first;
                let mut doubled: u32 = 1;
                proof {
                    assert(pow2(0) == 1);
                    assert(first * pow2(0) == first);
                }
                while doubled < attempts
                    invariant
                        1 <= doubled,
                        doubled <= attempts || (attempts == 0 && doubled == 1),
                        delay == capped(first * pow2((doubled - 1) as nat)),
                    decreases attempts - doubled,
                {
                    proof {
                        assert(pow2(doubled as nat) == 2 * pow2((doubled - 1) as nat));
                        assert(first * pow2(doubled as nat) == 2 * (first * pow2(
                            (doubled - 1) as nat,
                        ))) by (nonlinear_arith)
                            requires
                                pow2(doubled as nat) == 2 * pow2((doubled - 1) as nat),
                        ;
                    }
                    if delay > u64::MAX / 2 {
                        delay = u64::MAX;
                    } else {
                        delay = delay * 2;
                    }
                    doubled = doubled + 1;
                }
                proof {
                    assert(pow2(0) == 1);
                    assert(first * pow2(0) == first);
                }
                delay
            },
        }
    }

    /// Decides what follows the attempt with number `attempts`, counted from 1.
    pub fn next_step(&self, attempts: u32, outcome: &Outcome) -> (out: RetryStep)
        ensures
            out == self.step(attempts, *outcome),
    {
        if self.is_retryable(outcome) && attempts <= self.max_retries {
            RetryStep::Again(self.delay_after(attempts))
        } else {
            RetryStep::Settled
        }
    }

    /// The number of the attempt at which a request settles when its attempts give
    /// `outcomes` in turn, at or behind attempt `from`: the first whose outcome is not tried
    /// again. `None` where every outcome that is given asks for another attempt.
    pub open spec fn settles_at(&self, outcomes: Seq<Outcome>, from: int) -> Option<int>
        decreases outcomes.len() + 1 - from,
    {
        if from < 1 || from > outcomes.len() {
            None
        } else if self.retryable(outcomes[from - 1]) && from <= self.max_retries {
            self.settles_at(outcomes, from + 1)
        } else {
            Some(from)
        }
    }

    /// Follows the policy through the outcomes that the attempts of one request give in turn.
    /// The result is the number of attempts made; the outcome of the last of them stands.
    pub fn settle(&self, outcomes: &Vec<Outcome>) -> (out: Option<usize>)
        ensures
            match out {
                Some(attempts) => self.settles_at(outcomes@, 1) == Some(attempts as int),
                None => self.settles_at(outcomes@, 1) is None,
            },
    {
        let mut made: usize = 0;
        while made < outcomes.len()
            invariant
                made <= outcomes@.len(),
                self.settles_at(outcomes@, 1) == self.settles_at(outcomes@, made + 1),
            decreases outcomes@.len() - made,
        {
            let attempts = made + 1;
            if attempts > u32::MAX as usize {
                return Some(attempts);
            }
            match self.next_step(attempts as u32, &outcomes[made]) {
                RetryStep::Settled => {
                    return Some(attempts);
                },
                RetryStep::Again(_) => {},
            }
            made = attempts;
        }
        None
    }

    /// The budget bounds the attempts: a request settles at the latest with the attempt that
    /// follows its last retry.
    pub proof fn lemma_attempts_bounded(&self, outcomes: Seq<Outcome>, from: int)
        requires
            1 <= from,
        ensures
            self.settles_at(outcomes, from) matches Some(attempts) ==> from <= attempts && (attempts
                <= self.max_retries + 1 || attempts == from),
        decreases outcomes.len() + 1 - from,
    {
        if from <= outcomes.len() && self.retryable(outcomes[from - 1]) && from
            <= self.max_retries {
            self.lemma_attempts_bounded(outcomes, from + 1);
        }
    }
}

} // verus!
