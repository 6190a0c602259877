//! The configuration of a run. What is not configured has a fallback.

use crate::classifier::{AcceptSet, Rules};
use crate::controller::Controller;
use crate::fallback::fallback_value;
use crate::error::ConfigurationError;
use crate::retry::{Backoff, RetryPolicy};
use vstd::prelude::*;

verus! {

/// How many URIs are checked at the same time where nothing is configured.
pub const DEFAULT_MAX_CONCURRENCY: usize = 128;

/// How many retries follow the first attempt where nothing is configured.
pub const DEFAULT_MAX_RETRIES: u32 = 2;

/// How many milliseconds pass before a retry where nothing is configured.
pub const DEFAULT_RETRY_WAIT: u64 = 1000;

/// What can be configured. An empty field stands for its fallback.
#[derive(Debug, PartialEq, Eq)]
pub struct Config {
    /// How many URIs are checked at the same time. fallback: DEFAULT_MAX_CONCURRENCY
    pub max_concurrency: Option<usize>,
    /// How many retries follow the first attempt. fallback: DEFAULT_MAX_RETRIES
    pub max_retries: Option<u32>,
    /// How many milliseconds pass before a retry. fallback: DEFAULT_RETRY_WAIT
    pub retry_wait_time: Option<u64>,
    /// Whether the delay doubles with every retry. fallback: false
    pub exponential_backoff: Option<bool>,
    /// Whether fragments are checked. fallback: false
    pub include_fragments: Option<bool>,
    /// The status codes that count as success, in place of the conventional ones.
    pub accept: Option<Vec<u16>>,
    /// The status codes that are rejected whatever the accept set holds.
    pub reject: Vec<u16>,
    /// The status codes that are never cached.
    pub cache_exclude_status: Vec<u16>,
}

/// A copy of `codes`.
pub fn copy_codes(codes: &Vec<u16>) -> (out: Vec<u16>)
    ensures
        out@ == codes@,
{
    let mut out: Vec<u16> = Vec::new();
    let mut i: usize = 0;
    while i < codes.len()
        invariant
            i <= codes@.len(),
            out@ == codes@.take(i as int),
        decreases codes@.len() - i,
    {
        out.push(codes[i]);
        proof {
            assert(codes@.take(i + 1) == codes@.take(i as int).push(codes@[i as int]));
        }
        i = i + 1;
    }
    proof {
        assert(codes@.take(i as int) == codes@);
    }
    out
}

impl Config {
    /// The configuration in which nothing is configured.
    pub fn empty() -> (out: Config)
        ensures
            out.max_concurrency is None,
            out.max_retries is None,
            out.retry_wait_time is None,
            out.exponential_backoff is None,
            out.include_fragments is None,
            out.accept is None,
            out.reject@.len() == 0,
            out.cache_exclude_status@.len() == 0,
    {
        Config {
            max_concurrency: None,
            max_retries: None,
            retry_wait_time: None,
            exponential_backoff: None,
            include_fragments: None,
            accept: None,
            reject: Vec::new(),
            cache_exclude_status: Vec::new(),
        }
    }

    /// How many URIs are checked at the same time.
    pub open spec fn spec_max_concurrency(&self) -> usize {
        match self.max_concurrency {
            Some(value) => value,
            None => DEFAULT_MAX_CONCURRENCY,
        }
    }

    /// How many URIs are checked at the same time.
    #[verifier::when_used_as_spec(spec_max_concurrency)]
    pub fn max_concurrency(&self) -> (out: usize)
        ensures
            out == self.spec_max_concurrency(),
    {
        fallback_value(self.max_concurrency, DEFAULT_MAX_CONCURRENCY)
    }

    /// How many retries follow the first attempt.
    pub open spec fn spec_max_retries(&self) -> u32 {
        match self.max_retries {
            Some(value) => value,
            None => DEFAULT_MAX_RETRIES,
        }
    }

    /// How many retries follow the first attempt.
    #[verifier::when_used_as_spec(spec_max_retries)]
    pub fn max_retries(&self) -> (out: u32)
        ensures
            out == self.spec_max_retries(),
    {
        fallback_value(self.max_retries, DEFAULT_MAX_RETRIES)
    }

    /// How many milliseconds pass before a retry.
    pub open spec fn spec_retry_wait_time(&self) -> u64 {
        match self.retry_wait_time {
            Some(value) => value,
            None => DEFAULT_RETRY_WAIT,
        }
    }

    /// How many milliseconds pass before a retry.
    #[verifier::when_used_as_spec(spec_retry_wait_time)]
    pub fn retry_wait_time(&self) -> (out: u64)
        ensures
            out == self.spec_retry_wait_time(),
    {
        fallback_value(self.retry_wait_time, DEFAULT_RETRY_WAIT)
    }

    /// Whether the delay doubles with every retry.
    pub open spec fn spec_exponential_backoff(&self) -> bool {
        match self.exponential_backoff {
            Some(value) => value,
            None => false,
        }
    }

    /// Whether the delay doubles with every retry.
    #[verifier::when_used_as_spec(spec_exponential_backoff)]
    pub fn exponential_backoff(&self) -> (out: bool)
        ensures
            out == self.spec_exponential_backoff(),
    {
        fallback_value(self.exponential_backoff, false)
    }

    /// Whether fragments are checked.
    pub open spec fn spec_include_fragments(&self) -> bool {
        match self.include_fragments {
            Some(value) => value,
            None => false,
        }
    }

    /// Whether fragments are checked.
    #[verifier::when_used_as_spec(spec_include_fragments)]
    pub fn include_fragments(&self) -> (out: bool)
        ensures
            out == self.spec_include_fragments(),
    {
        fallback_value(self.include_fragments, false)
    }

    /// The accept set: the configured codes, which replace the conventional ones, or the
    /// conventional ones where none are configured.
    pub fn accept(&self) -> (out: AcceptSet)
        ensures
            match self.accept {
                Some(codes) => out matches AcceptSet::Only(only) && only@ == codes@,
                None => out == AcceptSet::Conventional,
            },
    {
        match &self.accept {
            Some(codes) => AcceptSet::Only(copy_codes(codes)),
            None => AcceptSet::Conventional,
        }
    }

    /// The rules of the run.
    pub fn rules(&self) -> (out: Rules)
        ensures
            out.reject@ == self.reject@,
            out.cache_exclude@ == self.cache_exclude_status@,
            match self.accept {
                Some(codes) => out.accept matches AcceptSet::Only(only) && only@ == codes@,
                None => out.accept == AcceptSet::Conventional,
            },
    {
        Rules {
            accept: self.accept(),
            reject: copy_codes(&self.reject),
            cache_exclude: copy_codes(&self.cache_exclude_status),
        }
    }

    /// The retry policy of the run: responses with status code 429, timeouts and resets
    /// are tried again.
    pub fn retry_policy(&self) -> (out: RetryPolicy)
        ensures
            out.max_retries == self.max_retries(),
            out.backoff == if self.exponential_backoff() {
                Backoff::Exponential(self.retry_wait_time())
            } else {
                Backoff::Fixed(self.retry_wait_time())
            },
            out.retry_timeouts,
            out.retry_resets,
    {
        let wait = self.retry_wait_time();
        RetryPolicy {
            max_retries: self.max_retries(),
            backoff: if self.exponential_backoff() {
                Backoff::Exponential(wait)
            } else {
                Backoff::Fixed(wait)
            },
            retry_timeouts: true,
            retry_resets: true,
        }
    }

    /// The controller of the run. A bound of zero is a fault in the configuration.
    pub fn controller(&self) -> (out: Result<Controller, ConfigurationError>)
        ensures
            match out {
                Ok(controller) => {
                    &&& self.max_concurrency() > 0
                    &&& controller@.wf()
                    &&& controller@.bound == self.max_concurrency()
                    &&& controller@.running.len() == 0
                    &&& controller@.waiting.len() == 0
                    &&& !controller@.cancelled
                },
                Err(error) => self.max_concurrency() == 0 && error
                    == ConfigurationError::NoConcurrency,
            },
    {
        match Controller::new(self.max_concurrency()) {
            Some(controller) => Ok(controller),
            None => Err(ConfigurationError::NoConcurrency),
        }
    }
}

} // verus!
