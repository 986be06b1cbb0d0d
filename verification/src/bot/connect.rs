//! When a bot tries again to connect.
use vstd::prelude::*;

use crate::bot::random::Dice;

verus! {

/// Where the server listens.
pub const SERVER_ADDR: &'static str = "127.0.0.1:8080";

/// How often a refused connection is tried again.
pub const MAX_CONNECT_RETRIES: u32 = 8;

/// The pause before the first new try, in milliseconds, without its jitter.
pub const CONNECT_BACKOFF_MS: u64 = 20;

/// The pause before new try `retry`, without its jitter: each is twice as long
/// as the one before it.
pub open spec fn backoff(retry: nat) -> nat
    decreases retry,
{
    if retry == 0 {
        CONNECT_BACKOFF_MS as nat
    } else {
        2 * backoff((retry - 1) as nat)
    }
}

/// What a bot does when it could not connect.
#[derive(Debug, Clone, Copy, PartialEq, Eq, Structural)]
pub enum ConnectStep {
    /// Wait that long, and try again.
    RetryAfter { ms: u64 },
    /// Give up, with the error that came.
    GiveUp,
}

/// How often a bot has tried again so far.
#[derive(Debug)]
pub struct ConnectRetry {
    retries: u32,
    pause_ms: u64,
}

impl ConnectRetry {
    /// How often it has tried again.
    pub closed spec fn retries(&self) -> nat {
        self.retries as nat
    }

    pub closed spec fn wf(&self) -> bool {
        self.retries <= MAX_CONNECT_RETRIES && self.pause_ms == backoff(self.retries as nat)
    }

    pub fn new() -> (r: Self)
        ensures
            r.wf(),
            r.retries() == 0,
    {
        ConnectRetry { retries: 0, pause_ms: CONNECT_BACKOFF_MS }
    }

    /// What to do after a failure. Only a refused connection is tried again, and
    /// not more than `MAX_CONNECT_RETRIES` times. The jitter, as far as it is
    /// less than the pause itself, makes the pause longer.
    pub fn after_failure(&mut self, refused: bool, jitter: u64) -> (step: ConnectStep)
        requires
            old(self).wf(),
        ensures
            final(self).wf(),
            refused && old(self).retries() < MAX_CONNECT_RETRIES ==> {
                &&& step matches ConnectStep::RetryAfter { ms }
                &&& ms == backoff(old(self).retries()) + jitter as nat % backoff(
                    old(self).retries(),
                )
                &&& final(self).retries() == old(self).retries() + 1
            },
            !(refused && old(self).retries() < MAX_CONNECT_RETRIES) ==> step
                == ConnectStep::GiveUp && *final(self) == *old(self),
    {
        if !refused || self.retries >= MAX_CONNECT_RETRIES {
            return ConnectStep::GiveUp;
        }
        let pause: u64 = self.pause_ms;
        proof {
            law_pauses_double(self.retries as nat);
            lemma_backoff_grows(self.retries as nat, MAX_CONNECT_RETRIES as nat);
            assert(backoff(8) == 5120) by {
                reveal_with_fuel(backoff, 9);
            }
        }
        self.retries = self.retries + 1;
        self.pause_ms = pause * 2;
        ConnectStep::RetryAfter { ms: pause + jitter % pause }
    }

    /// What to do after a failure, with a jitter by the dice.
    pub fn after_failure_with(&mut self, refused: bool, dice: &mut Dice) -> (step: ConnectStep)
        requires
            old(self).wf(),
        ensures
            final(self).wf(),
            refused && old(self).retries() < MAX_CONNECT_RETRIES ==> {
                &&& step matches ConnectStep::RetryAfter { ms }
                &&& backoff(old(self).retries()) <= ms < 2 * backoff(old(self).retries())
                &&& final(self).retries() == old(self).retries() + 1
            },
            !(refused && old(self).retries() < MAX_CONNECT_RETRIES) ==> step
                == ConnectStep::GiveUp && *final(self) == *old(self),
    {
        proof {
            law_pauses_double(self.retries as nat);
        }
        let jitter = dice.below(self.pause_ms);
        self.after_failure(refused, jitter)
    }
}

proof fn lemma_backoff_grows(a: nat, b: nat)
    requires
        a <= b,
    ensures
        backoff(a) <= backoff(b),
    decreases b,
{
    if a < b {
        lemma_backoff_grows(a, (b - 1) as nat);
    }
}

/// Each pause is twice as long as the one before it, and none is empty.
pub proof fn law_pauses_double(retry: nat)
    ensures
        backoff(retry) > 0,
        backoff(retry + 1) == 2 * backoff(retry),
    decreases retry,
{
    if retry > 0 {
        law_pauses_double((retry - 1) as nat);
    }
}

/// The first pause is a fiftieth of a second, and after `retry` of them the next is
/// that times two to the power of `retry`.
pub proof fn law_pauses_are_powers_of_two(retry: nat)
    ensures
        backoff(0) == 20,
        backoff(retry) == 20 * vstd::arithmetic::power2::pow2(retry),
    decreases retry,
{
    if retry == 0 {
        vstd::arithmetic::power2::lemma2_to64();
    } else {
        law_pauses_are_powers_of_two((retry - 1) as nat);
        vstd::arithmetic::power2::lemma_pow2_unfold(retry);
    }
}

} // verus!
