//! A token bucket, for clients that are to be slowed down.
//!
//! The level is counted in billionths of a token, so that every nanosecond adds
//! a whole number to it and nothing is ever rounded.
use vstd::prelude::*;

verus! {

/// One token.
pub const TOKEN: u64 = 1_000_000_000;

/// The level of a full bucket: ten tokens.
pub const TOKEN_CAPACITY: u64 = 10_000_000_000;

/// What a nanosecond adds to the level: ten tokens a second.
pub const TOKEN_RATE: u64 = 10;

/// The level after `elapsed_ns` without a message.
pub open spec fn refilled(level: u64, elapsed_ns: u64) -> u64 {
    let sum = level + elapsed_ns * TOKEN_RATE;
    if sum < TOKEN_CAPACITY {
        sum as u64
    } else {
        TOKEN_CAPACITY
    }
}

/// Whether a message is let through `elapsed_ns` after the one before.
pub open spec fn grants(level: u64, elapsed_ns: u64) -> bool {
    refilled(level, elapsed_ns) >= TOKEN
}

/// The level behind that message, let through or not.
pub open spec fn spent(level: u64, elapsed_ns: u64) -> u64 {
    if grants(level, elapsed_ns) {
        (refilled(level, elapsed_ns) - TOKEN) as u64
    } else {
        refilled(level, elapsed_ns)
    }
}

/// Lets ten messages through at once, and ten a second in the long run.
#[derive(Debug, Clone, Copy)]
pub struct TokenBucket {
    pub level: u64,
}

impl TokenBucket {
    /// A full bucket.
    pub fn new() -> (b: Self)
        ensures
            b.level == TOKEN_CAPACITY,
    {
        TokenBucket { level: TOKEN_CAPACITY }
    }

    /// Takes a token for a message that comes `elapsed_ns` after the one
    /// before. `false`: there is none, and the message is to be dropped.
    pub fn take(&mut self, elapsed_ns: u64) -> (granted: bool)
        ensures
            granted == grants(old(self).level, elapsed_ns),
            final(self).level == spent(old(self).level, elapsed_ns),
    {
        let full: u64 = TOKEN_CAPACITY / TOKEN_RATE;
        if self.level >= TOKEN_CAPACITY || elapsed_ns >= full {
            self.level = TOKEN_CAPACITY;
        } else {
            let sum: u64 = self.level + elapsed_ns * TOKEN_RATE;
            self.level = if sum < TOKEN_CAPACITY { sum } else { TOKEN_CAPACITY };
        }
        if self.level < TOKEN {
            return false;
        }
        self.level = self.level - TOKEN;
        true
    }
}

// --------------------------------------------------------------------- laws

/// The level behind a sequence of messages, given by the pause before each.
pub open spec fn level_after(level: u64, pauses: Seq<u64>) -> u64
    decreases pauses.len(),
{
    if pauses.len() == 0 {
        level
    } else {
        spent(level_after(level, pauses.drop_last()), pauses.last())
    }
}

/// How many of these messages are let through.
pub open spec fn granted(level: u64, pauses: Seq<u64>) -> nat
    decreases pauses.len(),
{
    if pauses.len() == 0 {
        0
    } else {
        granted(level, pauses.drop_last()) + if grants(
            level_after(level, pauses.drop_last()),
            pauses.last(),
        ) {
            1nat
        } else {
            0nat
        }
    }
}

/// How long these messages take.
pub open spec fn duration(pauses: Seq<u64>) -> nat
    decreases pauses.len(),
{
    if pauses.len() == 0 {
        0
    } else {
        duration(pauses.drop_last()) + pauses.last() as nat
    }
}

/// However the messages come, those that are let through cost no more than what
/// the bucket held and what flowed in meanwhile: from a full bucket, ten and
/// another ten for each second.
pub proof fn law_rate_is_bounded(level: u64, pauses: Seq<u64>)
    requires
        level <= TOKEN_CAPACITY,
    ensures
        granted(level, pauses) * TOKEN + level_after(level, pauses) <= level + duration(pauses)
            * TOKEN_RATE,
        level_after(level, pauses) <= TOKEN_CAPACITY,
    decreases pauses.len(),
{
    if pauses.len() > 0 {
        law_rate_is_bounded(level, pauses.drop_last());
    }
}

/// Ten tokens flow in each second, up to ten; a message is let through exactly
/// where a whole token is there, and takes it. One that is dropped takes nothing.
pub proof fn law_each_message_takes_one_token(level: u64, elapsed_ns: u64)
    requires
        level <= 10_000_000_000,
    ensures
        ({
            let flowed = level + 10 * elapsed_ns;
            let there = if flowed <= 10_000_000_000 {
                flowed
            } else {
                10_000_000_000
            };
            &&& grants(level, elapsed_ns) == (there >= 1_000_000_000)
            &&& grants(level, elapsed_ns) ==> spent(level, elapsed_ns) == there - 1_000_000_000
            &&& !grants(level, elapsed_ns) ==> spent(level, elapsed_ns) == there
        }),
{
}

/// Who leaves a tenth of a second between messages is never slowed down.
pub proof fn law_slow_clients_are_let_through(level: u64, pauses: Seq<u64>)
    requires
        level <= TOKEN_CAPACITY,
        forall|i: int| 0 <= i < pauses.len() ==> #[trigger] pauses[i] >= 100_000_000,
    ensures
        granted(level, pauses) == pauses.len(),
    decreases pauses.len(),
{
    if pauses.len() > 0 {
        let front = pauses.drop_last();
        assert forall|i: int| 0 <= i < front.len() implies #[trigger] front[i] >= 100_000_000 by {
            assert(pauses[i] >= 100_000_000);
        }
        law_slow_clients_are_let_through(level, front);
        law_rate_is_bounded(level, front);
        assert(pauses[pauses.len() - 1] >= 100_000_000);
    }
}

} // verus!
