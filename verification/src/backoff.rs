//! How long to wait before another try.

use vstd::arithmetic::power2::{lemma2_to64, pow2};
use vstd::prelude::*;

verus! {

/// The wait before the first retry, in seconds.
pub const FIRST_DELAY: u64 = 2;

/// The longest wait, in seconds.
pub const MAX_DELAY: u64 = 60;

/// The waits between tries: each twice the one before, up to a longest.
#[derive(Debug, Clone, Copy, PartialEq, Eq)]
pub struct Backoff {
    delay: u64,
}

/// The wait that follows a wait.
pub open spec fn doubled(delay: nat) -> nat {
    if 2 * delay <= MAX_DELAY {
        2 * delay
    } else {
        MAX_DELAY as nat
    }
}

/// The wait after `failures` failures in a row.
pub open spec fn delay_after(failures: nat) -> nat
    decreases failures,
{
    if failures == 0 {
        FIRST_DELAY as nat
    } else {
        doubled(delay_after((failures - 1) as nat))
    }
}

impl View for Backoff {
    type V = nat;

    /// The next wait, in seconds.
    closed spec fn view(&self) -> nat {
        self.delay as nat
    }
}

impl Backoff {
    #[verifier::type_invariant]
    spec fn in_range(self) -> bool {
        FIRST_DELAY <= self.delay <= MAX_DELAY
    }

    /// The waits, from the first.
    pub fn new() -> (r: Backoff)
        ensures
            r@ == FIRST_DELAY,
    {
        Backoff { delay: FIRST_DELAY }
    }

    /// Starts again with the first wait.
    pub fn reset(&mut self)
        ensures
            final(self)@ == FIRST_DELAY,
    {
        self.delay = FIRST_DELAY;
    }

    /// The next wait, in seconds; the one after it is twice as long, up to
    /// the longest.
    pub fn next_delay(&mut self) -> (seconds: u64)
        ensures
            seconds == old(self)@,
            final(self)@ == doubled(old(self)@),
            FIRST_DELAY <= seconds <= MAX_DELAY,
    {
        proof {
            use_type_invariant(&*self);
        }
        let seconds = self.delay;
        if 2 * seconds <= MAX_DELAY {
            self.delay = 2 * seconds;
        } else {
            self.delay = MAX_DELAY;
        }
        seconds
    }
}

/// The waits grow as 2, 4, 8, 16, 32 and stay at 60 from then on.
pub proof fn law_delays_double_up_to_longest(failures: nat)
    ensures
        delay_after(failures) == if failures < 5 {
            pow2(failures + 1)
        } else {
            MAX_DELAY as nat
        },
        FIRST_DELAY <= delay_after(failures) <= MAX_DELAY,
        delay_after(failures) <= delay_after(failures + 1),
    decreases failures,
{
    lemma2_to64();
    if failures > 0 {
        law_delays_double_up_to_longest((failures - 1) as nat);
    }
}

/// A wait is followed by one twice as long, as long as that is at most a
/// minute, and else by a minute.
pub proof fn law_next_wait(delay: nat)
    ensures
        delay <= 30 ==> doubled(delay) == delay + delay,
        delay >= 30 ==> doubled(delay) == 60,
{
}

} // verus!
