//! The schedule of reconnect attempts: at most five, with a pause after each
//! failure that starts at one second and doubles.

use vstd::prelude::*;

verus! {

/// How many connect attempts one failure episode may make.
pub const MAX_ATTEMPTS: u8 = 5;

/// The pause, in seconds, after the `failures`-th failed attempt in a row.
pub open spec fn pause_after(failures: nat) -> nat
    decreases failures,
{
    if failures <= 1 {
        1
    } else {
        2 * pause_after((failures - 1) as nat)
    }
}

/// The failed attempts of one failure episode, and the pause that the next
/// failure will be followed by.
#[derive(Clone, Copy, Debug)]
pub struct Backoff {
    failures: u8,
    pause: u64,
}

impl Backoff {
    #[verifier::type_invariant]
    spec fn inv(self) -> bool {
        &&& self.failures <= MAX_ATTEMPTS
        &&& self.pause == pause_after((self.failures + 1) as nat)
    }

    /// How many attempts have failed in this episode.
    pub closed spec fn failures(self) -> nat {
        self.failures as nat
    }

    /// Whether the episode has used up its attempts.
    pub open spec fn spent(self) -> bool {
        self.failures() >= MAX_ATTEMPTS
    }

    /// The start of an episode: no attempt has failed, and the first pause
    /// will be one second.
    pub fn new() -> (backoff: Backoff)
        ensures
            backoff.failures() == 0,
    {
        Backoff { failures: 0, pause: 1 }
    }

    /// How many attempts have failed in this episode: never more than five.
    pub fn failed_attempts(&self) -> (failures: u8)
        ensures
            failures == self.failures(),
            failures <= MAX_ATTEMPTS,
    {
        proof {
            use_type_invariant(self);
        }
        self.failures
    }

    /// Whether the episode has used up its attempts.
    pub fn exhausted(&self) -> (spent: bool)
        ensures
            spent == self.spent(),
    {
        self.failures >= MAX_ATTEMPTS
    }

    /// Counts one more failed attempt, if the episode has any left, and
    /// gives the seconds to pause after it: 1, 2, 4, 8 and 16 in turn. A
    /// spent episode gives `None` and stays as it is.
    pub fn next_pause(&mut self) -> (pause: Option<u64>)
        ensures
            final(self).failures() <= MAX_ATTEMPTS,
            old(self).spent() ==> pause is None && final(self).failures() == old(self).failures(),
            !old(self).spent() ==> pause == Some(pause_after(final(self).failures()) as u64)
                && final(self).failures() == old(self).failures() + 1,
            old(self).failures() == 0 ==> pause == Some(1u64),
            old(self).failures() == 1 ==> pause == Some(2u64),
            old(self).failures() == 2 ==> pause == Some(4u64),
            old(self).failures() == 3 ==> pause == Some(8u64),
            old(self).failures() == 4 ==> pause == Some(16u64),
    {
        proof {
            use_type_invariant(&*self);
            lemma_pauses();
        }
        if self.failures >= MAX_ATTEMPTS {
            None
        } else {
            let pause = self.pause;
            proof {
                lemma_pause_doubles((self.failures + 1) as nat);
            }
            *self = Backoff { failures: self.failures + 1, pause: pause * 2 };
            Some(pause)
        }
    }
}

/// The pauses of one episode are 1, 2, 4, 8 and 16 seconds.
pub proof fn lemma_pauses()
    ensures
        pause_after(1) == 1,
        pause_after(2) == 2,
        pause_after(3) == 4,
        pause_after(4) == 8,
        pause_after(5) == 16,
{
    reveal_with_fuel(pause_after, 6);
}

/// Each pause is twice the one before.
pub proof fn lemma_pause_doubles(failures: nat)
    requires
        failures >= 1,
    ensures
        pause_after(failures + 1) == 2 * pause_after(failures),
{
}

} // verus!
