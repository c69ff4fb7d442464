//! The patience of a poll for the next notification worth sending.

use vstd::prelude::*;

verus! {

/// How long, in milliseconds, to wait for the next notification when
/// `rounds` rounds of patience are left: ten milliseconds a round, never
/// under 1 and never over 30.
pub open spec fn poll_timeout(rounds: int) -> int {
    if rounds * 10 < 1 {
        1
    } else if rounds * 10 > 30 {
        30
    } else {
        rounds * 10
    }
}

/// The rounds that are left after one more was spent.
pub open spec fn rounds_after_step(rounds: int) -> int {
    if rounds == i64::MIN {
        rounds
    } else {
        rounds - 1
    }
}

/// The wait for the next notification never leaves `1..=30` and never
/// grows as the rounds run out.
pub proof fn lemma_poll_timeout(rounds: int, later: int)
    requires
        later <= rounds,
    ensures
        1 <= poll_timeout(later) <= poll_timeout(rounds) <= 30,
{
}

/// The patience of one poll for an event. Each notification that is
/// dropped costs a round, and the wait for the next one shrinks with the
/// rounds that are left.
#[derive(Debug, Clone, Copy, PartialEq, Eq)]
pub struct Backoff {
    rounds: i64,
}

impl Backoff {
    /// The rounds that are left.
    pub closed spec fn rounds(&self) -> int {
        self.rounds as int
    }

    /// The patience at the start of a poll: three rounds.
    pub fn new() -> (backoff: Self)
        ensures
            backoff.rounds() == 3,
    {
        Backoff { rounds: 3 }
    }

    /// How long, in milliseconds, to wait for the next notification.
    pub fn timeout_ms(&self) -> (ms: u64)
        ensures
            ms == poll_timeout(self.rounds()),
    {
        if self.rounds >= 3 {
            30
        } else if self.rounds <= 0 {
            1
        } else {
            (self.rounds * 10) as u64
        }
    }

    /// Spends one round on a notification that was dropped.
    pub fn step(&mut self)
        ensures
            final(self).rounds() == rounds_after_step(old(self).rounds()),
    {
        if self.rounds > i64::MIN {
            self.rounds = self.rounds - 1;
        }
    }
}

/// What a poll does after one wait on the notifier.
#[derive(Debug, Clone, Copy, PartialEq, Eq)]
pub enum PollStep {
    /// The notification is worth sending: the poll ends with it.
    Deliver,
    /// Wait again, this long in milliseconds.
    Retry { timeout_ms: u64 },
    /// The notifier stayed silent: the poll ends without an event.
    GiveUp,
}

} // verus!
