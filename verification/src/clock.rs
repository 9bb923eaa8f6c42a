//! Logical clocks, sequence numbers and the switchable wall clock.
use vstd::prelude::*;

use crate::num;

verus! {

/// Lamport logical clock for deterministic event ordering.
///
/// On a local event `tick` advances by one; on a received one `witness` advances past both
/// clocks.
#[derive(Debug)]
pub struct LamportClock {
    counter: u64,
}

impl View for LamportClock {
    type V = u64;

    closed spec fn view(&self) -> u64 {
        self.counter
    }
}

impl LamportClock {
    /// A clock at zero.
    pub fn new() -> (r: Self)
        ensures
            r@ == 0,
    {
        LamportClock { counter: 0 }
    }

    /// A clock at a given time.
    pub fn from(initial: u64) -> (r: Self)
        ensures
            r@ == initial,
    {
        LamportClock { counter: initial }
    }

    /// Advances by one and returns the new time.
    pub fn tick(&mut self) -> (r: u64)
        requires
            old(self)@ < u64::MAX,
        ensures
            r == ticked(old(self)@ as nat),
            final(self)@ == r,
    {
        self.counter = self.counter + 1;
        self.counter
    }

    /// Advances past a remote time and returns the new time.
    pub fn witness(&mut self, remote_ts: u64) -> (r: u64)
        requires
            old(self)@ < u64::MAX,
            remote_ts < u64::MAX,
        ensures
            r == witnessed(old(self)@ as nat, remote_ts as nat),
            final(self)@ == r,
    {
        if self.counter >= remote_ts {
            self.counter = self.counter + 1;
        } else {
            self.counter = remote_ts + 1;
        }
        self.counter
    }

    /// The current time.
    pub fn now(&self) -> (r: u64)
        ensures
            r == self@,
    {
        self.counter
    }

    /// Sets the clock back to zero.
    pub fn reset(&mut self)
        ensures
            final(self)@ == 0,
    {
        self.counter = 0;
    }
}

impl Default for LamportClock {
    fn default() -> (r: Self)
        ensures
            r@ == 0,
    {
        Self::new()
    }
}

/// The time of a clock after a local event.
pub open spec fn ticked(local: nat) -> nat {
    local + 1
}

/// The time of a clock after receiving an event stamped `remote`.
pub open spec fn witnessed(local: nat, remote: nat) -> nat {
    (num::max(local as int, remote as int) + 1) as nat
}

/// Sending stamps an event with the sender's ticked time, and the receiver's time afterwards is
/// later than that stamp and than its own time before: an event comes after its causes.
pub proof fn causal_order(sender: nat, receiver: nat)
    ensures
        ticked(sender) > sender,
        witnessed(receiver, ticked(sender)) > ticked(sender),
        witnessed(receiver, ticked(sender)) > receiver,
{
}

/// Generator of strictly increasing sequence numbers.
#[derive(Debug)]
pub struct SequenceGenerator {
    next: u64,
}

impl View for SequenceGenerator {
    type V = u64;

    closed spec fn view(&self) -> u64 {
        self.next
    }
}

impl SequenceGenerator {
    /// A generator whose first number is one.
    pub fn new() -> (r: Self)
        ensures
            r@ == 1,
    {
        SequenceGenerator { next: 1 }
    }

    /// A generator whose first number is `start`.
    pub fn from(start: u64) -> (r: Self)
        ensures
            r@ == start,
    {
        SequenceGenerator { next: start }
    }

    /// Returns the next number and advances; after the largest number it starts over at zero.
    pub fn next(&mut self) -> (r: u64)
        ensures
            r == old(self)@,
            final(self)@ == (if r < u64::MAX {
                r + 1
            } else {
                0
            }),
    {
        let current: u64 = self.next;
        self.next = if current < u64::MAX {
            current + 1
        } else {
            0
        };
        current
    }

    /// The next number, without advancing.
    pub fn peek(&self) -> (r: u64)
        ensures
            r == self@,
    {
        self.next
    }
}

impl Default for SequenceGenerator {
    fn default() -> (r: Self)
        ensures
            r@ == 1,
    {
        Self::new()
    }
}

/// Where the wall clock takes its time from.
#[derive(Debug, Clone, Copy, PartialEq, Eq, Structural)]
pub enum ClockMode {
    /// The clock of the machine.
    Live,
    /// Timestamps set from the event log.
    Replay,
}

/// Clock that can be switched between live and replayed time.
#[derive(Debug)]
pub struct WallClock {
    mode: ClockMode,
    replay_time: u64,
}

/// The time of `std::time::SystemTime::now` in nanoseconds since the Unix epoch, cut to 64
/// bits, or zero before the epoch. It depends on the machine, so nothing is claimed of it.
#[verifier::external_body]
fn system_nanos() -> (r: u64) {
    std::time::SystemTime::now().duration_since(std::time::UNIX_EPOCH).unwrap_or_default().as_nanos()
        as u64
}

impl WallClock {
    /// Where the time comes from.
    pub closed spec fn source(&self) -> ClockMode {
        self.mode
    }

    /// The time that was last set.
    pub closed spec fn replayed(&self) -> u64 {
        self.replay_time
    }

    /// A clock that shows the machine's time.
    pub fn live() -> (r: Self)
        ensures
            r.source() == ClockMode::Live,
            r.replayed() == 0,
    {
        WallClock { mode: ClockMode::Live, replay_time: 0 }
    }

    /// A clock that shows the time that was last set.
    pub fn replay() -> (r: Self)
        ensures
            r.source() == ClockMode::Replay,
            r.replayed() == 0,
    {
        WallClock { mode: ClockMode::Replay, replay_time: 0 }
    }

    /// The current time in nanoseconds. In replay this is the time that was last set; live, it
    /// is the machine's.
    pub fn now_nanos(&self) -> (r: u64)
        ensures
            self.source() == ClockMode::Replay ==> r == self.replayed(),
    {
        match self.mode {
            ClockMode::Live => system_nanos(),
            ClockMode::Replay => self.replay_time,
        }
    }

    /// Sets the replayed time.
    pub fn set_replay_time(&mut self, nanos: u64)
        ensures
            final(self).replayed() == nanos,
            final(self).source() == old(self).source(),
    {
        self.replay_time = nanos;
    }
}

/// The clock moves to the least time that is later than what it was and than what it was told.
pub proof fn clocks_move_no_further_than_needed(local: nat, remote: nat, later: nat)
    requires
        later > local,
    ensures
        ticked(local) <= later,
        later > remote ==> witnessed(local, remote) <= later,
        witnessed(local, remote) > local,
        witnessed(local, remote) > remote,
        ticked(local) > local,
{
}

} // verus!
