//! Replay of recorded events.
use vstd::prelude::*;

use crate::event::{Event, EventView};
use crate::num;

verus! {

/// How fast events are replayed.
#[derive(Debug, Clone, Copy, PartialEq, Eq, Structural)]
pub enum ReplaySpeed {
    /// As fast as possible.
    Maximum,
    /// At the speed of the original timestamps.
    RealTime,
    /// At a multiple of that speed, given as the bits of an IEEE 754 double.
    Multiplier(u64),
}

/// Hands out recorded events in order.
pub struct ReplayPlayer {
    current_index: usize,
    events: Vec<Event>,
    speed: ReplaySpeed,
}

impl ReplayPlayer {
    /// All events.
    pub closed spec fn recorded(&self) -> Seq<EventView> {
        self.events.deep_view()
    }

    /// How many events were handed out or skipped.
    pub closed spec fn index(&self) -> nat {
        self.current_index as nat
    }

    /// How fast events are replayed.
    pub closed spec fn pace(&self) -> ReplaySpeed {
        self.speed
    }

    /// The position is within the events or just behind them.
    pub open spec fn wf(&self) -> bool {
        self.index() <= self.recorded().len()
    }

    /// A player at the first of the given events.
    pub fn from_events(events: Vec<Event>) -> (r: Self)
        ensures
            r.wf(),
            r.recorded() == events.deep_view(),
            r.index() == 0,
            r.pace() == ReplaySpeed::Maximum,
    {
        ReplayPlayer { current_index: 0, events, speed: ReplaySpeed::Maximum }
    }

    /// Sets how fast events are replayed.
    pub fn set_speed(&mut self, speed: ReplaySpeed)
        requires
            old(self).wf(),
        ensures
            final(self).wf(),
            final(self).pace() == speed,
            final(self).recorded() == old(self).recorded(),
            final(self).index() == old(self).index(),
    {
        self.speed = speed;
    }

    /// The next event, without advancing.
    pub fn peek(&self) -> (r: Option<&Event>)
        requires
            self.wf(),
        ensures
            match r {
                Some(event) => self.index() < self.recorded().len() && event@
                    == self.recorded()[self.index() as int],
                None => self.index() >= self.recorded().len(),
            },
    {
        if self.current_index < self.events.len() {
            Some(&self.events[self.current_index])
        } else {
            None
        }
    }

    /// The next event; advances past it.
    pub fn next(&mut self) -> (r: Option<&Event>)
        requires
            old(self).wf(),
        ensures
            final(self).wf(),
            final(self).recorded() == old(self).recorded(),
            final(self).pace() == old(self).pace(),
            match r {
                Some(event) => {
                    &&& old(self).index() < old(self).recorded().len()
                    &&& event@ == old(self).recorded()[old(self).index() as int]
                    &&& final(self).index() == old(self).index() + 1
                },
                None => {
                    &&& old(self).index() >= old(self).recorded().len()
                    &&& final(self).index() == old(self).index()
                },
            },
    {
        if self.current_index < self.events.len() {
            let at: usize = self.current_index;
            self.current_index = at + 1;
            Some(&self.events[at])
        } else {
            None
        }
    }

    /// Goes to the first event whose sequence number is at least `seq`, or behind the last.
    pub fn seek_to_seq(&mut self, seq: u64)
        requires
            old(self).wf(),
        ensures
            final(self).wf(),
            final(self).recorded() == old(self).recorded(),
            final(self).pace() == old(self).pace(),
            final(self).index() <= old(self).recorded().len(),
            forall|i: int|
                0 <= i < final(self).index() ==> (#[trigger] old(self).recorded()[i]).seq < seq,
            final(self).index() < old(self).recorded().len() ==> old(
                self,
            ).recorded()[final(self).index() as int].seq >= seq,
    {
        let mut i: usize = 0;
        let ghost s = self.events.deep_view();
        while i < self.events.len() && self.events[i].seq < seq
            invariant
                s == self.events.deep_view(),
                i <= self.events@.len(),
                forall|k: int| 0 <= k < i ==> (#[trigger] s[k]).seq < seq,
            decreases self.events.len() - i,
        {
            assert(s[i as int] == self.events@[i as int]@);
            i += 1;
        }
        self.current_index = i;
    }

    /// Goes back to the first event.
    pub fn reset(&mut self)
        requires
            old(self).wf(),
        ensures
            final(self).wf(),
            final(self).index() == 0,
            final(self).recorded() == old(self).recorded(),
            final(self).pace() == old(self).pace(),
    {
        self.current_index = 0;
    }

    /// The next `n` events, or as many as are left; advances past them.
    pub fn next_batch(&mut self, n: usize) -> (r: Vec<&Event>)
        requires
            old(self).wf(),
            old(self).index() + n <= usize::MAX,
        ensures
            final(self).wf(),
            final(self).recorded() == old(self).recorded(),
            final(self).pace() == old(self).pace(),
            final(self).index() == num::min(
                old(self).index() + n,
                old(self).recorded().len() as int,
            ),
            r.deep_view() == old(self).recorded().subrange(
                old(self).index() as int,
                final(self).index() as int,
            ),
    {
        let start: usize = self.current_index;
        let end: usize = if start + n < self.events.len() {
            start + n
        } else {
            self.events.len()
        };
        self.current_index = end;
        let mut out: Vec<&Event> = Vec::new();
        let mut i: usize = start;
        while i < end
            invariant
                start <= i <= end <= self.events@.len(),
                out@.len() == i - start,
                forall|k: int| 0 <= k < i - start ==> *(#[trigger] out@[k]) == self.events@[start + k],
            decreases end - i,
        {
            out.push(&self.events[i]);
            i += 1;
        }
        assert(out.deep_view() =~= self.recorded().subrange(start as int, end as int));
        out
    }

    /// How many events there are.
    pub fn total_events(&self) -> (r: usize)
        requires
            self.wf(),
        ensures
            r == self.recorded().len(),
    {
        self.events.len()
    }

    /// How many events were handed out or skipped.
    pub fn position(&self) -> (r: usize)
        requires
            self.wf(),
        ensures
            r == self.index(),
    {
        self.current_index
    }

    /// Whether all events were handed out or skipped.
    pub fn is_done(&self) -> (r: bool)
        requires
            self.wf(),
        ensures
            r == (self.index() >= self.recorded().len()),
    {
        self.current_index >= self.events.len()
    }
}

} // verus!
