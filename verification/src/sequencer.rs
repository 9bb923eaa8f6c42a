//! Assignment of global sequence numbers.
use std::collections::VecDeque;

use vstd::prelude::*;

use crate::clock::SequenceGenerator;
use crate::event::{Event, EventView};

verus! {

/// Assigns increasing sequence numbers and keeps a bounded buffer of the events.
pub struct EventSequencer {
    seq_gen: SequenceGenerator,
    buffer: VecDeque<Event>,
    max_buffer_size: usize,
}

/// The buffer after one more event, where it keeps `limit` events: the oldest one leaves a full
/// buffer.
pub open spec fn buffered_after(buffer: Seq<EventView>, limit: nat, event: EventView) -> Seq<
    EventView,
> {
    (if buffer.len() >= limit && buffer.len() > 0 {
        buffer.skip(1)
    } else {
        buffer
    }).push(event)
}

/// Whether events have consecutive numbers, of which the last is the one before `next`.
pub open spec fn consecutive(buffer: Seq<EventView>, next: u64) -> bool {
    forall|i: int|
        0 <= i < buffer.len() ==> (#[trigger] buffer[i]).seq == next - buffer.len() + i
}

/// Buffered events keep consecutive numbers, up to the largest number.
pub proof fn numbers_are_consecutive(
    buffer: Seq<EventView>,
    next: u64,
    limit: nat,
    event: EventView,
)
    requires
        consecutive(buffer, next),
        next < u64::MAX,
    ensures
        consecutive(
            buffered_after(buffer, limit, EventView { seq: next, ..event }),
            (next + 1) as u64,
        ),
{
}

impl EventSequencer {
    /// The number that the next event gets.
    pub closed spec fn next_seq(&self) -> u64 {
        self.seq_gen@
    }

    /// The buffered events, oldest first.
    pub closed spec fn buffered(&self) -> Seq<EventView> {
        self.buffer@.map_values(|e: Event| e@)
    }

    /// How many events are kept.
    pub closed spec fn limit(&self) -> nat {
        self.max_buffer_size as nat
    }

    /// A sequencer whose first number is one, which keeps the given number of events.
    pub fn new(max_buffer_size: usize) -> (r: Self)
        ensures
            r.next_seq() == 1,
            r.buffered() == Seq::<EventView>::empty(),
            r.limit() == max_buffer_size,
    {
        let r = EventSequencer {
            seq_gen: SequenceGenerator::new(),
            buffer: VecDeque::with_capacity(max_buffer_size),
            max_buffer_size,
        };
        assert(r.buffered() =~= Seq::empty());
        r
    }

    /// Gives an event the next number and buffers it; where the buffer is full the oldest event
    /// leaves it.
    pub fn sequence(&mut self, event: Event) -> (r: u64)
        ensures
            r == old(self).next_seq(),
            final(self).next_seq() == (if r < u64::MAX {
                r + 1
            } else {
                0
            }),
            final(self).limit() == old(self).limit(),
            final(self).buffered() == buffered_after(
                old(self).buffered(),
                old(self).limit(),
                EventView { seq: r, ..event@ },
            ),
    {
        let seq: u64 = self.seq_gen.next();
        let mut event = event;
        event.seq = seq;
        let ghost before = self.buffered();
        if self.buffer.len() >= self.max_buffer_size {
            let _ = self.buffer.pop_front();
        }
        let ghost kept = self.buffered();
        assert(kept =~= (if before.len() >= self.limit() && before.len() > 0 {
            before.skip(1)
        } else {
            before
        }));
        self.buffer.push_back(event);
        assert(self.buffered() =~= kept.push(event@));
        seq
    }

    /// Takes all buffered events out, in order.
    pub fn drain(&mut self) -> (r: Vec<Event>)
        ensures
            r.deep_view() == old(self).buffered(),
            final(self).buffered() == Seq::<EventView>::empty(),
            final(self).next_seq() == old(self).next_seq(),
            final(self).limit() == old(self).limit(),
    {
        let ghost all = self.buffered();
        let mut out: Vec<Event> = Vec::new();
        assert(out.deep_view() + self.buffered() =~= all);
        while self.buffer.len() > 0
            invariant
                out.deep_view() + self.buffered() == all,
                self.seq_gen == old(self).seq_gen,
                self.max_buffer_size == old(self).max_buffer_size,
            decreases self.buffer@.len(),
        {
            let ghost taken = out.deep_view();
            let ghost left = self.buffered();
            if let Some(event) = self.buffer.pop_front() {
                let ghost e = event@;
                out.push(event);
                assert(out.deep_view() =~= taken.push(e));
                assert(self.buffered() =~= left.skip(1));
                assert(left =~= seq![e] + left.skip(1));
                assert(taken.push(e) + left.skip(1) =~= taken + left);
            }
        }
        assert(self.buffered() =~= Seq::empty());
        assert(out.deep_view() =~= all);
        out
    }

    /// The oldest buffered event.
    pub fn peek(&self) -> (r: Option<&Event>)
        ensures
            match r {
                Some(event) => self.buffered().len() > 0 && event@ == self.buffered()[0],
                None => self.buffered().len() == 0,
            },
    {
        if self.buffer.len() > 0 {
            Some(&self.buffer[0])
        } else {
            None
        }
    }

    /// How many events are buffered.
    pub fn len(&self) -> (r: usize)
        ensures
            r == self.buffered().len(),
    {
        self.buffer.len()
    }

    /// Whether no event is buffered.
    pub fn is_empty(&self) -> (r: bool)
        ensures
            r == (self.buffered().len() == 0),
    {
        self.buffer.len() == 0
    }

    /// The number that the last event got, or zero before the first.
    pub fn current_seq(&self) -> (r: u64)
        requires
            self.next_seq() > 0,
        ensures
            r == self.next_seq() - 1,
    {
        self.seq_gen.peek() - 1
    }
}

/// The newest event is always kept, last; the others keep their order, and where the buffer is full
/// just the oldest goes.
pub proof fn full_buffers_drop_the_oldest(buffer: Seq<EventView>, limit: nat, event: EventView)
    ensures
        ({
            let after = buffered_after(buffer, limit, event);
            &&& after.last() == event
            &&& buffer.len() < limit ==> after == buffer.push(event)
            &&& buffer.len() >= limit && buffer.len() > 0 ==> after.len() == buffer.len()
                && forall|i: int| 0 < i < buffer.len() ==> after[i - 1] == #[trigger] buffer[i]
            &&& buffer.len() <= limit && limit > 0 ==> after.len() <= limit
        }),
{
}

} // verus!
