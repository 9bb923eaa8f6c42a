//! Append-only event log: frames of a 4-byte little-endian length and an encoded event.
use vstd::bytes::*;
use vstd::prelude::*;

use crate::codec;
use crate::codec::Wire;
use crate::event::{Event, EventView};

verus! {

/// The frame of an event: the length of its encoding as an unsigned 32-bit integer, then the
/// encoding.
pub open spec fn frame(event: EventView) -> Seq<u8> {
    spec_u32_to_le_bytes(Event::enc(event).len() as u32) + Event::enc(event)
}

/// The frames of a list of events, one after the other.
pub open spec fn frames(events: Seq<EventView>) -> Seq<u8>
    decreases events.len(),
{
    if events.len() == 0 {
        Seq::empty()
    } else {
        frame(events[0]) + frames(events.skip(1))
    }
}

/// Whether an event's frame can say how long it is.
pub open spec fn frameable(event: EventView) -> bool {
    Event::fits(event) && Event::enc(event).len() <= u32::MAX
}

/// Why the bytes of a log cannot be read.
#[derive(Debug)]
pub enum LogError {
    /// The last frame is longer than what is left of the log.
    UnexpectedEof,
    /// A frame does not hold an event; the decoder's words.
    InvalidData(String),
}

/// Which of the errors it is.
pub enum LogFault {
    UnexpectedEof,
    InvalidData,
}

impl LogError {
    /// Which of the errors it is.
    pub open spec fn fault(&self) -> LogFault {
        match self {
            LogError::UnexpectedEof => LogFault::UnexpectedEof,
            LogError::InvalidData(_) => LogFault::InvalidData,
        }
    }
}

/// The events in the bytes of a log. Fewer than four bytes at the end are ignored.
pub open spec fn parsed(s: Seq<u8>) -> Result<Seq<EventView>, LogFault>
    decreases s.len(),
{
    if s.len() < 4 {
        Ok(Seq::empty())
    } else {
        let n = spec_u32_from_le_bytes(s.take(4)) as int;
        if n > s.len() - 4 {
            Err(LogFault::UnexpectedEof)
        } else {
            match Event::dec(s.subrange(4, 4 + n)) {
                None => Err(LogFault::InvalidData),
                Some((event, _)) => match parsed(s.skip(4 + n)) {
                    Err(fault) => Err(fault),
                    Ok(events) => Ok(seq![event] + events),
                },
            }
        }
    }
}

/// Reading a log gives back, in order, the events that were appended to it, also when the last
/// append was cut off within its length field.
pub proof fn log_round_trip(events: Seq<EventView>, cut: Seq<u8>)
    requires
        forall|i: int| 0 <= i < events.len() ==> frameable(#[trigger] events[i]),
        cut.len() < 4,
    ensures
        parsed(frames(events) + cut) == Ok::<Seq<EventView>, LogFault>(events),
    decreases events.len(),
{
    if events.len() == 0 {
        assert(frames(events) + cut =~= cut);
        assert(events =~= Seq::empty());
    } else {
        let e = events[0];
        let tail = events.skip(1);
        assert forall|i: int| 0 <= i < tail.len() implies frameable(#[trigger] tail[i]) by {
            assert(tail[i] == events[i + 1]);
        }
        log_round_trip(tail, cut);
        assert(frameable(events[0]));
        lemma_auto_spec_u32_to_from_le_bytes();
        let head = spec_u32_to_le_bytes(Event::enc(e).len() as u32);
        let n = Event::enc(e).len() as int;
        let s = frames(events) + cut;
        assert(s.take(4) =~= head);
        assert(s.subrange(4, 4 + n) =~= Event::enc(e));
        assert(s.skip(4 + n) =~= frames(tail) + cut);
        codec::decode_encode::<Event>(e, Seq::empty());
        assert(seq![e] + tail =~= events);
    }
}

/// Appending to a log appends to what is read from it.
pub proof fn frames_concat(first: Seq<EventView>, second: Seq<EventView>)
    ensures
        frames(first + second) == frames(first) + frames(second),
    decreases first.len(),
{
    if first.len() == 0 {
        assert(first + second =~= second);
        assert(frames(first) + frames(second) =~= frames(second));
    } else {
        frames_concat(first.skip(1), second);
        assert((first + second).skip(1) =~= first.skip(1) + second);
        assert(frames(first + second) =~= frames(first) + frames(second));
    }
}

/// The events with a sequence number in a range.
pub open spec fn in_range(events: Seq<EventView>, from_seq: u64, to_seq: u64) -> Seq<EventView> {
    events.filter(|e: EventView| from_seq <= e.seq <= to_seq)
}

/// Append-only event log.
///
/// Appended frames gather in a buffer until they are handed over to be written to the file.
pub struct EventLog {
    writable: bool,
    path: String,
    event_count: u64,
    pending: Vec<u8>,
}

impl EventLog {
    /// Whether events can be appended.
    pub closed spec fn is_writable(&self) -> bool {
        self.writable
    }

    /// The path of the file.
    pub closed spec fn file(&self) -> Seq<char> {
        self.path@
    }

    /// How many events were appended.
    pub closed spec fn count(&self) -> u64 {
        self.event_count
    }

    /// The bytes that wait to be written.
    pub closed spec fn buffered(&self) -> Seq<u8> {
        self.pending@
    }

    /// A log for appending to a file.
    pub fn open(path: &str) -> (r: Self)
        ensures
            r.is_writable(),
            r.file() == path@,
            r.count() == 0,
            r.buffered() == Seq::<u8>::empty(),
    {
        EventLog { writable: true, path: path.to_owned(), event_count: 0, pending: Vec::new() }
    }

    /// A log for reading a file.
    pub fn read_only(path: &str) -> (r: Self)
        ensures
            !r.is_writable(),
            r.file() == path@,
            r.count() == 0,
            r.buffered() == Seq::<u8>::empty(),
    {
        EventLog { writable: false, path: path.to_owned(), event_count: 0, pending: Vec::new() }
    }

    /// Appends the frame of an event to the bytes that wait to be written.
    pub fn append(&mut self, event: &Event) -> (r: Result<(), String>)
        requires
            old(self).count() < u64::MAX,
        ensures
            final(self).is_writable() == old(self).is_writable(),
            final(self).file() == old(self).file(),
            match r {
                Ok(_) => {
                    &&& old(self).is_writable()
                    &&& final(self).buffered() == old(self).buffered() + frame(event@)
                    &&& final(self).count() == old(self).count() + 1
                    &&& Event::fits(event@)
                },
                Err(e) => {
                    &&& !old(self).is_writable()
                    &&& e@ == "log is read-only"@
                    &&& final(self).buffered() == old(self).buffered()
                    &&& final(self).count() == old(self).count()
                },
            },
    {
        if !self.writable {
            return Err("log is read-only".to_owned());
        }
        let ghost before = self.pending@;
        let mut encoded: Vec<u8> = codec::encode(event);
        let mut length: Vec<u8> = u32_to_le_bytes(encoded.len() as u32);
        self.pending.append(&mut length);
        self.pending.append(&mut encoded);
        self.event_count = self.event_count + 1;
        assert(self.pending@ =~= before + frame(event@));
        Ok(())
    }

    /// How many bytes wait to be written.
    pub fn pending_len(&self) -> (r: usize)
        ensures
            r == self.buffered().len(),
    {
        self.pending.len()
    }

    /// Hands over the bytes that wait to be written.
    pub fn flush(&mut self) -> (r: Vec<u8>)
        ensures
            r@ == old(self).buffered(),
            final(self).buffered() == Seq::<u8>::empty(),
            final(self).is_writable() == old(self).is_writable(),
            final(self).file() == old(self).file(),
            final(self).count() == old(self).count(),
    {
        let mut out: Vec<u8> = Vec::new();
        out.append(&mut self.pending);
        assert(out@ =~= old(self).buffered());
        out
    }

    /// Reads all events from the bytes of a log file.
    pub fn read_all(data: &[u8]) -> (r: Result<Vec<Event>, LogError>)
        ensures
            match (r, parsed(data@)) {
                (Ok(events), Ok(views)) => events.deep_view() == views,
                (Err(e), Err(fault)) => e.fault() == fault,
                _ => false,
            },
    {
        let mut events: Vec<Event> = Vec::new();
        let mut pos: usize = 0;
        assert(data@.skip(0) =~= data@);
        assert(events.deep_view() =~= Seq::empty());
        proof {
            if parsed(data@) is Ok {
                assert(Seq::<EventView>::empty() + parsed(data@)->Ok_0 =~= parsed(data@)->Ok_0);
            }
        }
        while data.len() - pos >= 4
            invariant
                pos <= data@.len(),
                match parsed(data@.skip(pos as int)) {
                    Ok(rest) => parsed(data@) == Ok::<Seq<EventView>, LogFault>(
                        events.deep_view() + rest,
                    ),
                    Err(fault) => parsed(data@) == Err::<Seq<EventView>, LogFault>(fault),
                },
            decreases data.len() - pos,
        {
            let ghost s = data@.skip(pos as int);
            let ghost before = events.deep_view();
            let n: usize = u32_from_le_bytes(
                vstd::slice::slice_subrange(data, pos, pos + 4),
            ) as usize;
            assert(data@.subrange(pos as int, pos + 4) =~= s.take(4));
            if n > data.len() - pos - 4 {
                return Err(LogError::UnexpectedEof);
            }
            let start: usize = pos + 4;
            let end: usize = start + n;
            assert(data@.subrange(start as int, end as int) =~= s.subrange(4, 4 + n as int));
            assert(data@.skip(end as int) =~= s.skip(4 + n as int));
            let decoded: Result<Event, String> = codec::decode(
                vstd::slice::slice_subrange(data, start, end),
            );
            match decoded {
                Err(e) => {
                    return Err(LogError::InvalidData(e));
                },
                Ok(event) => {
                    let ghost e = event@;
                    events.push(event);
                    proof {
                        assert(events.deep_view() =~= before.push(e));
                        if let Ok(rest) = parsed(data@.skip(end as int)) {
                            assert(before + (seq![e] + rest) =~= before.push(e) + rest);
                        }
                    }
                },
            }
            pos = end;
        }
        assert(events.deep_view() + Seq::<EventView>::empty() =~= events.deep_view());
        Ok(events)
    }

    /// Reads the events with a sequence number from `from_seq` to `to_seq`, both included.
    pub fn read_range(data: &[u8], from_seq: u64, to_seq: u64) -> (r: Result<
        Vec<Event>,
        LogError,
    >)
        ensures
            match (r, parsed(data@)) {
                (Ok(events), Ok(views)) => events.deep_view() == in_range(views, from_seq, to_seq),
                (Err(e), Err(fault)) => e.fault() == fault,
                _ => false,
            },
    {
        match Self::read_all(data) {
            Err(e) => Err(e),
            Ok(all) => Ok(select_range(&all, from_seq, to_seq)),
        }
    }

    /// How many events were appended.
    pub fn event_count(&self) -> (r: u64)
        ensures
            r == self.count(),
    {
        self.event_count
    }

    /// The path of the file.
    pub fn path(&self) -> (r: &str)
        ensures
            r@ == self.file(),
    {
        self.path.as_str()
    }
}

/// The events with a sequence number from `from_seq` to `to_seq`, both included.
pub fn select_range(events: &Vec<Event>, from_seq: u64, to_seq: u64) -> (r: Vec<Event>)
    ensures
        r.deep_view() == in_range(events.deep_view(), from_seq, to_seq),
{
    let ghost s = events.deep_view();
    let ghost p = |e: EventView| from_seq <= e.seq <= to_seq;
    let mut out: Vec<Event> = Vec::new();
    let mut i: usize = 0;
    proof {
        assert(s.take(0) =~= Seq::empty());
        reveal(Seq::filter);
        assert(out.deep_view() =~= Seq::empty());
    }
    while i < events.len()
        invariant
            s == events.deep_view(),
            p == (|e: EventView| from_seq <= e.seq <= to_seq),
            i <= events@.len(),
            out.deep_view() == s.take(i as int).filter(p),
        decreases events.len() - i,
    {
        let ghost kept = out.deep_view();
        assert(s[i as int] == events@[i as int]@);
        proof {
            reveal(Seq::filter);
            assert(s.take(i + 1).drop_last() =~= s.take(i as int));
            assert(s.take(i + 1).last() == s[i as int]);
        }
        if events[i].seq >= from_seq && events[i].seq <= to_seq {
            out.push(events[i].clone());
            assert(out.deep_view() =~= kept.push(s[i as int]));
        }
        i += 1;
    }
    assert(s.take(i as int) =~= s);
    out
}

/// A frame starts with the length of what follows, the least significant byte first.
pub proof fn frames_start_with_their_length(event: EventView)
    requires
        frameable(event),
    ensures
        ({
            let f = frame(event);
            &&& f.len() >= 4
            &&& spec_u32_from_le_bytes(f.take(4)) == f.len() - 4
            &&& f.skip(4) == Event::enc(event)
        }),
{
    let n = Event::enc(event).len() as u32;
    lemma_auto_spec_u32_to_from_le_bytes();
    let f = frame(event);
    assert(f.skip(4) =~= Event::enc(event));
    assert(f.take(4) =~= spec_u32_to_le_bytes(n));
}

/// A log whose last frame is cut off cannot be read, however many whole ones precede it.
pub proof fn cut_frames_are_noticed(events: Seq<EventView>, event: EventView, n: int)
    requires
        forall|i: int| 0 <= i < events.len() ==> frameable(#[trigger] events[i]),
        frameable(event),
        4 <= n < frame(event).len(),
    ensures
        parsed(frames(events) + frame(event).take(n)) == Err::<Seq<EventView>, LogFault>(
            LogFault::UnexpectedEof,
        ),
    decreases events.len(),
{
    let rest = frame(event).take(n);
    lemma_auto_spec_u32_to_from_le_bytes();
    if events.len() == 0 {
        let s = frames(events) + rest;
        assert(s =~= rest);
        assert(s.take(4) =~= spec_u32_to_le_bytes(Event::enc(event).len() as u32));
    } else {
        let first = events[0];
        let size = Event::enc(first).len();
        let s = frames(events) + rest;
        cut_frames_are_noticed(events.skip(1), event, n);
        assert(s.take(4) =~= spec_u32_to_le_bytes(size as u32));
        assert(s.subrange(4, 4 + size as int) =~= Event::enc(first));
        assert(s.skip(4 + size as int) =~= frames(events.skip(1)) + rest);
        codec::decode_encode::<Event>(first, Seq::empty());
    }
}

/// A range of sequence numbers holds both its ends, and what it leaves keeps its order.
pub proof fn ranges_are_inclusive(events: Seq<EventView>, event: EventView, from: u64, to: u64)
    ensures
        in_range(Seq::empty(), from, to).len() == 0,
        in_range(events.push(event), from, to) == (if event.seq < from || event.seq > to {
            in_range(events, from, to)
        } else {
            in_range(events, from, to).push(event)
        }),
{
    reveal(Seq::filter);
    assert(events.push(event).drop_last() =~= events);
    assert(in_range(Seq::empty(), from, to) =~= Seq::empty());
}

} // verus!
