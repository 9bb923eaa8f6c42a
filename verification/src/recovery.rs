//! Crash recovery: snapshot files, the plan made on startup, and deduplication of events.
use std::collections::HashSet;
use vstd::prelude::*;
use vstd::string::*;

use crate::codec;
use crate::codec::Wire;
use crate::event::{Event, EventView};
use crate::log;
use crate::log::{EventLog, LogError, LogFault};
use crate::snapshot::{EngineSnapshot, EngineSnapshotView};
use crate::text;

verus! {

/// What to do on startup.
#[derive(Debug)]
pub struct RecoveryPlan {
    /// The latest snapshot, if there is one.
    pub snapshot: Option<EngineSnapshot>,
    /// Events of the log that are to be replayed after the snapshot.
    pub events_to_replay: Vec<Event>,
    /// Whether missing events have to be requested from peers.
    pub need_peer_sync: bool,
    /// Where the missing events begin, if there are any.
    pub sync_from_seq: u64,
    /// The sequence number that follows.
    pub expected_next_seq: u64,
}

/// The contents of a [`RecoveryPlan`].
#[verifier::ext_equal]
pub struct RecoveryPlanView {
    pub snapshot: Option<EngineSnapshotView>,
    pub events_to_replay: Seq<EventView>,
    pub need_peer_sync: bool,
    pub sync_from_seq: u64,
    pub expected_next_seq: u64,
}

impl View for RecoveryPlan {
    type V = RecoveryPlanView;

    open spec fn view(&self) -> RecoveryPlanView {
        RecoveryPlanView {
            snapshot: self.snapshot.deep_view(),
            events_to_replay: self.events_to_replay.deep_view(),
            need_peer_sync: self.need_peer_sync,
            sync_from_seq: self.sync_from_seq,
            expected_next_seq: self.expected_next_seq,
        }
    }
}

/// The sequence number of a snapshot, or zero without one.
pub open spec fn snapshot_seq(snapshot: Option<EngineSnapshotView>) -> u64 {
    match snapshot {
        Some(s) => s.seq,
        None => 0,
    }
}

/// The events behind a sequence number.
pub open spec fn behind(events: Seq<EventView>, seq: u64) -> Seq<EventView> {
    events.filter(|e: EventView| e.seq > seq)
}

/// Where the first missing event of a list would be, counted from the second event on.
pub open spec fn inner_gap(events: Seq<EventView>) -> Option<int>
    decreases events.len(),
{
    if events.len() < 2 {
        None
    } else {
        match inner_gap(events.drop_last()) {
            Some(seq) => Some(seq),
            None => if events.last().seq != events[events.len() - 2].seq + 1 {
                Some(events[events.len() - 2].seq + 1)
            } else {
                None
            },
        }
    }
}

/// Where the first missing event is, when events should begin at `start`.
pub open spec fn first_gap(events: Seq<EventView>, start: int) -> Option<int> {
    if events.len() > 0 && events[0].seq > start {
        Some(start)
    } else {
        inner_gap(events)
    }
}

/// The plan for a snapshot and the events of a log.
pub open spec fn plan_for(
    snapshot: Option<EngineSnapshotView>,
    events: Seq<EventView>,
) -> RecoveryPlanView {
    let base = snapshot_seq(snapshot);
    let replay = behind(events, base);
    let gap = first_gap(replay, base + 1);
    RecoveryPlanView {
        snapshot,
        events_to_replay: replay,
        need_peer_sync: gap is Some,
        sync_from_seq: match gap {
            Some(seq) => seq as u64,
            None => 0,
        },
        expected_next_seq: if replay.len() == 0 {
            (base + 1) as u64
        } else {
            (replay.last().seq + 1) as u64
        },
    }
}

/// Whether every sequence number has a successor.
pub open spec fn seqs_have_successors(
    snapshot: Option<EngineSnapshotView>,
    events: Seq<EventView>,
) -> bool {
    &&& snapshot_seq(snapshot) < u64::MAX
    &&& forall|i: int| 0 <= i < events.len() ==> (#[trigger] events[i]).seq < u64::MAX
}

/// A plan that asks for no events from peers replays every event from the snapshot on, in order
/// and without a gap.
pub proof fn plan_without_sync_is_complete(
    snapshot: Option<EngineSnapshotView>,
    events: Seq<EventView>,
    i: int,
)
    requires
        !plan_for(snapshot, events).need_peer_sync,
        0 <= i < plan_for(snapshot, events).events_to_replay.len(),
    ensures
        plan_for(snapshot, events).events_to_replay[i].seq == snapshot_seq(snapshot) + 1 + i,
{
    let base = snapshot_seq(snapshot);
    let p = |e: EventView| e.seq > base;
    let replay = behind(events, base);
    lemma_filtered(events, p, 0);
    lemma_no_gap(replay, i);
}

/// A filtered list holds only what the filter lets through.
proof fn lemma_filtered(events: Seq<EventView>, p: spec_fn(EventView) -> bool, i: int)
    requires
        0 <= i < events.filter(p).len(),
    ensures
        p(events.filter(p)[i]),
    decreases events.len(),
{
    reveal(Seq::filter);
    if events.len() > 0 && i < events.drop_last().filter(p).len() {
        lemma_filtered(events.drop_last(), p, i);
    }
}

/// Without a gap the sequence numbers count up by one.
proof fn lemma_no_gap(events: Seq<EventView>, i: int)
    requires
        inner_gap(events) is None,
        0 <= i < events.len(),
    ensures
        events[i].seq == events[0].seq + i,
    decreases events.len(),
{
    if events.len() >= 2 {
        if i < events.len() - 1 {
            lemma_no_gap(events.drop_last(), i);
        } else {
            lemma_no_gap(events.drop_last(), i - 1);
        }
    }
}

/// The plan leaves out exactly the events that the snapshot covers.
pub proof fn plan_keeps_uncovered(
    snapshot: Option<EngineSnapshotView>,
    events: Seq<EventView>,
    event: EventView,
)
    ensures
        plan_for(snapshot, events).events_to_replay.contains(event) <==> events.contains(event)
            && event.seq > snapshot_seq(snapshot),
{
    broadcast use vstd::seq_lib::group_filter_ensures;

    let base = snapshot_seq(snapshot);
    let p = |e: EventView| e.seq > base;
    if events.contains(event) && p(event) {
        lemma_filter_keeps(events, p, event);
    }
    if events.filter(p).contains(event) {
        lemma_filter_origin(events, p, event);
    }
}

/// What a filter lets through stays.
proof fn lemma_filter_keeps(events: Seq<EventView>, p: spec_fn(EventView) -> bool, e: EventView)
    requires
        events.contains(e),
        p(e),
    ensures
        events.filter(p).contains(e),
    decreases events.len(),
{
    reveal(Seq::filter);
    let i = events.index_of(e);
    let rest = events.drop_last().filter(p);
    if events.last() == e {
        assert(rest.push(e)[rest.len() as int] == e);
    } else {
        assert(events.drop_last()[i] == e);
        lemma_filter_keeps(events.drop_last(), p, e);
        let k = rest.index_of(e);
        if p(events.last()) {
            assert(rest.push(events.last())[k] == e);
        }
    }
}

/// What is left was there, and the filter lets it through.
proof fn lemma_filter_origin(events: Seq<EventView>, p: spec_fn(EventView) -> bool, e: EventView)
    requires
        events.filter(p).contains(e),
    ensures
        events.contains(e),
        p(e),
    decreases events.len(),
{
    reveal(Seq::filter);
    if events.len() > 0 {
        let rest = events.drop_last().filter(p);
        let i = events.filter(p).index_of(e);
        if i < rest.len() {
            assert(rest[i] == e);
            lemma_filter_origin(events.drop_last(), p, e);
            let k = events.drop_last().index_of(e);
            assert(events[k] == e);
        } else {
            assert(events[events.len() - 1] == e);
        }
    }
}

/// Why recovery cannot be planned.
#[derive(Debug)]
pub enum RecoveryError {
    /// The snapshot file does not hold a snapshot; the decoder's words.
    InvalidSnapshot(String),
    /// The snapshot's hash is not that of its state.
    HashMismatch,
    /// The event log cannot be read.
    Log(LogError),
    /// A sequence number has no successor.
    SequenceExhausted,
}

/// Which of the errors it is.
pub enum RecoveryFault {
    InvalidSnapshot,
    HashMismatch,
    Log(LogFault),
    SequenceExhausted,
}

impl RecoveryError {
    /// Which of the errors it is.
    pub open spec fn fault(&self) -> RecoveryFault {
        match self {
            RecoveryError::InvalidSnapshot(_) => RecoveryFault::InvalidSnapshot,
            RecoveryError::HashMismatch => RecoveryFault::HashMismatch,
            RecoveryError::Log(e) => RecoveryFault::Log(e.fault()),
            RecoveryError::SequenceExhausted => RecoveryFault::SequenceExhausted,
        }
    }

    /// What the error says.
    pub open spec fn message(&self) -> Seq<char> {
        match self {
            RecoveryError::InvalidSnapshot(words) => words@,
            RecoveryError::HashMismatch => "snapshot hash verification failed"@,
            RecoveryError::Log(LogError::UnexpectedEof) => "failed to fill whole buffer"@,
            RecoveryError::Log(LogError::InvalidData(words)) => words@,
            RecoveryError::SequenceExhausted => "sequence numbers exhausted"@,
        }
    }

    /// What the error says.
    pub fn to_text(&self) -> (r: String)
        ensures
            r@ == self.message(),
    {
        match self {
            RecoveryError::InvalidSnapshot(words) => words.as_str().to_owned(),
            RecoveryError::HashMismatch => "snapshot hash verification failed".to_owned(),
            RecoveryError::Log(LogError::UnexpectedEof) => "failed to fill whole buffer".to_owned(),
            RecoveryError::Log(LogError::InvalidData(words)) => words.as_str().to_owned(),
            RecoveryError::SequenceExhausted => "sequence numbers exhausted".to_owned(),
        }
    }
}

/// The snapshot in the bytes of a snapshot file.
pub open spec fn snapshot_in(data: Seq<u8>) -> Result<EngineSnapshotView, RecoveryFault> {
    match EngineSnapshot::dec(data) {
        None => Err(RecoveryFault::InvalidSnapshot),
        Some((s, _)) => if s.verified() {
            Ok(s)
        } else {
            Err(RecoveryFault::HashMismatch)
        },
    }
}

/// A saved snapshot whose hash is right is loaded as it was.
pub proof fn saved_snapshot_loads(s: EngineSnapshotView)
    requires
        EngineSnapshot::fits(s),
        s.verified(),
    ensures
        snapshot_in(EngineSnapshot::enc(s)) == Ok::<EngineSnapshotView, RecoveryFault>(s),
{
    codec::decode_encode::<EngineSnapshot>(s, Seq::empty());
    assert(EngineSnapshot::enc(s) + Seq::<u8>::empty() =~= EngineSnapshot::enc(s));
}

/// The snapshot of the latest snapshot file, if there is one.
pub open spec fn latest_in(file: Option<Seq<u8>>) -> Result<
    Option<EngineSnapshotView>,
    RecoveryFault,
> {
    match file {
        None => Ok(None),
        Some(data) => match snapshot_in(data) {
            Ok(s) => Ok(Some(s)),
            Err(fault) => Err(fault),
        },
    }
}

/// The events of the log file; none where there is no file.
pub open spec fn events_in(file: Option<Seq<u8>>) -> Result<Seq<EventView>, LogFault> {
    match file {
        None => Ok(Seq::empty()),
        Some(data) => log::parsed(data),
    }
}

/// The plan for the contents of the two files.
pub open spec fn planned(
    snapshot_file: Option<Seq<u8>>,
    log_file: Option<Seq<u8>>,
) -> Result<RecoveryPlanView, RecoveryFault> {
    match latest_in(snapshot_file) {
        Err(fault) => Err(fault),
        Ok(snapshot) => match events_in(log_file) {
            Err(fault) => Err(RecoveryFault::Log(fault)),
            Ok(events) => if seqs_have_successors(
                snapshot,
                behind(events, snapshot_seq(snapshot)),
            ) {
                Ok(plan_for(snapshot, events))
            } else {
                Err(RecoveryFault::SequenceExhausted)
            },
        },
    }
}

/// Names the files of snapshots, reads them, and plans recovery.
pub struct RecoveryCoordinator {
    snapshot_dir: String,
    event_log_path: String,
}

impl RecoveryCoordinator {
    /// The directory of the snapshot files.
    pub closed spec fn dir(&self) -> Seq<char> {
        self.snapshot_dir@
    }

    /// The path of the event log.
    pub closed spec fn log_file(&self) -> Seq<char> {
        self.event_log_path@
    }

    /// A coordinator for a snapshot directory and an event log.
    pub fn new(snapshot_dir: &str, event_log_path: &str) -> (r: Self)
        ensures
            r.dir() == snapshot_dir@,
            r.log_file() == event_log_path@,
    {
        RecoveryCoordinator {
            snapshot_dir: snapshot_dir.to_owned(),
            event_log_path: event_log_path.to_owned(),
        }
    }

    /// The path of the event log.
    pub fn event_log_path(&self) -> (r: &str)
        ensures
            r@ == self.log_file(),
    {
        self.event_log_path.as_str()
    }

    /// The directory of the snapshot files.
    pub fn snapshot_dir(&self) -> (r: &str)
        ensures
            r@ == self.dir(),
    {
        self.snapshot_dir.as_str()
    }

    /// The path of the snapshot at a sequence number.
    pub fn snapshot_path(&self, seq: u64) -> (r: String)
        ensures
            r@ == self.dir() + "/snapshot_"@ + text::decimal(seq as nat) + ".bin"@,
    {
        let mut path = self.snapshot_dir.as_str().to_owned();
        path.append("/snapshot_");
        text::push_u64(&mut path, seq);
        path.append(".bin");
        path
    }

    /// The path of the latest snapshot.
    pub fn latest_path(&self) -> (r: String)
        ensures
            r@ == self.dir() + "/snapshot_latest.bin"@,
    {
        let mut path = self.snapshot_dir.as_str().to_owned();
        path.append("/snapshot_latest.bin");
        path
    }

    /// The path that a file is written to before it is renamed to its own.
    pub fn temporary_path(path: &str) -> (r: String)
        ensures
            r@ == path@ + ".tmp"@,
    {
        let mut out = path.to_owned();
        out.append(".tmp");
        out
    }

    /// The files that save a snapshot, each with the path to write first and the path to rename
    /// that to, and what they hold.
    pub fn save_snapshot(&self, snapshot: &EngineSnapshot) -> (r: (
        Vec<u8>,
        (String, String),
        (String, String),
    ))
        ensures
            EngineSnapshot::fits(snapshot@),
            r.0@ == EngineSnapshot::enc(snapshot@),
            r.1.1@ == self.dir() + "/snapshot_"@ + text::decimal(snapshot.seq as nat) + ".bin"@,
            r.1.0@ == r.1.1@ + ".tmp"@,
            r.2.1@ == self.dir() + "/snapshot_latest.bin"@,
            r.2.0@ == r.2.1@ + ".tmp"@,
    {
        let data: Vec<u8> = codec::encode(snapshot);
        let numbered = self.snapshot_path(snapshot.seq);
        let latest = self.latest_path();
        let numbered_tmp = Self::temporary_path(numbered.as_str());
        let latest_tmp = Self::temporary_path(latest.as_str());
        (data, (numbered_tmp, numbered), (latest_tmp, latest))
    }

    /// The snapshot of the latest snapshot file, if there is one.
    pub fn load_latest_snapshot(&self, file: Option<Vec<u8>>) -> (r: Result<
        Option<EngineSnapshot>,
        RecoveryError,
    >)
        ensures
            match (r, latest_in(file.deep_view())) {
                (Ok(s), Ok(v)) => s.deep_view() == v,
                (Err(e), Err(fault)) => e.fault() == fault,
                _ => false,
            },
    {
        match file {
            None => Ok(None),
            Some(data) => {
                assert(data.deep_view() =~= data@);
                let decoded: Result<EngineSnapshot, String> = codec::decode(data.as_slice());
                match decoded {
                    Err(words) => Err(RecoveryError::InvalidSnapshot(words)),
                    Ok(snapshot) => if snapshot.verify() {
                        Ok(Some(snapshot))
                    } else {
                        Err(RecoveryError::HashMismatch)
                    },
                }
            },
        }
    }

    /// Plans recovery from the latest snapshot file and the event log file, each absent where
    /// there is no such file.
    pub fn plan_recovery(&self, snapshot_file: Option<Vec<u8>>, log_file: Option<Vec<u8>>) -> (r:
        Result<RecoveryPlan, RecoveryError>)
        ensures
            match (r, planned(snapshot_file.deep_view(), log_file.deep_view())) {
                (Ok(plan), Ok(v)) => plan@ == v,
                (Err(e), Err(fault)) => e.fault() == fault,
                _ => false,
            },
    {
        let ghost file = log_file.deep_view();
        let snapshot = match self.load_latest_snapshot(snapshot_file) {
            Err(e) => {
                return Err(e);
            },
            Ok(s) => s,
        };
        let events: Vec<Event> = match log_file {
            None => {
                let none: Vec<Event> = Vec::new();
                assert(none.deep_view() =~= Seq::empty());
                none
            },
            Some(data) => {
                assert(data.deep_view() =~= data@);
                match EventLog::read_all(data.as_slice()) {
                    Err(e) => {
                        return Err(RecoveryError::Log(e));
                    },
                    Ok(all) => all,
                }
            },
        };
        assert(Ok::<Seq<EventView>, LogFault>(events.deep_view()) == events_in(file));
        let base: u64 = match &snapshot {
            Some(s) => s.seq,
            None => 0,
        };
        let events_to_replay = select_behind(&events, base);
        if !have_successors(base, &events_to_replay) {
            return Err(RecoveryError::SequenceExhausted);
        }
        Ok(make_plan(snapshot, events_to_replay))
    }
}

/// The events behind a sequence number.
fn select_behind(events: &Vec<Event>, seq: u64) -> (r: Vec<Event>)
    ensures
        r.deep_view() == behind(events.deep_view(), seq),
{
    let ghost views = events.deep_view();
    let ghost p = |e: EventView| e.seq > seq;
    let mut out: Vec<Event> = Vec::new();
    let mut i: usize = 0;
    proof {
        reveal(Seq::filter);
        assert(views.take(0) =~= Seq::empty());
        assert(out.deep_view() =~= Seq::empty());
    }
    while i < events.len()
        invariant
            i <= events@.len(),
            views == events.deep_view(),
            p == (|e: EventView| e.seq > seq),
            out.deep_view() == views.take(i as int).filter(p),
        decreases events.len() - i,
    {
        let ghost before = out.deep_view();
        proof {
            reveal(Seq::filter);
            assert(views.take(i + 1).drop_last() =~= views.take(i as int));
            assert(views.take(i + 1).last() == views[i as int]);
            assert(views[i as int] == events@[i as int]@);
        }
        if events[i].seq > seq {
            out.push(events[i].clone());
            assert(out.deep_view() =~= before.push(views[i as int]));
        }
        i += 1;
    }
    assert(views.take(i as int) =~= views);
    out
}

/// Whether every sequence number has a successor.
fn have_successors(base: u64, events: &Vec<Event>) -> (r: bool)
    ensures
        r == (base < u64::MAX && forall|i: int|
            0 <= i < events@.len() ==> (#[trigger] events.deep_view()[i]).seq < u64::MAX),
{
    if base == u64::MAX {
        return false;
    }
    let mut i: usize = 0;
    while i < events.len()
        invariant
            i <= events@.len(),
            forall|k: int| 0 <= k < i ==> (#[trigger] events.deep_view()[k]).seq < u64::MAX,
        decreases events.len() - i,
    {
        assert(events.deep_view()[i as int] == events@[i as int]@);
        if events[i].seq == u64::MAX {
            return false;
        }
        i += 1;
    }
    true
}

/// The plan for a snapshot and the events behind it.
fn make_plan(snapshot: Option<EngineSnapshot>, events_to_replay: Vec<Event>) -> (r: RecoveryPlan)
    requires
        seqs_have_successors(snapshot.deep_view(), events_to_replay.deep_view()),
    ensures
        forall|events: Seq<EventView>|
            #![trigger plan_for(snapshot.deep_view(), events)]
            behind(events, snapshot_seq(snapshot.deep_view())) == events_to_replay.deep_view()
                ==> r@ == plan_for(snapshot.deep_view(), events),
{
    let base: u64 = match &snapshot {
        Some(s) => s.seq,
        None => 0,
    };
    let ghost replay = events_to_replay.deep_view();
    let n: usize = events_to_replay.len();
    let mut need_peer_sync = false;
    let mut sync_from_seq: u64 = 0;
    let mut expected_next_seq: u64 = base + 1;
    if n > 0 {
        assert(replay[0] == events_to_replay@[0]@);
        if events_to_replay[0].seq > expected_next_seq {
            need_peer_sync = true;
            sync_from_seq = expected_next_seq;
        }
        let ghost early = need_peer_sync;
        let mut i: usize = 1;
        assert(inner_gap(replay.take(1)) is None);
        while i < n
            invariant
                1 <= i <= n,
                n == events_to_replay@.len(),
                replay == events_to_replay.deep_view(),
                forall|k: int| 0 <= k < n ==> (#[trigger] replay[k]).seq < u64::MAX,
                early ==> need_peer_sync && sync_from_seq == base + 1,
                !early ==> need_peer_sync == (inner_gap(replay.take(i as int)) is Some),
                !early && need_peer_sync ==> Some(sync_from_seq as int) == inner_gap(
                    replay.take(i as int),
                ),
                !need_peer_sync ==> sync_from_seq == 0,
            decreases n - i,
        {
            assert(replay.take(i + 1).drop_last() =~= replay.take(i as int));
            assert(replay.take(i + 1).last() == replay[i as int]);
            assert(replay.take(i + 1)[i - 1] == replay[i - 1]);
            assert(replay[i as int] == events_to_replay@[i as int]@);
            assert(replay[i - 1] == events_to_replay@[i - 1]@);
            let before: u64 = events_to_replay[i - 1].seq;
            if events_to_replay[i].seq != before + 1 && !need_peer_sync {
                need_peer_sync = true;
                sync_from_seq = before + 1;
            }
            i += 1;
        }
        assert(replay.take(n as int) =~= replay);
        assert(replay[n - 1] == events_to_replay@[n - 1]@);
        expected_next_seq = events_to_replay[n - 1].seq + 1;
    }
    RecoveryPlan { snapshot, events_to_replay, need_peer_sync, sync_from_seq, expected_next_seq }
}

/// The contents of an [`EventDeduplicator`].
#[verifier::ext_equal]
pub struct DeduplicatorView {
    /// The sequence numbers that were seen and not forgotten.
    pub seen: Set<u64>,
    /// The largest sequence number that was seen.
    pub max_seen: u64,
}

/// How many sequence numbers are remembered at most.
pub const MAX_REMEMBERED: usize = 100_000;

/// How far behind the largest sequence number others are remembered when there are too many.
pub const REMEMBERED_SPAN: u64 = 50_000;

impl DeduplicatorView {
    /// Whether an event was not seen before.
    pub open spec fn is_new(self, seq: u64) -> bool {
        seq > self.max_seen || !self.seen.contains(seq)
    }

    /// What is forgotten when too many sequence numbers are remembered: those far behind the
    /// largest.
    pub open spec fn pruned(self) -> DeduplicatorView {
        if self.seen.len() > MAX_REMEMBERED {
            DeduplicatorView {
                seen: self.seen.filter(|s: u64| s + REMEMBERED_SPAN > self.max_seen && s > 0),
                ..self
            }
        } else {
            self
        }
    }

    /// After an event was looked at.
    pub open spec fn checked(self, seq: u64) -> DeduplicatorView {
        if self.is_new(seq) {
            (DeduplicatorView {
                seen: self.seen.insert(seq),
                max_seen: if seq > self.max_seen {
                    seq
                } else {
                    self.max_seen
                },
            }).pruned()
        } else {
            self
        }
    }
}

/// An event that was looked at is not new again, unless it was forgotten for being far behind
/// the largest.
pub proof fn seen_events_are_duplicates(d: DeduplicatorView, seq: u64)
    requires
        d.seen.finite(),
        forall|s: u64| #[trigger] d.seen.contains(s) ==> s <= d.max_seen,
        d.seen.len() < MAX_REMEMBERED || seq + REMEMBERED_SPAN > d.max_seen && seq > 0,
    ensures
        !d.checked(seq).is_new(seq),
{
    let e = d.checked(seq);
    assert(seq <= e.max_seen);
    if d.is_new(seq) {
        assert(d.seen.insert(seq).contains(seq));
    }
}

/// A deduplicator after sequence numbers were looked at.
pub open spec fn after_checks(d: DeduplicatorView, seqs: Seq<u64>) -> DeduplicatorView
    decreases seqs.len(),
{
    if seqs.len() == 0 {
        d
    } else {
        after_checks(d, seqs.drop_last()).checked(seqs.last())
    }
}

/// A deduplicator that has seen nothing takes each sequence number for new exactly the first
/// time, and knows the largest so far, for as long as it need not forget any. It begins with a
/// largest number, which is zero for a new one.
pub proof fn each_seq_is_new_once(first: u64, seqs: Seq<u64>, seq: u64)
    requires
        seqs.to_set().len() <= MAX_REMEMBERED,
    ensures
        ({
            let d = after_checks(DeduplicatorView { seen: Set::empty(), max_seen: first }, seqs);
            &&& d.seen == seqs.to_set()
            &&& d.is_new(seq) <==> !seqs.contains(seq)
            &&& first <= d.max_seen
            &&& forall|i: int| 0 <= i < seqs.len() ==> #[trigger] seqs[i] <= d.max_seen
            &&& d.max_seen == first || seqs.contains(d.max_seen)
        }),
    decreases seqs.len(),
{
    let start = DeduplicatorView { seen: Set::empty(), max_seen: first };
    let d = after_checks(start, seqs);
    if seqs.len() == 0 {
        assert(seqs.to_set() =~= Set::empty());
    } else {
        let before = seqs.drop_last();
        let last = seqs.last();
        let e = after_checks(start, before);
        assert(seqs =~= before.push(last));
        before.lemma_push_to_set_commute(last);
        vstd::seq_lib::seq_to_set_is_finite(before);
        vstd::seq_lib::seq_to_set_is_finite(seqs);
        vstd::set_lib::lemma_len_subset(before.to_set(), seqs.to_set());
        each_seq_is_new_once(first, before, last);
        assert(d == e.checked(last));
        if before.contains(last) {
            assert(seqs.to_set() =~= before.to_set());
        }
        assert(d.seen =~= seqs.to_set());
        assert forall|i: int| 0 <= i < seqs.len() implies #[trigger] seqs[i] <= d.max_seen by {
            if i < before.len() {
                assert(before[i] <= e.max_seen);
            } else if before.contains(last) {
                let k = before.index_of(last);
                assert(before[k] <= e.max_seen);
            }
        }
        if d.max_seen == last {
            assert(seqs[seqs.len() - 1] == last);
        } else if d.max_seen != first {
            let k = before.index_of(d.max_seen);
            assert(seqs[k] == d.max_seen);
        }
    }
    if seqs.contains(seq) {
        let k = seqs.index_of(seq);
        assert(seqs[k] <= d.max_seen);
        assert(d.seen.contains(seq));
    } else {
        assert(!d.seen.contains(seq));
    }
}

/// Forgetting leaves what is remembered within reach of the largest sequence number.
pub proof fn remembered_are_bounded(d: DeduplicatorView, seq: u64)
    requires
        d.seen.finite(),
        d.seen.len() <= MAX_REMEMBERED,
        forall|s: u64| #[trigger] d.seen.contains(s) ==> s <= d.max_seen,
    ensures
        d.checked(seq).seen.finite(),
        d.checked(seq).seen.len() <= MAX_REMEMBERED,
        forall|s: u64| #[trigger]
            d.checked(seq).seen.contains(s) ==> s <= d.checked(seq).max_seen,
{
    let e = d.checked(seq);
    if d.is_new(seq) && d.seen.insert(seq).len() > MAX_REMEMBERED {
        let low = e.max_seen - REMEMBERED_SPAN;
        lemma_small_set(e.seen, low, e.max_seen as int);
    }
}

/// A set of numbers above `low` and up to `high` has at most as many members as there are such
/// numbers.
proof fn lemma_small_set(s: Set<u64>, low: int, high: int)
    requires
        s.finite(),
        low <= high,
        forall|x: u64| #[trigger] s.contains(x) ==> low < x <= high,
    ensures
        s.len() <= high - low,
    decreases high - low,
{
    if low == high {
        assert(s =~= Set::empty());
    } else if 0 <= high <= u64::MAX {
        let t = s.remove(high as u64);
        lemma_small_set(t, low, high - 1);
    } else {
        lemma_small_set(s, low, high - 1);
    }
}

/// What a list holds after one more item was put behind it.
proof fn lemma_push_contains(s: Seq<u64>, a: u64, x: u64)
    ensures
        s.push(a).contains(x) <==> s.contains(x) || x == a,
{
    let t = s.push(a);
    if t.contains(x) {
        let i = t.index_of(x);
        if i < s.len() {
            assert(s[i] == x);
        }
    }
    if s.contains(x) {
        let i = s.index_of(x);
        assert(t[i] == x);
    }
    assert(t[s.len() as int] == a);
}

/// Tells events that were not seen before from those that were.
pub struct EventDeduplicator {
    seen_seqs: HashSet<u64>,
    max_seen: u64,
}

impl View for EventDeduplicator {
    type V = DeduplicatorView;

    closed spec fn view(&self) -> DeduplicatorView {
        DeduplicatorView { seen: self.seen_seqs@, max_seen: self.max_seen }
    }
}

impl EventDeduplicator {
    /// A deduplicator that has seen nothing.
    pub fn new() -> (r: Self)
        ensures
            r@ == (DeduplicatorView { seen: Set::empty(), max_seen: 0 }),
    {
        EventDeduplicator { seen_seqs: HashSet::new(), max_seen: 0 }
    }

    /// A deduplicator that begins at a sequence number.
    pub fn from_seq(start_seq: u64) -> (r: Self)
        ensures
            r@ == (DeduplicatorView { seen: Set::empty(), max_seen: start_seq }),
    {
        EventDeduplicator { seen_seqs: HashSet::new(), max_seen: start_seq }
    }

    /// Whether an event was not seen before and should be processed.
    pub fn check(&mut self, seq: u64) -> (r: bool)
        ensures
            r == old(self)@.is_new(seq),
            final(self)@ == old(self)@.checked(seq),
    {
        broadcast use vstd::std_specs::hash::group_hash_axioms;

        if seq <= self.max_seen && self.seen_seqs.contains(&seq) {
            return false;
        }
        self.seen_seqs.insert(seq);
        if seq > self.max_seen {
            self.max_seen = seq;
        }
        if self.seen_seqs.len() > MAX_REMEMBERED {
            self.prune();
        }
        true
    }

    /// Forgets the sequence numbers far behind the largest.
    fn prune(&mut self)
        ensures
            final(self)@ == (DeduplicatorView {
                seen: old(self)@.seen.filter(
                    |s: u64| s + REMEMBERED_SPAN > old(self)@.max_seen && s > 0,
                ),
                ..old(self)@
            }),
    {
        broadcast use vstd::std_specs::hash::group_hash_axioms;

        let max: u64 = self.max_seen;
        let cutoff: u64 = if max >= REMEMBERED_SPAN {
            max - REMEMBERED_SPAN
        } else {
            0
        };
        let mut kept: HashSet<u64> = HashSet::new();
        let ghost all = self.seen_seqs@;
        for s in it: self.seen_seqs.iter()
            invariant
                it.seq().unref().to_set() == all,
                it.index() == it.seq().len() ==> it.seq().unref().take(it.index())
                    == it.seq().unref(),
                forall|x: u64| #[trigger]
                    kept@.contains(x) <==> x > cutoff && it.seq().unref().take(
                        it.index(),
                    ).contains(x),
        {
            proof {
                let q = it.seq().unref();
                let before = q.take(it.index());
                assert(q.take(it.index() + 1) =~= before.push(*s));
                assert forall|x: u64| #[trigger]
                    before.push(*s).contains(x) <==> before.contains(x) || x == *s by {
                    lemma_push_contains(before, *s, x);
                }
            }
            if *s > cutoff {
                kept.insert(*s);
            }
        }
        proof {
            let p = |s: u64| s + REMEMBERED_SPAN > max && s > 0;
            assert(kept@ =~= all.filter(p));
        }
        self.seen_seqs = kept;
    }

    /// The largest sequence number that was seen.
    pub fn max_seen(&self) -> (r: u64)
        ensures
            r == self@.max_seen,
    {
        self.max_seen
    }
}

impl Default for EventDeduplicator {
    fn default() -> (r: Self)
        ensures
            r@ == (DeduplicatorView { seen: Set::empty(), max_seen: 0 }),
    {
        EventDeduplicator::new()
    }
}

/// Whether the sequence numbers of a list increase.
pub open spec fn increasing(events: Seq<EventView>) -> bool {
    forall|i: int, j: int|
        0 <= i < j < events.len() ==> (#[trigger] events[i]).seq < (#[trigger] events[j]).seq
}

/// What a filter leaves of an increasing list increases, and ends with what it ended with where the
/// filter lets that through.
proof fn lemma_filter_increasing(events: Seq<EventView>, p: spec_fn(EventView) -> bool)
    requires
        increasing(events),
    ensures
        increasing(events.filter(p)),
    decreases events.len(),
{
    reveal(Seq::filter);
    if events.len() > 0 {
        let front = events.drop_last();
        let last = events[events.len() - 1];
        assert(increasing(front));
        lemma_filter_increasing(front, p);
        let rest = front.filter(p);
        if p(last) {
            let all = rest.push(last);
            assert forall|i: int, j: int| 0 <= i < j < all.len() implies (#[trigger] all[i]).seq < (
            #[trigger] all[j]).seq by {
                if j == rest.len() {
                    assert(rest.contains(rest[i]));
                    lemma_filter_origin(front, p, rest[i]);
                    let k = front.index_of(rest[i]);
                    assert(events[k] == rest[i]);
                    assert(events[k].seq < events[events.len() - 1].seq);
                }
            }
        }
    }
}

/// Where the first gap of an increasing list is: up to it the numbers count up by one, and the
/// event behind it has a larger one.
proof fn lemma_gap(events: Seq<EventView>) -> (k: int)
    requires
        increasing(events),
        inner_gap(events) is Some,
    ensures
        0 < k < events.len(),
        inner_gap(events) == Some(events[0].seq + k),
        events[k].seq > events[0].seq + k,
        forall|i: int| 0 <= i < k ==> (#[trigger] events[i]).seq == events[0].seq + i,
    decreases events.len(),
{
    let front = events.drop_last();
    if inner_gap(front) is Some {
        let k = lemma_gap(front);
        assert forall|i: int| 0 <= i < k implies (#[trigger] events[i]).seq == events[0].seq
            + i by {
            assert(front[i] == events[i]);
        }
        k
    } else {
        let k = events.len() - 1;
        assert forall|i: int| 0 <= i < k implies (#[trigger] events[i]).seq == events[0].seq
            + i by {
            lemma_no_gap(front, i);
        }
        assert(events[k - 1].seq < events[k].seq);
        k
    }
}

/// Where a log with increasing sequence numbers lacks events behind the snapshot, the plan asks
/// for them from the first that is missing: that one is not there, every one between the snapshot
/// and it is, and a later one is.
pub proof fn sync_starts_at_the_first_missing(
    snapshot: Option<EngineSnapshotView>,
    events: Seq<EventView>,
    seq: u64,
)
    requires
        increasing(events),
        seqs_have_successors(snapshot, events),
        plan_for(snapshot, events).need_peer_sync,
    ensures
        ({
            let plan = plan_for(snapshot, events);
            let base = match snapshot {
                Some(s) => s.seq,
                None => 0,
            };
            &&& base < plan.sync_from_seq
            &&& forall|i: int|
                0 <= i < events.len() ==> (#[trigger] events[i]).seq != plan.sync_from_seq
            &&& base < seq < plan.sync_from_seq ==> exists|i: int|
                0 <= i < events.len() && (#[trigger] events[i]).seq == seq
            &&& exists|i: int|
                0 <= i < events.len() && (#[trigger] events[i]).seq > plan.sync_from_seq
        }),
{
    let base = snapshot_seq(snapshot);
    let p = |e: EventView| e.seq > base;
    let replay = behind(events, base);
    let plan = plan_for(snapshot, events);
    let from = plan.sync_from_seq;
    lemma_filter_increasing(events, p);
    assert(replay.len() > 0);
    lemma_filtered(events, p, 0);
    let k = if replay[0].seq > base + 1 {
        0
    } else {
        lemma_gap(replay)
    };
    assert(from == base + 1 + k);
    assert(replay[k].seq > from);
    assert(replay.contains(replay[k]));
    lemma_filter_origin(events, p, replay[k]);
    let m = events.index_of(replay[k]);
    assert(events[m].seq > from);
    assert forall|i: int| 0 <= i < events.len() implies (#[trigger] events[i]).seq != from by {
        if events[i].seq == from {
            assert(events.contains(events[i]));
            lemma_filter_keeps(events, p, events[i]);
            let j = replay.index_of(events[i]);
            assert(replay[j].seq == from);
            if j > k {
                assert(replay[k].seq < replay[j].seq);
            }
        }
    }
    if base < seq < from {
        let j = seq - base - 1;
        assert(replay[j].seq == replay[0].seq + j);
        assert(replay.contains(replay[j]));
        lemma_filter_origin(events, p, replay[j]);
        let i = events.index_of(replay[j]);
        assert(events[i].seq == seq);
    }
}

/// Where the plan asks for nothing, nothing is missing: every sequence number between the snapshot
/// and an event of the log is there.
pub proof fn nothing_is_missing_without_sync(
    snapshot: Option<EngineSnapshotView>,
    events: Seq<EventView>,
    i: int,
    seq: u64,
)
    requires
        increasing(events),
        !plan_for(snapshot, events).need_peer_sync,
        0 <= i < events.len(),
        (match snapshot {
            Some(s) => s.seq,
            None => 0,
        }) < seq <= events[i].seq,
    ensures
        exists|j: int| 0 <= j < events.len() && (#[trigger] events[j]).seq == seq,
{
    let base = snapshot_seq(snapshot);
    let p = |e: EventView| e.seq > base;
    let replay = behind(events, base);
    assert(events.contains(events[i]));
    lemma_filter_keeps(events, p, events[i]);
    let m = replay.index_of(events[i]);
    plan_without_sync_is_complete(snapshot, events, m);
    let n = seq - base - 1;
    plan_without_sync_is_complete(snapshot, events, n);
    assert(replay.contains(replay[n]));
    lemma_filter_origin(events, p, replay[n]);
    let j = events.index_of(replay[n]);
    assert(events[j].seq == seq);
}

/// The sequence number that a plan expects next follows the last event behind the snapshot, or the
/// snapshot where there is none; a node without either starts at one.
pub proof fn next_number_follows_the_last(
    snapshot: Option<EngineSnapshotView>,
    events: Seq<EventView>,
)
    requires
        increasing(events),
        seqs_have_successors(snapshot, events),
    ensures
        ({
            let next = plan_for(snapshot, events).expected_next_seq;
            let base = match snapshot {
                Some(s) => s.seq,
                None => 0,
            };
            if events.len() > 0 && events.last().seq > base {
                next == events.last().seq + 1
            } else {
                next == base + 1
            }
        }),
        plan_for(None, Seq::empty()).expected_next_seq == 1,
        plan_for(snapshot, events).snapshot == snapshot,
{
    reveal(Seq::filter);
    let base = snapshot_seq(snapshot);
    let p = |e: EventView| e.seq > base;
    let replay = behind(events, base);
    assert(behind(Seq::empty(), 0) =~= Seq::empty());
    if events.len() > 0 && events.last().seq > base {
        assert(replay.last() == events.last());
    } else if replay.len() > 0 {
        assert(replay.contains(replay[0]));
        lemma_filter_origin(events, p, replay[0]);
        let i = events.index_of(replay[0]);
        assert(events[i].seq <= events[events.len() - 1].seq);
    }
}

/// A snapshot whose state was altered after it was hashed is not loaded, and neither is a file that
/// holds none. Without a file there is none to load.
pub proof fn altered_snapshots_are_refused(s: EngineSnapshotView)
    requires
        EngineSnapshot::fits(s),
        s.state_hash != vstd::bytes::spec_u64_to_le_bytes(crate::snapshot::xxh3(s.state_data)),
    ensures
        latest_in(Some(EngineSnapshot::enc(s)))
            == Err::<Option<EngineSnapshotView>, RecoveryFault>(RecoveryFault::HashMismatch),
        latest_in(None) == Ok::<Option<EngineSnapshotView>, RecoveryFault>(None),
        planned(Some(EngineSnapshot::enc(s)), None)
            == Err::<RecoveryPlanView, RecoveryFault>(RecoveryFault::HashMismatch),
{
    codec::decode_encode::<EngineSnapshot>(s, Seq::empty());
}

/// A saved snapshot and a log of events, whatever of a last length is cut off, are planned for as
/// they were written; a node that starts with neither has nothing to do.
pub proof fn saved_files_are_planned_for(
    s: EngineSnapshotView,
    events: Seq<EventView>,
    cut: Seq<u8>,
)
    requires
        EngineSnapshot::fits(s),
        s.verified(),
        forall|i: int| 0 <= i < events.len() ==> log::frameable(#[trigger] events[i]),
        cut.len() < 4,
        seqs_have_successors(Some(s), events),
    ensures
        planned(Some(EngineSnapshot::enc(s)), Some(log::frames(events) + cut)) == Ok::<
            RecoveryPlanView,
            RecoveryFault,
        >(plan_for(Some(s), events)),
        planned(None, Some(log::frames(events) + cut)) == Ok::<
            RecoveryPlanView,
            RecoveryFault,
        >(plan_for(None, events)),
        planned(None, None) == Ok::<RecoveryPlanView, RecoveryFault>(
            RecoveryPlanView {
                snapshot: None,
                events_to_replay: Seq::empty(),
                need_peer_sync: false,
                sync_from_seq: 0,
                expected_next_seq: 1,
            },
        ),
{
    saved_snapshot_loads(s);
    log::log_round_trip(events, cut);
    reveal(Seq::filter);
    assert(behind(Seq::empty(), 0) =~= Seq::empty());
    assert forall|base: u64, i: int|
        0 <= i < behind(events, base).len() implies (#[trigger] behind(events, base)[i]).seq
        < u64::MAX by {
        let p = |e: EventView| e.seq > base;
        let e = behind(events, base)[i];
        assert(behind(events, base).contains(e));
        lemma_filter_origin(events, p, e);
        let k = events.index_of(e);
        assert(events[k].seq < u64::MAX);
    }
}

/// Up to a hundred thousand different numbers are remembered: each is new the first time and never
/// again, whatever their order. Where there are more, those within fifty thousand of the largest
/// are still known.
pub proof fn recent_numbers_are_known(d: DeduplicatorView, seqs: Seq<u64>, seq: u64)
    requires
        seqs.to_set().len() <= 100_000,
        d.seen.finite(),
        forall|s: u64| #[trigger] d.seen.contains(s) ==> s <= d.max_seen,
    ensures
        after_checks(DeduplicatorView { seen: Set::empty(), max_seen: 0 }, seqs).is_new(seq)
            <==> !seqs.contains(seq),
        ({
            let after = d.checked(seq);
            &&& after.max_seen == (if seq > d.max_seen {
                seq
            } else {
                d.max_seen
            })
            &&& forall|s: u64| #[trigger]
                d.seen.contains(s) && s > 0 && s + 50_000 > after.max_seen ==> after.seen.contains(
                    s,
                )
            &&& forall|s: u64| #[trigger]
                after.seen.contains(s) ==> d.seen.contains(s) || s == seq
            &&& d.seen.len() > 100_000 && !d.seen.contains(seq) ==> forall|s: u64| #[trigger]
                after.seen.contains(s) ==> s + 50_000 > after.max_seen
        }),
{
    each_seq_is_new_once(0, seqs, seq);
}

} // verus!
