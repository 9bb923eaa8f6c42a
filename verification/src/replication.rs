//! What a node does with the messages of its peers.
use vstd::prelude::*;

use crate::event::{Event, EventView};
use crate::execution;
use crate::execution::{EngineView, ExecutionEngine, StateVerifier, StateVerifierView};
use crate::log;
use crate::log::{EventLog, LogError};
use crate::node;
use crate::node::{NodeId, NodeState};
use crate::protocol::{MeshMessage, MeshMessageView};
use crate::snapshot::{EngineSnapshot, EngineSnapshotView};
use crate::trading;
use crate::trading::OrderIntent;

verus! {

/// How many events can be applied one after the other before a filled quantity goes beyond 64
/// bits.
pub open spec fn applicable(engine: EngineView, events: Seq<EventView>) -> nat
    decreases events.len(),
{
    if events.len() == 0 {
        0
    } else {
        let before = applicable(engine, events.drop_last());
        if before == events.len() - 1 && engine.replayed(events.drop_last()).fill_fits(
            events.last(),
        ) {
            events.len()
        } else {
            before
        }
    }
}

/// Where not all of the first `n` events can be applied, the rest cannot either.
proof fn lemma_stops(engine: EngineView, events: Seq<EventView>, n: int)
    requires
        0 <= n <= events.len(),
        applicable(engine, events.take(n)) < n,
    ensures
        applicable(engine, events) == applicable(engine, events.take(n)),
    decreases events.len(),
{
    if n < events.len() {
        assert(events.drop_last().take(n) =~= events.take(n));
        lemma_stops(engine, events.drop_last(), n);
    } else {
        assert(events.take(n) =~= events);
    }
}

/// Applies events of a peer one after the other, and appends them to the log. Stops before an
/// event that would take a filled quantity beyond 64 bits, and returns how many were applied.
pub fn apply_replicated(
    events: &Vec<Event>,
    engine: &mut ExecutionEngine,
    event_log: &mut EventLog,
) -> (r: usize)
    requires
        old(engine).wf(),
        old(event_log).count() + events@.len() <= u64::MAX,
    ensures
        final(engine).wf(),
        r == applicable(old(engine)@, events.deep_view()),
        final(engine)@ == old(engine)@.replayed(events.deep_view().take(r as int)),
        final(event_log).is_writable() == old(event_log).is_writable(),
        final(event_log).file() == old(event_log).file(),
        final(event_log).buffered() == old(event_log).buffered() + (if old(
            event_log,
        ).is_writable() {
            log::frames(events.deep_view().take(r as int))
        } else {
            Seq::empty()
        }),
        final(event_log).count() == old(event_log).count() + (if old(event_log).is_writable() {
            r as int
        } else {
            0
        }),
{
    let ghost views = events.deep_view();
    let ghost start = engine@;
    let ghost before = event_log.buffered();
    let ghost writable = event_log.is_writable();
    let mut i: usize = 0;
    proof {
        assert(views.take(0) =~= Seq::empty());
        assert(before + Seq::<u8>::empty() =~= before);
    }
    while i < events.len()
        invariant
            i <= events@.len(),
            views == events.deep_view(),
            start == old(engine)@,
            before == old(event_log).buffered(),
            writable == old(event_log).is_writable(),
            engine.wf(),
            engine@ == start.replayed(views.take(i as int)),
            applicable(start, views.take(i as int)) == i,
            event_log.is_writable() == writable,
            event_log.file() == old(event_log).file(),
            event_log.count() == old(event_log).count() + (if writable {
                i as int
            } else {
                0
            }),
            old(event_log).count() + events@.len() <= u64::MAX,
            event_log.buffered() == before + (if writable {
                log::frames(views.take(i as int))
            } else {
                Seq::empty()
            }),
        decreases events.len() - i,
    {
        assert(views[i as int] == events@[i as int]@);
        proof {
            let next = views.take(i + 1);
            assert(next.drop_last() =~= views.take(i as int));
            assert(next.last() == views[i as int]);
        }
        if !engine.can_apply(&events[i]) {
            proof {
                lemma_stops(start, views, i + 1);
            }
            return i;
        }
        proof {
            let next = views.take(i + 1);
            let one = seq![views[i as int]];
            assert(next =~= views.take(i as int) + one);
            log::frames_concat(views.take(i as int), one);
            assert(one.skip(1) =~= Seq::empty());
            assert(log::frames(one) =~= log::frame(views[i as int])) by {
                reveal_with_fuel(log::frames, 2);
            }
        }
        let _ = engine.process_event(&events[i]);
        let _ = event_log.append(&events[i]);
        proof {
            let f = log::frames(views.take(i as int));
            assert(before + f + log::frame(views[i as int]) =~= before + (f + log::frame(
                views[i as int],
            )));
        }
        i += 1;
    }
    assert(views.take(i as int) =~= views);
    i
}

/// What is left to do about a message of a peer.
#[derive(Debug)]
pub enum MeshAction {
    /// Nothing.
    Idle,
    /// Events were applied: how many, and how many there were.
    Replicated { applied: usize, total: usize },
    /// A peer said how it is: its short identifier, its last sequence number, its state hash in
    /// hexadecimal, and whether that agrees with ours.
    PeerStatus { node: String, last_seq: u64, hash: String, matches: bool },
    /// Answer with the events of a range.
    Answer { from_seq: u64, to_seq: u64 },
    /// A hash was compared: at which sequence number, the hash in hexadecimal, and whether it
    /// agrees with ours.
    HashCheck { seq: u64, hash: String, matches: bool },
    /// Save a snapshot.
    Save(EngineSnapshot),
}

/// The contents of a [`MeshAction`].
#[verifier::ext_equal]
pub enum MeshActionView {
    Idle,
    Replicated { applied: nat, total: nat },
    PeerStatus { node: Seq<char>, last_seq: u64, hash: Seq<char>, matches: bool },
    Answer { from_seq: u64, to_seq: u64 },
    HashCheck { seq: u64, hash: Seq<char>, matches: bool },
    Save(EngineSnapshotView),
}

impl View for MeshAction {
    type V = MeshActionView;

    open spec fn view(&self) -> MeshActionView {
        match self {
            MeshAction::Idle => MeshActionView::Idle,
            MeshAction::Replicated { applied, total } => MeshActionView::Replicated {
                applied: *applied as nat,
                total: *total as nat,
            },
            MeshAction::PeerStatus { node, last_seq, hash, matches } => {
                MeshActionView::PeerStatus {
                    node: node@,
                    last_seq: *last_seq,
                    hash: hash@,
                    matches: *matches,
                }
            },
            MeshAction::Answer { from_seq, to_seq } => MeshActionView::Answer {
                from_seq: *from_seq,
                to_seq: *to_seq,
            },
            MeshAction::HashCheck { seq, hash, matches } => MeshActionView::HashCheck {
                seq: *seq,
                hash: hash@,
                matches: *matches,
            },
            MeshAction::Save(s) => MeshActionView::Save(s@),
        }
    }
}

/// The events that a message brings.
pub open spec fn events_of(msg: MeshMessageView) -> Seq<EventView> {
    match msg {
        MeshMessageView::EventReplication(event) => seq![event],
        MeshMessageView::EventBatch(events) => events,
        MeshMessageView::SyncResponse { events } => events,
        _ => Seq::empty(),
    }
}

/// Whether a peer's hash agrees with the last one verified here; at another sequence number
/// there is nothing to compare.
pub open spec fn agrees(verifier: StateVerifierView, seq: u64, hash: Seq<u8>) -> bool {
    seq != verifier.last_verified_seq || verifier.last_hash == hash
}

/// What is left to do about a message that brings no events.
pub open spec fn action_for(msg: MeshMessageView, verifier: StateVerifierView) -> MeshActionView {
    match msg {
        MeshMessageView::Heartbeat { node_id, last_seq, state_hash, uptime_secs } => {
            MeshActionView::PeerStatus {
                node: node::hex_text(node_id.take(8)),
                last_seq,
                hash: node::hex_text(state_hash),
                matches: agrees(verifier, last_seq, state_hash),
            }
        },
        MeshMessageView::SyncRequest { from_seq, to_seq } => MeshActionView::Answer {
            from_seq,
            to_seq,
        },
        MeshMessageView::HashVerify { seq, hash } => MeshActionView::HashCheck {
            seq,
            hash: node::hex_text(hash),
            matches: agrees(verifier, seq, hash),
        },
        MeshMessageView::SnapshotBroadcast(snapshot) => MeshActionView::Save(snapshot),
        _ => MeshActionView::Idle,
    }
}

/// Whether a message reports another hash than the one verified here at the same sequence
/// number: the states of the two nodes have diverged.
pub open spec fn reports_other_hash(msg: MeshMessageView, verifier: StateVerifierView) -> bool {
    match msg {
        MeshMessageView::Heartbeat { last_seq, state_hash, .. } => !agrees(
            verifier,
            last_seq,
            state_hash,
        ),
        MeshMessageView::HashVerify { seq, hash } => !agrees(verifier, seq, hash),
        _ => false,
    }
}

/// The state of a node after a message: one that reports another hash halts it for good.
pub open spec fn state_after(
    state: NodeState,
    msg: MeshMessageView,
    verifier: StateVerifierView,
) -> NodeState {
    if state.halted() || reports_other_hash(msg, verifier) {
        NodeState::Diverged
    } else {
        state
    }
}

/// Whether a message brings events.
pub open spec fn brings_events(msg: MeshMessageView) -> bool {
    msg is EventReplication || msg is EventBatch || msg is SyncResponse
}

/// Does what a message of a peer asks for, as far as the engine and the log go, and returns what
/// is left to do. A report of another hash halts the node, and a halted node does nothing.
pub fn handle_mesh_message(
    msg: MeshMessage,
    engine: &mut ExecutionEngine,
    event_log: &mut EventLog,
    verifier: &StateVerifier,
    state: &mut NodeState,
) -> (r: MeshAction)
    requires
        old(engine).wf(),
        old(event_log).count() + events_of(msg@).len() <= u64::MAX,
    ensures
        final(engine).wf(),
        final(event_log).is_writable() == old(event_log).is_writable(),
        final(event_log).file() == old(event_log).file(),
        *final(state) == state_after(*old(state), msg@, verifier@),
        if old(state).halted() {
            &&& r@ == MeshActionView::Idle
            &&& final(engine)@ == old(engine)@
            &&& final(event_log).buffered() == old(event_log).buffered()
            &&& final(event_log).count() == old(event_log).count()
        } else if brings_events(msg@) {
            let events = events_of(msg@);
            &&& r@ == (MeshActionView::Replicated {
                applied: applicable(old(engine)@, events),
                total: events.len(),
            })
            &&& final(engine)@ == old(engine)@.replayed(events.take(r@->applied as int))
            &&& final(event_log).buffered() == old(event_log).buffered() + (if old(
                event_log,
            ).is_writable() {
                log::frames(events.take(r@->applied as int))
            } else {
                Seq::empty()
            })
            &&& final(event_log).count() == old(event_log).count() + (if old(
                event_log,
            ).is_writable() {
                r@->applied as int
            } else {
                0
            })
        } else {
            &&& r@ == action_for(msg@, verifier@)
            &&& final(engine)@ == old(engine)@
            &&& final(event_log).buffered() == old(event_log).buffered()
            &&& final(event_log).count() == old(event_log).count()
        },
{
    if state.is_halted() {
        return MeshAction::Idle;
    }
    match msg {
        MeshMessage::EventReplication(event) => {
            let ghost e = event@;
            let mut events: Vec<Event> = Vec::new();
            events.push(event);
            assert(events.deep_view() =~= seq![e]);
            let applied: usize = apply_replicated(&events, engine, event_log);
            MeshAction::Replicated { applied, total: 1 }
        },
        MeshMessage::EventBatch(events) => {
            let applied: usize = apply_replicated(&events, engine, event_log);
            MeshAction::Replicated { applied, total: events.len() }
        },
        MeshMessage::SyncResponse { events } => {
            let applied: usize = apply_replicated(&events, engine, event_log);
            MeshAction::Replicated { applied, total: events.len() }
        },
        MeshMessage::Heartbeat { node_id, last_seq, state_hash, uptime_secs: _ } => {
            let matches = verifier.verify_peer(last_seq, state_hash);
            if !matches {
                *state = NodeState::Diverged;
            }
            MeshAction::PeerStatus {
                node: node::short_id(&node_id),
                last_seq,
                hash: node::hex_encode(&state_hash),
                matches,
            }
        },
        MeshMessage::SyncRequest { from_seq, to_seq } => MeshAction::Answer { from_seq, to_seq },
        MeshMessage::HashVerify { seq, hash } => {
            let matches = verifier.verify_peer(seq, hash);
            if !matches {
                *state = NodeState::Diverged;
            }
            MeshAction::HashCheck { seq, hash: node::hex_encode(&hash), matches }
        },
        MeshMessage::SnapshotBroadcast(snapshot) => MeshAction::Save(snapshot),
        MeshMessage::ConsensusVote { .. } => MeshAction::Idle,
        MeshMessage::NodeAnnounce { .. } => MeshAction::Idle,
    }
}

/// What comes to a node.
pub enum Input {
    /// A message of a peer, with what the node has verified by then.
    Message(MeshMessageView, StateVerifierView),
    /// An event of its own feeds or gateway.
    Local(EventView),
    /// An order of its strategies, with its time and whether the risk check admits it.
    Order { intent: OrderIntent, ts: u64, admitted: bool },
}

/// The state of a node and its engine after an input.
pub open spec fn after_input(node: (NodeState, EngineView), input: Input) -> (
    NodeState,
    EngineView,
) {
    let (state, engine) = node;
    match input {
        Input::Message(msg, verifier) => (
            state_after(state, msg, verifier),
            if state.halted() {
                engine
            } else {
                engine.replayed(
                    events_of(msg).take(applicable(engine, events_of(msg)) as int),
                )
            },
        ),
        Input::Local(event) => (
            state,
            if state.halted() {
                engine
            } else {
                engine.after(event)
            },
        ),
        Input::Order { intent, ts, admitted } => (
            state,
            if state.halted() || !admitted {
                engine
            } else {
                trading::with_order(engine, intent, ts)
            },
        ),
    }
}

/// The state of a node and its engine after inputs.
pub open spec fn after_inputs(node: (NodeState, EngineView), inputs: Seq<Input>) -> (
    NodeState,
    EngineView,
)
    decreases inputs.len(),
{
    if inputs.len() == 0 {
        node
    } else {
        after_input(after_inputs(node, inputs.drop_last()), inputs.last())
    }
}

/// Divergence halts: once a peer has reported another hash at the same sequence number, no
/// message, event or order changes the engine, and the node stays halted.
pub proof fn divergence_halts(
    state: NodeState,
    engine: EngineView,
    msg: MeshMessageView,
    verifier: StateVerifierView,
    later: Seq<Input>,
)
    requires
        reports_other_hash(msg, verifier),
    ensures
        after_inputs(after_input((state, engine), Input::Message(msg, verifier)), later) == (
            NodeState::Diverged,
            engine,
        ),
    decreases later.len(),
{
    assert(events_of(msg).take(0) =~= Seq::empty());
    if later.len() > 0 {
        divergence_halts(state, engine, msg, verifier, later.drop_last());
    }
}

/// The answer to a request for a range of events, from the bytes of the log file.
pub fn sync_response(data: &[u8], from_seq: u64, to_seq: u64) -> (r: Result<MeshMessage, LogError>)
    ensures
        match (r, log::parsed(data@)) {
            (Ok(msg), Ok(events)) => msg@ == (MeshMessageView::SyncResponse {
                events: log::in_range(events, from_seq, to_seq),
            }),
            (Err(e), Err(fault)) => e.fault() == fault,
            _ => false,
        },
{
    match EventLog::read_range(data, from_seq, to_seq) {
        Ok(events) => Ok(MeshMessage::SyncResponse { events }),
        Err(e) => Err(e),
    }
}

/// A follower that is at the state that the leader had before a batch of events is at the
/// leader's state after it, and so has its hash.
pub proof fn replicas_agree(
    leader: EngineView,
    follower: EngineView,
    before: Seq<EventView>,
    batch: Seq<EventView>,
)
    requires
        follower == leader.replayed(before),
    ensures
        follower.replayed(batch) == leader.replayed(before + batch),
        follower.replayed(batch).hash() == leader.replayed(before + batch).hash(),
{
    execution::replay_concat(leader, before, batch);
}

/// What a node tells its peers from time to time.
pub fn heartbeat(node_id: NodeId, last_seq: u64, verifier: &StateVerifier, now: u64) -> (r:
    MeshMessage)
    ensures
        r@ == heartbeat_of(node_id@, last_seq, verifier@, now),
{
    MeshMessage::Heartbeat {
        node_id,
        last_seq,
        state_hash: verifier.last_hash(),
        uptime_secs: now / 1_000_000_000,
    }
}

/// Whether a sequence number is one at which a snapshot is saved.
pub open spec fn snapshot_due(last_seq: u64, interval: u64) -> bool {
    last_seq > 0 && last_seq % interval == 0
}

/// A snapshot is due once in every interval: at its end, and never within it or before the first
/// event.
pub proof fn snapshots_come_at_intervals(count: nat, within: nat, interval: u64)
    requires
        within < interval,
        count * interval + within <= u64::MAX,
    ensures
        snapshot_due((count * interval + within) as u64, interval) <==> count > 0 && within == 0,
{
    let n = interval as int;
    let c = count as int;
    vstd::arithmetic::div_mod::lemma_mod_multiples_vanish(c, within as int, n);
    assert(n * c == c * n) by (nonlinear_arith);
    vstd::arithmetic::div_mod::lemma_small_mod(within, interval as nat);
    if count == 0 {
        assert(0 * n == 0);
    } else {
        assert(c * n > 0) by (nonlinear_arith)
            requires
                c > 0,
                n > 0,
        ;
    }
}

/// Whether a sequence number is one at which a snapshot is saved.
pub fn is_snapshot_due(last_seq: u64, interval: u64) -> (r: bool)
    requires
        interval > 0,
    ensures
        r == snapshot_due(last_seq, interval),
{
    last_seq > 0 && last_seq % interval == 0
}

/// A peer that reports another hash for the sequence number that was last verified here makes the
/// node halt. A report for another number, one that agrees, and every other message leave it as it
/// is; a halted node stays halted.
pub proof fn only_other_hashes_diverge(
    state: NodeState,
    msg: MeshMessageView,
    verifier: StateVerifierView,
)
    ensures
        ({
            let other = match msg {
                MeshMessageView::Heartbeat { last_seq, state_hash, .. } => last_seq
                    == verifier.last_verified_seq && state_hash != verifier.last_hash,
                MeshMessageView::HashVerify { seq, hash } => seq == verifier.last_verified_seq
                    && hash != verifier.last_hash,
                _ => false,
            };
            &&& other ==> state_after(state, msg, verifier) == NodeState::Diverged
            &&& !other ==> state_after(state, msg, verifier) == state
            &&& match action_for(msg, verifier) {
                MeshActionView::PeerStatus { matches, .. } => msg is Heartbeat && matches
                    == !other,
                MeshActionView::HashCheck { matches, .. } => msg is HashVerify && matches
                    == !other,
                MeshActionView::Answer { .. } => msg is SyncRequest,
                MeshActionView::Save(_) => msg is SnapshotBroadcast,
                _ => !(msg is Heartbeat || msg is HashVerify || msg is SyncRequest
                    || msg is SnapshotBroadcast),
            }
        }),
{
}

/// What is reported of a message is what it says: a peer's number and hash, the range that is asked
/// for, the snapshot that is sent.
pub proof fn reports_repeat_the_message(msg: MeshMessageView, verifier: StateVerifierView)
    ensures
        match (msg, action_for(msg, verifier)) {
            (
                MeshMessageView::Heartbeat { node_id, last_seq: theirs, state_hash, .. },
                MeshActionView::PeerStatus { node, last_seq, hash, .. },
            ) => last_seq == theirs && hash == node::hex_text(state_hash) && node
                == node::hex_text(node_id.take(8)),
            (
                MeshMessageView::HashVerify { seq: theirs, hash: told },
                MeshActionView::HashCheck { seq, hash, .. },
            ) => seq == theirs && hash == node::hex_text(told),
            (
                MeshMessageView::SyncRequest { from_seq: first, to_seq: last },
                MeshActionView::Answer { from_seq, to_seq },
            ) => from_seq == first && to_seq == last,
            (MeshMessageView::SnapshotBroadcast(sent), MeshActionView::Save(kept)) => sent == kept,
            _ => true,
        },
{
}

/// Events of a peer are applied in their order up to the first that would take a filled quantity
/// beyond its type, and all of them where none does. Other messages bring none.
pub proof fn batches_apply_in_order(engine: EngineView, events: Seq<EventView>, n: int)
    requires
        0 <= n < events.len(),
    ensures
        applicable(engine, events) <= events.len(),
        n < applicable(engine, events) ==> engine.replayed(events.take(n)).fill_fits(events[n]),
        n == applicable(engine, events) ==> !engine.replayed(events.take(n)).fill_fits(events[n]),
    decreases events.len(),
{
    let front = events.drop_last();
    let last = events.len() - 1;
    if n < last {
        batches_apply_in_order(engine, front, n);
        assert(front.take(n) =~= events.take(n));
    } else {
        assert(front =~= events.take(n));
        lemma_applicable_bound(engine, front);
    }
    lemma_applicable_bound(engine, front);
}

/// No more events are applied than there are.
proof fn lemma_applicable_bound(engine: EngineView, events: Seq<EventView>)
    ensures
        applicable(engine, events) <= events.len(),
    decreases events.len(),
{
    if events.len() > 0 {
        lemma_applicable_bound(engine, events.drop_last());
    }
}

/// A message with one event, with a batch or with the answer to a request brings just those events.
pub proof fn messages_bring_their_events(event: EventView, events: Seq<EventView>)
    ensures
        events_of(MeshMessageView::EventReplication(event)) == seq![event],
        events_of(MeshMessageView::EventBatch(events)) == events,
        events_of(MeshMessageView::SyncResponse { events }) == events,
        brings_events(MeshMessageView::EventReplication(event)),
        brings_events(MeshMessageView::EventBatch(events)),
        brings_events(MeshMessageView::SyncResponse { events }),
{
}

/// What a node says of itself: the last sequence number, the last hash that was verified, and the
/// time in whole seconds.
pub open spec fn heartbeat_of(
    node_id: Seq<u8>,
    last_seq: u64,
    verifier: StateVerifierView,
    now: u64,
) -> MeshMessageView {
    MeshMessageView::Heartbeat {
        node_id,
        last_seq,
        state_hash: verifier.last_hash,
        uptime_secs: now / 1_000_000_000,
    }
}

/// A heartbeat never makes a node with the same verified state halt, and makes one halt that has
/// verified another hash at the sender's sequence number. Its time is in seconds.
pub proof fn heartbeats_agree_with_equal_states(
    node_id: Seq<u8>,
    verifier: StateVerifierView,
    other: StateVerifierView,
    now: u64,
)
    ensures
        ({
            let msg = heartbeat_of(node_id, verifier.last_verified_seq, verifier, now);
            let secs = msg->Heartbeat_uptime_secs;
            &&& state_after(NodeState::Active, msg, verifier) == NodeState::Active
            &&& other.last_verified_seq == verifier.last_verified_seq && other.last_hash
                != verifier.last_hash ==> state_after(NodeState::Active, msg, other)
                == NodeState::Diverged
            &&& msg->Heartbeat_node_id == node_id
            &&& secs * 1_000_000_000 <= now < (secs + 1) * 1_000_000_000
        }),
{
}

} // verus!
