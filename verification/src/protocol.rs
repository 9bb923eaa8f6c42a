//! Messages between the nodes of the mesh.
use vstd::bytes::*;
use vstd::prelude::*;

use crate::codec;
use crate::codec::Wire;
use crate::event::{clone_events, Event, EventView};
use crate::node::NodeRole;
use crate::snapshot::{EngineSnapshot, EngineSnapshotView};

verus! {

/// A message between nodes.
#[allow(inconsistent_fields)]
#[derive(Debug)]
pub enum MeshMessage {
    /// Replicates an event to followers.
    EventReplication(Event),
    /// Events for bulk replication.
    EventBatch(Vec<Event>),
    /// Heartbeat with current state.
    Heartbeat {
        node_id: [u8; 32],
        last_seq: u64,
        state_hash: [u8; 8],
        uptime_secs: u64,
    },
    /// Asks a peer for events.
    SyncRequest {
        from_seq: u64,
        to_seq: u64,
    },
    /// Answer to a request for events.
    SyncResponse {
        events: Vec<Event>,
    },
    /// Snapshot for state verification.
    SnapshotBroadcast(EngineSnapshot),
    /// State hash for comparison.
    HashVerify {
        seq: u64,
        hash: [u8; 8],
    },
    /// Vote before order execution.
    ConsensusVote {
        proposal_seq: u64,
        node_id: [u8; 32],
        approved: bool,
    },
    /// A node joins the mesh.
    NodeAnnounce {
        node_id: [u8; 32],
        role: NodeRole,
        addr: String,
    },
}

/// The contents of a [`MeshMessage`].
#[allow(inconsistent_fields)]
#[verifier::ext_equal]
pub enum MeshMessageView {
    EventReplication(EventView),
    EventBatch(Seq<EventView>),
    Heartbeat { node_id: Seq<u8>, last_seq: u64, state_hash: Seq<u8>, uptime_secs: u64 },
    SyncRequest { from_seq: u64, to_seq: u64 },
    SyncResponse { events: Seq<EventView> },
    SnapshotBroadcast(EngineSnapshotView),
    HashVerify { seq: u64, hash: Seq<u8> },
    ConsensusVote { proposal_seq: u64, node_id: Seq<u8>, approved: bool },
    NodeAnnounce { node_id: Seq<u8>, role: NodeRole, addr: Seq<char> },
}

impl View for MeshMessage {
    type V = MeshMessageView;

    open spec fn view(&self) -> MeshMessageView {
        match self {
            MeshMessage::EventReplication(x) => MeshMessageView::EventReplication(x@),
            MeshMessage::EventBatch(x) => MeshMessageView::EventBatch(x.deep_view()),
            MeshMessage::Heartbeat { node_id, last_seq, state_hash, uptime_secs } => MeshMessageView::Heartbeat { node_id: node_id@, last_seq: *last_seq, state_hash: state_hash@, uptime_secs: *uptime_secs },
            MeshMessage::SyncRequest { from_seq, to_seq } => MeshMessageView::SyncRequest { from_seq: *from_seq, to_seq: *to_seq },
            MeshMessage::SyncResponse { events } => MeshMessageView::SyncResponse { events: events.deep_view() },
            MeshMessage::SnapshotBroadcast(x) => MeshMessageView::SnapshotBroadcast(x@),
            MeshMessage::HashVerify { seq, hash } => MeshMessageView::HashVerify { seq: *seq, hash: hash@ },
            MeshMessage::ConsensusVote { proposal_seq, node_id, approved } => MeshMessageView::ConsensusVote { proposal_seq: *proposal_seq, node_id: node_id@, approved: *approved },
            MeshMessage::NodeAnnounce { node_id, role, addr } => MeshMessageView::NodeAnnounce { node_id: node_id@, role: *role, addr: addr@ },
        }
    }
}

impl DeepView for MeshMessage {
    type V = MeshMessageView;

    open spec fn deep_view(&self) -> MeshMessageView {
        self@
    }
}

impl Clone for MeshMessage {
    fn clone(&self) -> (r: Self)
        ensures
            r@ == self@,
    {
        match self {
            MeshMessage::EventReplication(x) => MeshMessage::EventReplication(x.clone()),
            MeshMessage::EventBatch(x) => MeshMessage::EventBatch(clone_events(x)),
            MeshMessage::Heartbeat { node_id, last_seq, state_hash, uptime_secs } => MeshMessage::Heartbeat { node_id: *node_id, last_seq: *last_seq, state_hash: *state_hash, uptime_secs: *uptime_secs },
            MeshMessage::SyncRequest { from_seq, to_seq } => MeshMessage::SyncRequest { from_seq: *from_seq, to_seq: *to_seq },
            MeshMessage::SyncResponse { events } => MeshMessage::SyncResponse { events: clone_events(events) },
            MeshMessage::SnapshotBroadcast(x) => MeshMessage::SnapshotBroadcast(x.clone()),
            MeshMessage::HashVerify { seq, hash } => MeshMessage::HashVerify { seq: *seq, hash: *hash },
            MeshMessage::ConsensusVote { proposal_seq, node_id, approved } => MeshMessage::ConsensusVote { proposal_seq: *proposal_seq, node_id: *node_id, approved: *approved },
            MeshMessage::NodeAnnounce { node_id, role, addr } => MeshMessage::NodeAnnounce { node_id: *node_id, role: *role, addr: addr.clone() },
        }
    }
}

impl MeshMessage {
    /// The message in its binary form.
    pub fn encode(&self) -> (r: Vec<u8>)
        ensures
            r@ == MeshMessage::enc(self@),
            MeshMessage::fits(self@),
    {
        codec::encode(self)
    }

    /// The message that bytes stand for; bytes behind it are ignored. The error is the decoder's
    /// words.
    pub fn decode(data: &[u8]) -> (r: Result<Self, String>)
        ensures
            match (r, MeshMessage::dec(data@)) {
                (Ok(m), Some((v, _))) => m@ == v,
                (Err(_), None) => true,
                _ => false,
            },
    {
        codec::decode(data)
    }

    /// The name of the kind of message.
    pub fn kind_name(&self) -> (r: &'static str)
        ensures
            r@ == (match self {
                MeshMessage::EventReplication(_) => "event_replication"@,
                MeshMessage::EventBatch(_) => "event_batch"@,
                MeshMessage::Heartbeat { .. } => "heartbeat"@,
                MeshMessage::SyncRequest { .. } => "sync_request"@,
                MeshMessage::SyncResponse { .. } => "sync_response"@,
                MeshMessage::SnapshotBroadcast(_) => "snapshot_broadcast"@,
                MeshMessage::HashVerify { .. } => "hash_verify"@,
                MeshMessage::ConsensusVote { .. } => "consensus_vote"@,
                MeshMessage::NodeAnnounce { .. } => "node_announce"@,
            }),
    {
        match self {
            MeshMessage::EventReplication(_) => "event_replication",
            MeshMessage::EventBatch(_) => "event_batch",
            MeshMessage::Heartbeat { .. } => "heartbeat",
            MeshMessage::SyncRequest { .. } => "sync_request",
            MeshMessage::SyncResponse { .. } => "sync_response",
            MeshMessage::SnapshotBroadcast(_) => "snapshot_broadcast",
            MeshMessage::HashVerify { .. } => "hash_verify",
            MeshMessage::ConsensusVote { .. } => "consensus_vote",
            MeshMessage::NodeAnnounce { .. } => "node_announce",
        }
    }
}

/// A message that was sent is received as it was.
pub proof fn messages_round_trip(m: MeshMessageView)
    requires
        MeshMessage::fits(m),
    ensures
        MeshMessage::dec(MeshMessage::enc(m)) == Some((m, Seq::<u8>::empty())),
{
    codec::decode_encode::<MeshMessage>(m, Seq::empty());
}

/// The largest message that is received.
pub const MAX_MESSAGE_BYTES: u64 = 16_777_216;

/// A stream that carries a message: the length of its binary form as an unsigned 32-bit integer,
/// least significant byte first, then the binary form.
pub open spec fn stream_of(m: MeshMessageView) -> Seq<u8> {
    spec_u32_to_le_bytes(MeshMessage::enc(m).len() as u32) + MeshMessage::enc(m)
}

/// The stream that carries a message.
pub fn to_stream(msg: &MeshMessage) -> (r: Vec<u8>)
    ensures
        r@ == stream_of(msg@),
        MeshMessage::fits(msg@),
{
    let mut data: Vec<u8> = msg.encode();
    let mut out: Vec<u8> = u32_to_le_bytes(data.len() as u32);
    out.append(&mut data);
    assert(out@ =~= stream_of(msg@));
    out
}

/// The length that the first four bytes of a stream announce, where it is not too large to be
/// received.
pub fn announced_len(head: &[u8; 4]) -> (r: Option<u32>)
    ensures
        r == (if spec_u32_from_le_bytes(head@) > MAX_MESSAGE_BYTES {
            None
        } else {
            Some(spec_u32_from_le_bytes(head@))
        }),
{
    let len: u32 = u32_from_le_bytes(head.as_slice());
    if len as u64 > MAX_MESSAGE_BYTES {
        None
    } else {
        Some(len)
    }
}

/// The receiver of a stream reads the announced length and then the message, for every message
/// that is not too large to be received.
pub proof fn streams_round_trip(m: MeshMessageView)
    requires
        MeshMessage::fits(m),
        MeshMessage::enc(m).len() <= MAX_MESSAGE_BYTES,
    ensures
        ({
            let s = stream_of(m);
            &&& s.len() >= 4
            &&& spec_u32_from_le_bytes(s.take(4)) == s.len() - 4
            &&& spec_u32_from_le_bytes(s.take(4)) <= MAX_MESSAGE_BYTES
            &&& MeshMessage::dec(s.skip(4)) == Some((m, Seq::<u8>::empty()))
        }),
{
    lemma_auto_spec_u32_to_from_le_bytes();
    let body = MeshMessage::enc(m);
    let head = spec_u32_to_le_bytes(body.len() as u32);
    let s = stream_of(m);
    assert(s.take(4) =~= head);
    assert(s.skip(4) =~= body);
    messages_round_trip(m);
}

impl Wire for MeshMessage {
    open spec fn fits(v: MeshMessageView) -> bool {
        match v {
            MeshMessageView::EventReplication(x) => Event::fits(x),
            MeshMessageView::EventBatch(x) => <Vec<Event>>::fits(x),
            MeshMessageView::Heartbeat { node_id, last_seq, state_hash, uptime_secs } => <([u8; 32], (u64, ([u8; 8], u64)))>::fits((node_id, (last_seq, (state_hash, uptime_secs)))),
            MeshMessageView::SyncRequest { from_seq, to_seq } => <(u64, u64)>::fits((from_seq, to_seq)),
            MeshMessageView::SyncResponse { events } => <Vec<Event>>::fits(events),
            MeshMessageView::SnapshotBroadcast(x) => EngineSnapshot::fits(x),
            MeshMessageView::HashVerify { seq, hash } => <(u64, [u8; 8])>::fits((seq, hash)),
            MeshMessageView::ConsensusVote { proposal_seq, node_id, approved } => <(u64, ([u8; 32], bool))>::fits((proposal_seq, (node_id, approved))),
            MeshMessageView::NodeAnnounce { node_id, role, addr } => <([u8; 32], (NodeRole, String))>::fits((node_id, (role, addr))),
        }
    }

    open spec fn enc(v: MeshMessageView) -> Seq<u8> {
        match v {
            MeshMessageView::EventReplication(x) => u32::enc(0) + Event::enc(x),
            MeshMessageView::EventBatch(x) => u32::enc(1) + <Vec<Event>>::enc(x),
            MeshMessageView::Heartbeat { node_id, last_seq, state_hash, uptime_secs } => u32::enc(2) + <([u8; 32], (u64, ([u8; 8], u64)))>::enc((node_id, (last_seq, (state_hash, uptime_secs)))),
            MeshMessageView::SyncRequest { from_seq, to_seq } => u32::enc(3) + <(u64, u64)>::enc((from_seq, to_seq)),
            MeshMessageView::SyncResponse { events } => u32::enc(4) + <Vec<Event>>::enc(events),
            MeshMessageView::SnapshotBroadcast(x) => u32::enc(5) + EngineSnapshot::enc(x),
            MeshMessageView::HashVerify { seq, hash } => u32::enc(6) + <(u64, [u8; 8])>::enc((seq, hash)),
            MeshMessageView::ConsensusVote { proposal_seq, node_id, approved } => u32::enc(7) + <(u64, ([u8; 32], bool))>::enc((proposal_seq, (node_id, approved))),
            MeshMessageView::NodeAnnounce { node_id, role, addr } => u32::enc(8) + <([u8; 32], (NodeRole, String))>::enc((node_id, (role, addr))),
        }
    }

    open spec fn dec(s: Seq<u8>) -> Option<(MeshMessageView, Seq<u8>)> {
        match u32::dec(s) {
            None => None,
            Some((index, body)) => match index {
                0 => match Event::dec(body) {
                    None => None,
                    Some((x, rest)) => Some((MeshMessageView::EventReplication(x), rest)),
                },
                1 => match <Vec<Event>>::dec(body) {
                    None => None,
                    Some((x, rest)) => Some((MeshMessageView::EventBatch(x), rest)),
                },
                2 => match <([u8; 32], (u64, ([u8; 8], u64)))>::dec(body) {
                    None => None,
                    Some(((node_id, (last_seq, (state_hash, uptime_secs))), rest)) => Some((MeshMessageView::Heartbeat { node_id, last_seq, state_hash, uptime_secs }, rest)),
                },
                3 => match <(u64, u64)>::dec(body) {
                    None => None,
                    Some(((from_seq, to_seq), rest)) => Some((MeshMessageView::SyncRequest { from_seq, to_seq }, rest)),
                },
                4 => match <Vec<Event>>::dec(body) {
                    None => None,
                    Some((events, rest)) => Some((MeshMessageView::SyncResponse { events }, rest)),
                },
                5 => match EngineSnapshot::dec(body) {
                    None => None,
                    Some((x, rest)) => Some((MeshMessageView::SnapshotBroadcast(x), rest)),
                },
                6 => match <(u64, [u8; 8])>::dec(body) {
                    None => None,
                    Some(((seq, hash), rest)) => Some((MeshMessageView::HashVerify { seq, hash }, rest)),
                },
                7 => match <(u64, ([u8; 32], bool))>::dec(body) {
                    None => None,
                    Some(((proposal_seq, (node_id, approved)), rest)) => Some((MeshMessageView::ConsensusVote { proposal_seq, node_id, approved }, rest)),
                },
                8 => match <([u8; 32], (NodeRole, String))>::dec(body) {
                    None => None,
                    Some(((node_id, (role, addr)), rest)) => Some((MeshMessageView::NodeAnnounce { node_id, role, addr }, rest)),
                },
                _ => None,
            },
        }
    }

    proof fn round_trip(v: MeshMessageView, rest: Seq<u8>) {
        match v {
            MeshMessageView::EventReplication(x) => {
                codec::lemma_tagged::<Event>(0, x, rest);
            },
            MeshMessageView::EventBatch(x) => {
                codec::lemma_tagged::<Vec<Event>>(1, x, rest);
            },
            MeshMessageView::Heartbeat { node_id, last_seq, state_hash, uptime_secs } => {
                codec::lemma_tagged::<([u8; 32], (u64, ([u8; 8], u64)))>(2, (node_id, (last_seq, (state_hash, uptime_secs))), rest);
            },
            MeshMessageView::SyncRequest { from_seq, to_seq } => {
                codec::lemma_tagged::<(u64, u64)>(3, (from_seq, to_seq), rest);
            },
            MeshMessageView::SyncResponse { events } => {
                codec::lemma_tagged::<Vec<Event>>(4, events, rest);
            },
            MeshMessageView::SnapshotBroadcast(x) => {
                codec::lemma_tagged::<EngineSnapshot>(5, x, rest);
            },
            MeshMessageView::HashVerify { seq, hash } => {
                codec::lemma_tagged::<(u64, [u8; 8])>(6, (seq, hash), rest);
            },
            MeshMessageView::ConsensusVote { proposal_seq, node_id, approved } => {
                codec::lemma_tagged::<(u64, ([u8; 32], bool))>(7, (proposal_seq, (node_id, approved)), rest);
            },
            MeshMessageView::NodeAnnounce { node_id, role, addr } => {
                codec::lemma_tagged::<([u8; 32], (NodeRole, String))>(8, (node_id, (role, addr)), rest);
            },
        }
    }

    fn put(&self, out: &mut Vec<u8>) {
        let ghost before = out@;
        match self {
            MeshMessage::EventReplication(x) => {
                (0u32).put(out);
                x.put(out);
                assert(out@ =~= before + Self::enc(self.deep_view()));
            },
            MeshMessage::EventBatch(x) => {
                (1u32).put(out);
                x.put(out);
                assert(out@ =~= before + Self::enc(self.deep_view()));
            },
            MeshMessage::Heartbeat { node_id, last_seq, state_hash, uptime_secs } => {
                (2u32).put(out);
                node_id.put(out);
                last_seq.put(out);
                state_hash.put(out);
                uptime_secs.put(out);
                assert(node_id.deep_view() =~= node_id@);
                assert(state_hash.deep_view() =~= state_hash@);
                assert(out@ =~= before + Self::enc(self.deep_view()));
            },
            MeshMessage::SyncRequest { from_seq, to_seq } => {
                (3u32).put(out);
                from_seq.put(out);
                to_seq.put(out);
                assert(out@ =~= before + Self::enc(self.deep_view()));
            },
            MeshMessage::SyncResponse { events } => {
                (4u32).put(out);
                events.put(out);
                assert(out@ =~= before + Self::enc(self.deep_view()));
            },
            MeshMessage::SnapshotBroadcast(x) => {
                (5u32).put(out);
                x.put(out);
                assert(out@ =~= before + Self::enc(self.deep_view()));
            },
            MeshMessage::HashVerify { seq, hash } => {
                (6u32).put(out);
                seq.put(out);
                hash.put(out);
                assert(hash.deep_view() =~= hash@);
                assert(out@ =~= before + Self::enc(self.deep_view()));
            },
            MeshMessage::ConsensusVote { proposal_seq, node_id, approved } => {
                (7u32).put(out);
                proposal_seq.put(out);
                node_id.put(out);
                approved.put(out);
                assert(node_id.deep_view() =~= node_id@);
                assert(out@ =~= before + Self::enc(self.deep_view()));
            },
            MeshMessage::NodeAnnounce { node_id, role, addr } => {
                (8u32).put(out);
                node_id.put(out);
                role.put(out);
                addr.put(out);
                assert(node_id.deep_view() =~= node_id@);
                assert(out@ =~= before + Self::enc(self.deep_view()));
            },
        }
    }

    fn get(data: &[u8], pos: usize) -> (r: Result<(MeshMessage, usize), String>) {
        match u32::get(data, pos) {
            Err(e) => Err(e),
            Ok((index, body)) => match index {
                0 => match Event::get(data, body) {
                    Err(e) => Err(e),
                    Ok((x, next)) => {
                        Ok((MeshMessage::EventReplication(x), next))
                    },
                },
                1 => match <Vec<Event>>::get(data, body) {
                    Err(e) => Err(e),
                    Ok((x, next)) => {
                        Ok((MeshMessage::EventBatch(x), next))
                    },
                },
                2 => match <([u8; 32], (u64, ([u8; 8], u64)))>::get(data, body) {
                    Err(e) => Err(e),
                    Ok(((node_id, (last_seq, (state_hash, uptime_secs))), next)) => {
                        assert(node_id.deep_view() =~= node_id@);
                        assert(state_hash.deep_view() =~= state_hash@);
                        Ok((MeshMessage::Heartbeat { node_id, last_seq, state_hash, uptime_secs }, next))
                    },
                },
                3 => match <(u64, u64)>::get(data, body) {
                    Err(e) => Err(e),
                    Ok(((from_seq, to_seq), next)) => {
                        Ok((MeshMessage::SyncRequest { from_seq, to_seq }, next))
                    },
                },
                4 => match <Vec<Event>>::get(data, body) {
                    Err(e) => Err(e),
                    Ok((events, next)) => {
                        Ok((MeshMessage::SyncResponse { events }, next))
                    },
                },
                5 => match EngineSnapshot::get(data, body) {
                    Err(e) => Err(e),
                    Ok((x, next)) => {
                        Ok((MeshMessage::SnapshotBroadcast(x), next))
                    },
                },
                6 => match <(u64, [u8; 8])>::get(data, body) {
                    Err(e) => Err(e),
                    Ok(((seq, hash), next)) => {
                        assert(hash.deep_view() =~= hash@);
                        Ok((MeshMessage::HashVerify { seq, hash }, next))
                    },
                },
                7 => match <(u64, ([u8; 32], bool))>::get(data, body) {
                    Err(e) => Err(e),
                    Ok(((proposal_seq, (node_id, approved)), next)) => {
                        assert(node_id.deep_view() =~= node_id@);
                        Ok((MeshMessage::ConsensusVote { proposal_seq, node_id, approved }, next))
                    },
                },
                8 => match <([u8; 32], (NodeRole, String))>::get(data, body) {
                    Err(e) => Err(e),
                    Ok(((node_id, (role, addr)), next)) => {
                        assert(node_id.deep_view() =~= node_id@);
                        Ok((MeshMessage::NodeAnnounce { node_id, role, addr }, next))
                    },
                },
                _ => Err(codec::invalid_variant(index, 9)),
            },
        }
    }
}

/// A message begins with the number of its kind, counted from zero, as four bytes with the least
/// significant first.
pub proof fn messages_begin_with_their_kind(msg: MeshMessageView)
    ensures
        vstd::bytes::spec_u32_from_le_bytes(MeshMessage::enc(msg).take(4)) == (match msg {
            MeshMessageView::EventReplication(_) => 0u32,
            MeshMessageView::EventBatch(_) => 1u32,
            MeshMessageView::Heartbeat { .. } => 2u32,
            MeshMessageView::SyncRequest { .. } => 3u32,
            MeshMessageView::SyncResponse { .. } => 4u32,
            MeshMessageView::SnapshotBroadcast(_) => 5u32,
            MeshMessageView::HashVerify { .. } => 6u32,
            MeshMessageView::ConsensusVote { .. } => 7u32,
            MeshMessageView::NodeAnnounce { .. } => 8u32,
        }),
{
    vstd::bytes::lemma_auto_spec_u32_to_from_le_bytes();
    let s = MeshMessage::enc(msg);
    match msg {
        MeshMessageView::EventReplication(_) => {
            assert(s.take(4) =~= vstd::bytes::spec_u32_to_le_bytes(0));
        },
        MeshMessageView::EventBatch(_) => {
            assert(s.take(4) =~= vstd::bytes::spec_u32_to_le_bytes(1));
        },
        MeshMessageView::Heartbeat { .. } => {
            assert(s.take(4) =~= vstd::bytes::spec_u32_to_le_bytes(2));
        },
        MeshMessageView::SyncRequest { .. } => {
            assert(s.take(4) =~= vstd::bytes::spec_u32_to_le_bytes(3));
        },
        MeshMessageView::SyncResponse { .. } => {
            assert(s.take(4) =~= vstd::bytes::spec_u32_to_le_bytes(4));
        },
        MeshMessageView::SnapshotBroadcast(_) => {
            assert(s.take(4) =~= vstd::bytes::spec_u32_to_le_bytes(5));
        },
        MeshMessageView::HashVerify { .. } => {
            assert(s.take(4) =~= vstd::bytes::spec_u32_to_le_bytes(6));
        },
        MeshMessageView::ConsensusVote { .. } => {
            assert(s.take(4) =~= vstd::bytes::spec_u32_to_le_bytes(7));
        },
        MeshMessageView::NodeAnnounce { .. } => {
            assert(s.take(4) =~= vstd::bytes::spec_u32_to_le_bytes(8));
        },
    }
}

/// The fields of the messages that hold no events stand one after the other behind the kind.
pub proof fn message_fields_are_laid_out(
    node_id: Seq<u8>,
    first: u64,
    second: u64,
    hash: Seq<u8>,
    approved: bool,
)
    ensures
        MeshMessage::enc(
            MeshMessageView::Heartbeat {
                node_id,
                last_seq: first,
                state_hash: hash,
                uptime_secs: second,
            },
        ).skip(4) == <[u8; 32]>::enc(node_id) + (u64::enc(first) + (<[u8; 8]>::enc(hash)
            + u64::enc(second))),
        MeshMessage::enc(
            MeshMessageView::SyncRequest { from_seq: first, to_seq: second },
        ).skip(4) == u64::enc(first) + u64::enc(second),
        MeshMessage::enc(MeshMessageView::HashVerify { seq: first, hash }).skip(4) == u64::enc(
            first,
        ) + <[u8; 8]>::enc(hash),
        MeshMessage::enc(
            MeshMessageView::ConsensusVote { proposal_seq: first, node_id, approved },
        ).skip(4) == u64::enc(first) + (<[u8; 32]>::enc(node_id) + bool::enc(approved)),
{
    vstd::bytes::lemma_auto_spec_u32_to_from_le_bytes();
    let a = <[u8; 32]>::enc(node_id) + (u64::enc(first) + (<[u8; 8]>::enc(hash) + u64::enc(
        second,
    )));
    assert((u32::enc(2) + a).skip(4) =~= a);
    let b = u64::enc(first) + u64::enc(second);
    assert((u32::enc(3) + b).skip(4) =~= b);
    let c = u64::enc(first) + <[u8; 8]>::enc(hash);
    assert((u32::enc(6) + c).skip(4) =~= c);
    let d = u64::enc(first) + (<[u8; 32]>::enc(node_id) + bool::enc(approved));
    assert((u32::enc(7) + d).skip(4) =~= d);
}

} // verus!
