//! Nodes of the mesh.
use vstd::prelude::*;
use vstd::string::*;
use vstd::utf8::*;

use crate::text;

verus! {

/// 32-byte node identifier.
pub type NodeId = [u8; 32];

/// Role a node plays in the mesh.
#[derive(Debug, Clone, Copy, PartialEq, Eq, Hash, Structural)]
pub enum NodeRole {
    /// Assigns global sequence numbers, coordinates consensus.
    Leader,
    /// Replicates events, can be promoted to leader.
    Follower,
    /// Read-only, receives events but takes no part in consensus.
    Observer,
}

impl NodeRole {
    /// The name of the role.
    pub open spec fn name(self) -> Seq<char> {
        match self {
            NodeRole::Leader => "Leader"@,
            NodeRole::Follower => "Follower"@,
            NodeRole::Observer => "Observer"@,
        }
    }

    /// The name of the role.
    pub fn as_str(&self) -> (r: &'static str)
        ensures
            r@ == self.name(),
    {
        match self {
            NodeRole::Leader => "Leader",
            NodeRole::Follower => "Follower",
            NodeRole::Observer => "Observer",
        }
    }
}

/// Current state of a node in the mesh.
#[derive(Debug, Clone, Copy, PartialEq, Eq, Hash, Structural)]
pub enum NodeState {
    /// Node is booting up, loading its snapshot.
    Initializing,
    /// Node is catching up with the event log.
    Syncing,
    /// Node is fully operational.
    Ready,
    /// Node is processing events.
    Active,
    /// Node detected state divergence and halted.
    Diverged,
    /// Node is shutting down gracefully.
    Draining,
    /// Node is offline.
    Offline,
}

impl NodeState {
    /// The name of the state.
    pub open spec fn name(self) -> Seq<char> {
        match self {
            NodeState::Initializing => "Initializing"@,
            NodeState::Syncing => "Syncing"@,
            NodeState::Ready => "Ready"@,
            NodeState::Active => "Active"@,
            NodeState::Diverged => "Diverged"@,
            NodeState::Draining => "Draining"@,
            NodeState::Offline => "Offline"@,
        }
    }

    /// Whether a node in this state has halted: it found that its state is not that of a peer, and
    /// processes no more events.
    pub open spec fn halted(self) -> bool {
        self == NodeState::Diverged
    }

    /// Whether a node in this state has halted.
    pub fn is_halted(&self) -> (r: bool)
        ensures
            r == self.halted(),
    {
        match self {
            NodeState::Diverged => true,
            _ => false,
        }
    }

    /// The name of the state.
    pub fn as_str(&self) -> (r: &'static str)
        ensures
            r@ == self.name(),
    {
        match self {
            NodeState::Initializing => "Initializing",
            NodeState::Syncing => "Syncing",
            NodeState::Ready => "Ready",
            NodeState::Active => "Active",
            NodeState::Diverged => "Diverged",
            NodeState::Draining => "Draining",
            NodeState::Offline => "Offline",
        }
    }
}

/// The lower-case hexadecimal digit of a number below 16.
pub open spec fn hex_digit(d: nat) -> char {
    if d < 10 {
        ('0' as nat + d) as char
    } else {
        ('a' as nat + d - 10) as char
    }
}

/// Bytes as lower-case hexadecimal, two digits a byte, high digit first.
pub open spec fn hex_text(bytes: Seq<u8>) -> Seq<char> {
    Seq::new(
        2 * bytes.len(),
        |i: int|
            if i % 2 == 0 {
                hex_digit((bytes[i / 2] / 16) as nat)
            } else {
                hex_digit((bytes[i / 2] % 16) as nat)
            },
    )
}

/// `hex::encode` gives two lower-case hexadecimal digits for each byte, the high digit first.
#[verifier::external_body]
pub(crate) fn hex_encode(bytes: &[u8]) -> (r: String)
    ensures
        r@ == hex_text(bytes@),
{
    hex::encode(bytes)
}

/// The identifier of a named node: the first 32 bytes of the name, with zeros behind a shorter
/// name.
pub open spec fn id_bytes(name: Seq<u8>) -> Seq<u8> {
    Seq::new(
        32,
        |i: int|
            if i < name.len() {
                name[i]
            } else {
                0u8
            },
    )
}

/// The identifier of a named node.
pub fn node_id_bytes(name: &str) -> (r: NodeId)
    ensures
        r@ == id_bytes(encode_utf8(name@)),
{
    let bytes: &[u8] = name.as_bytes();
    let mut id: NodeId = [0u8; 32];
    let mut i: usize = 0;
    while i < 32 && i < bytes.len()
        invariant
            i <= 32,
            i <= bytes@.len(),
            id@.len() == 32,
            forall|k: int| 0 <= k < i ==> #[trigger] id@[k] == bytes@[k],
            forall|k: int| i <= k < 32 ==> #[trigger] id@[k] == 0,
        decreases 32 - i,
    {
        id[i] = bytes[i];
        i += 1;
    }
    assert(id@ =~= id_bytes(bytes@));
    id
}

/// Information about a node in the mesh.
#[derive(Debug)]
pub struct NodeInfo {
    pub id: NodeId,
    pub role: NodeRole,
    pub state: NodeState,
    pub addr: String,
    pub last_seq: u64,
    pub last_heartbeat: u64,
    pub uptime_secs: u64,
}

impl NodeInfo {
    /// A node that is starting up and has seen nothing yet.
    pub fn new(id: NodeId, role: NodeRole, addr: String) -> (r: Self)
        ensures
            r == (NodeInfo {
                id,
                role,
                state: NodeState::Initializing,
                addr,
                last_seq: 0,
                last_heartbeat: 0,
                uptime_secs: 0,
            }),
    {
        NodeInfo {
            id,
            role,
            state: NodeState::Initializing,
            addr,
            last_seq: 0,
            last_heartbeat: 0,
            uptime_secs: 0,
        }
    }

    /// The first eight bytes of the id in hexadecimal.
    pub fn id_hex(&self) -> (r: String)
        ensures
            r@ == hex_text(self.id@.take(8)),
    {
        short_id(&self.id)
    }

    /// The node on one line, for logs.
    pub fn to_text(&self) -> (r: String)
        ensures
            r@ == "Node["@ + hex_text(self.id@.take(8)) + "] role="@ + self.role.name()
                + " state="@ + self.state.name() + " seq="@ + text::decimal(self.last_seq as nat),
    {
        let mut out = "Node[".to_owned();
        out.append(self.id_hex().as_str());
        out.append("] role=");
        out.append(self.role.as_str());
        out.append(" state=");
        out.append(self.state.as_str());
        out.append(" seq=");
        text::push_u64(&mut out, self.last_seq);
        out
    }
}

/// The first eight bytes of a node id in hexadecimal.
pub fn short_id(id: &NodeId) -> (r: String)
    ensures
        r@ == hex_text(id@.take(8)),
{
    let head: [u8; 8] = [id[0], id[1], id[2], id[3], id[4], id[5], id[6], id[7]];
    assert(head@ =~= id@.take(8));
    hex_encode(&head)
}

/// A byte is written as two of the digits `0` to `9` and `a` to `f`, the higher one first, and
/// different bytes are written differently.
pub proof fn hex_has_two_digits_a_byte(bytes: Seq<u8>, other: Seq<u8>, i: int)
    requires
        0 <= i < bytes.len(),
    ensures
        hex_text(bytes).len() == 2 * bytes.len(),
        ({
            let high = hex_text(bytes)[2 * i] as int;
            let low = hex_text(bytes)[2 * i + 1] as int;
            &&& 48 <= high <= 57 || 97 <= high <= 102
            &&& 48 <= low <= 57 || 97 <= low <= 102
            &&& bytes[i] == 16 * (if high <= 57 {
                high - 48
            } else {
                high - 87
            }) + (if low <= 57 {
                low - 48
            } else {
                low - 87
            })
        }),
        hex_text(bytes) == hex_text(other) ==> bytes == other,
{
    lemma_hex_digits(bytes, i);
    if hex_text(bytes) == hex_text(other) {
        assert(hex_text(bytes).len() == 2 * bytes.len());
        assert(hex_text(other).len() == 2 * other.len());
        assert forall|k: int| 0 <= k < bytes.len() implies bytes[k] == other[k] by {
            lemma_hex_digits(bytes, k);
            lemma_hex_digits(other, k);
        }
        assert(bytes =~= other);
    }
}

/// The two digits of a byte.
proof fn lemma_hex_digits(bytes: Seq<u8>, i: int)
    requires
        0 <= i < bytes.len(),
    ensures
        ({
            let high = hex_text(bytes)[2 * i] as int;
            let low = hex_text(bytes)[2 * i + 1] as int;
            &&& 48 <= high <= 57 || 97 <= high <= 102
            &&& 48 <= low <= 57 || 97 <= low <= 102
            &&& bytes[i] == 16 * (if high <= 57 {
                high - 48
            } else {
                high - 87
            }) + (if low <= 57 {
                low - 48
            } else {
                low - 87
            })
        }),
{
    let b = bytes[i] as int;
    assert((2 * i) % 2 == 0 && (2 * i) / 2 == i);
    assert((2 * i + 1) % 2 == 1 && (2 * i + 1) / 2 == i);
    assert(hex_text(bytes)[2 * i] == hex_digit((bytes[i] / 16) as nat));
    assert(hex_text(bytes)[2 * i + 1] == hex_digit((bytes[i] % 16) as nat));
}

/// A name of up to 32 bytes stands at the front of its identifier, with zeros behind; a longer one
/// is cut to 32.
pub proof fn names_fill_identifiers(name: Seq<u8>)
    ensures
        id_bytes(name).len() == 32,
        name.len() <= 32 ==> id_bytes(name).take(name.len() as int) == name,
        name.len() > 32 ==> id_bytes(name) == name.take(32),
        forall|i: int| name.len() <= i < 32 ==> #[trigger] id_bytes(name)[i] == 0,
{
    if name.len() <= 32 {
        assert(id_bytes(name).take(name.len() as int) =~= name);
    } else {
        assert(id_bytes(name) =~= name.take(32));
    }
}

} // verus!
