//! Snapshots of the engine state, and their hashes.
use vstd::bytes::*;
use vstd::prelude::*;

use crate::codec::Wire;
use crate::node;

verus! {

/// The 64-bit XXH3 hash of a byte sequence, with seed zero and the default secret.
pub uninterp spec fn xxh3(data: Seq<u8>) -> u64;

/// Calls `xxhash_rust::xxh3::xxh3_64`, whose result depends on the bytes alone.
#[verifier::external_body]
fn xxh3_of(data: &[u8]) -> (r: u64)
    ensures
        r == xxh3(data@),
{
    xxhash_rust::xxh3::xxh3_64(data)
}

/// The state hash of encoded state: its XXH3 hash, least significant byte first.
pub open spec fn hash_of(data: Seq<u8>) -> Seq<u8> {
    spec_u64_to_le_bytes(xxh3(data))
}

/// Whether two hashes are equal.
pub fn same_hash(a: &[u8; 8], b: &[u8; 8]) -> (r: bool)
    ensures
        r == (a@ == b@),
{
    let mut i: usize = 0;
    while i < 8
        invariant
            i <= 8,
            a@.len() == 8,
            b@.len() == 8,
            forall|k: int| 0 <= k < i ==> a@[k] == b@[k],
        decreases 8 - i,
    {
        if a[i] != b[i] {
            return false;
        }
        i += 1;
    }
    assert(a@ =~= b@);
    true
}

/// Copies a list of bytes.
pub fn clone_bytes(bytes: &Vec<u8>) -> (r: Vec<u8>)
    ensures
        r@ == bytes@,
{
    let mut out: Vec<u8> = Vec::new();
    out.extend_from_slice(bytes.as_slice());
    assert(out@ =~= bytes@);
    out
}

/// Engine state at a sequence number, for recovery and for comparison between nodes.
#[derive(Debug)]
pub struct EngineSnapshot {
    /// Sequence number at which this snapshot was taken.
    pub seq: u64,
    /// Logical timestamp.
    pub timestamp: u64,
    /// Hash of the state data.
    pub state_hash: [u8; 8],
    /// Number of events processed since the last snapshot.
    pub events_since_last: u64,
    /// Encoded state, for recovery.
    pub state_data: Vec<u8>,
}

/// The contents of a [`EngineSnapshot`].
#[verifier::ext_equal]
pub struct EngineSnapshotView {
    pub seq: u64,
    pub timestamp: u64,
    pub state_hash: Seq<u8>,
    pub events_since_last: u64,
    pub state_data: Seq<u8>,
}

impl View for EngineSnapshot {
    type V = EngineSnapshotView;

    open spec fn view(&self) -> EngineSnapshotView {
        EngineSnapshotView {
            seq: self.seq,
            timestamp: self.timestamp,
            state_hash: self.state_hash@,
            events_since_last: self.events_since_last,
            state_data: self.state_data@,
        }
    }
}

impl DeepView for EngineSnapshot {
    type V = EngineSnapshotView;

    open spec fn deep_view(&self) -> EngineSnapshotView {
        self@
    }
}

impl Clone for EngineSnapshot {
    fn clone(&self) -> (r: Self)
        ensures
            r@ == self@,
    {
        EngineSnapshot {
            seq: self.seq,
            timestamp: self.timestamp,
            state_hash: self.state_hash,
            events_since_last: self.events_since_last,
            state_data: clone_bytes(&self.state_data),
        }
    }
}

impl EngineSnapshotView {
    /// Whether the hash is that of the state data.
    pub open spec fn verified(self) -> bool {
        hash_of(self.state_data) == self.state_hash
    }
}

impl EngineSnapshot {
    /// The hash of encoded state.
    pub fn compute_hash(data: &[u8]) -> (r: [u8; 8])
        ensures
            r@ == hash_of(data@),
    {
        let bytes: Vec<u8> = u64_to_le_bytes(xxh3_of(data));
        let hash: [u8; 8] = [
            bytes[0],
            bytes[1],
            bytes[2],
            bytes[3],
            bytes[4],
            bytes[5],
            bytes[6],
            bytes[7],
        ];
        assert(hash@ =~= bytes@);
        hash
    }

    /// Whether the snapshot's hash matches its state data.
    pub fn verify(&self) -> (r: bool)
        ensures
            r == self@.verified(),
    {
        let computed = Self::compute_hash(self.state_data.as_slice());
        same_hash(&computed, &self.state_hash)
    }

    /// Whether two snapshots were taken at the same sequence number and agree.
    pub fn hashes_match(&self, other: &EngineSnapshot) -> (r: bool)
        ensures
            r == (self@.seq == other@.seq && self@.state_hash == other@.state_hash),
    {
        self.seq == other.seq && same_hash(&self.state_hash, &other.state_hash)
    }

    /// The state hash in hexadecimal.
    pub fn hash_hex(&self) -> (r: String)
        ensures
            r@ == node::hex_text(self@.state_hash),
    {
        node::hex_encode(&self.state_hash)
    }
}

/// Events between two sequence numbers, to apply on top of a snapshot.
#[derive(Debug)]
pub struct DeltaSnapshot {
    /// Sequence number of the snapshot this delta applies to.
    pub base_seq: u64,
    /// Sequence number after applying the delta.
    pub current_seq: u64,
    /// Encoded events between the two.
    pub delta_data: Vec<u8>,
    /// Hash of the state after applying the delta.
    pub result_hash: [u8; 8],
}

/// The contents of a [`DeltaSnapshot`].
#[verifier::ext_equal]
pub struct DeltaSnapshotView {
    pub base_seq: u64,
    pub current_seq: u64,
    pub delta_data: Seq<u8>,
    pub result_hash: Seq<u8>,
}

impl View for DeltaSnapshot {
    type V = DeltaSnapshotView;

    open spec fn view(&self) -> DeltaSnapshotView {
        DeltaSnapshotView {
            base_seq: self.base_seq,
            current_seq: self.current_seq,
            delta_data: self.delta_data@,
            result_hash: self.result_hash@,
        }
    }
}

impl DeepView for DeltaSnapshot {
    type V = DeltaSnapshotView;

    open spec fn deep_view(&self) -> DeltaSnapshotView {
        self@
    }
}

impl Clone for DeltaSnapshot {
    fn clone(&self) -> (r: Self)
        ensures
            r@ == self@,
    {
        DeltaSnapshot {
            base_seq: self.base_seq,
            current_seq: self.current_seq,
            delta_data: clone_bytes(&self.delta_data),
            result_hash: self.result_hash,
        }
    }
}

/// Whether each delta starts where the one before it ends.
pub open spec fn chained(deltas: Seq<DeltaSnapshot>) -> bool {
    forall|i: int, j: int|
        0 <= i && j == i + 1 && j < deltas.len() ==> (#[trigger] deltas[i]).current_seq == (
        #[trigger] deltas[j]).base_seq
}

impl DeltaSnapshot {
    /// Whether each delta starts where the one before it ends. The hash of the base is not
    /// looked at.
    pub fn verify_chain(_base_hash: [u8; 8], deltas: &[DeltaSnapshot]) -> (r: bool)
        ensures
            r == chained(deltas@),
    {
        if deltas.len() == 0 {
            return true;
        }
        let mut i: usize = 0;
        while i < deltas.len() - 1
            invariant
                i < deltas@.len(),
                forall|a: int, b: int|
                    0 <= a && b == a + 1 && b <= i ==> (#[trigger] deltas@[a]).current_seq == (
                    #[trigger] deltas@[b]).base_seq,
            decreases deltas.len() - i,
        {
            if deltas[i].current_seq != deltas[i + 1].base_seq {
                assert(!chained(deltas@)) by {
                    assert(deltas@[i as int].current_seq != deltas@[i + 1].base_seq);
                }
                return false;
            }
            i += 1;
        }
        true
    }
}

impl Wire for EngineSnapshot {
    open spec fn fits(v: EngineSnapshotView) -> bool {
        <(u64, (u64, ([u8; 8], (u64, Vec<u8>))))>::fits((v.seq, (v.timestamp, (v.state_hash, (v.events_since_last, v.state_data)))))
    }

    open spec fn enc(v: EngineSnapshotView) -> Seq<u8> {
        <(u64, (u64, ([u8; 8], (u64, Vec<u8>))))>::enc((v.seq, (v.timestamp, (v.state_hash, (v.events_since_last, v.state_data)))))
    }

    open spec fn dec(s: Seq<u8>) -> Option<(EngineSnapshotView, Seq<u8>)> {
        match <(u64, (u64, ([u8; 8], (u64, Vec<u8>))))>::dec(s) {
            None => None,
            Some(((seq, (timestamp, (state_hash, (events_since_last, state_data)))), rest)) => Some((EngineSnapshotView { seq, timestamp, state_hash, events_since_last, state_data }, rest)),
        }
    }

    proof fn round_trip(v: EngineSnapshotView, rest: Seq<u8>) {
        <(u64, (u64, ([u8; 8], (u64, Vec<u8>))))>::round_trip((v.seq, (v.timestamp, (v.state_hash, (v.events_since_last, v.state_data)))), rest);
    }

    fn put(&self, out: &mut Vec<u8>) {
        let ghost before = out@;
        self.seq.put(out);
        self.timestamp.put(out);
        self.state_hash.put(out);
        self.events_since_last.put(out);
        self.state_data.put(out);
        assert(self.state_hash.deep_view() =~= self.state_hash@);
        assert(self.state_data.deep_view() =~= self.state_data@);
        assert(out@ =~= before + Self::enc(self.deep_view()));
    }

    fn get(data: &[u8], pos: usize) -> (r: Result<(EngineSnapshot, usize), String>) {
        match <(u64, (u64, ([u8; 8], (u64, Vec<u8>))))>::get(data, pos) {
            Err(e) => Err(e),
            Ok(((seq, (timestamp, (state_hash, (events_since_last, state_data)))), next)) => {
                assert(state_hash.deep_view() =~= state_hash@);
                assert(state_data.deep_view() =~= state_data@);
                Ok((EngineSnapshot { seq, timestamp, state_hash, events_since_last, state_data }, next))
            },
        }
    }
}

/// A chain of deltas holds together exactly where it does without the last one, and that starts
/// where the one before it ends. A single delta always does.
pub proof fn chains_link_up(deltas: Seq<DeltaSnapshot>, last: DeltaSnapshot)
    ensures
        chained(seq![last]),
        deltas.len() > 0 ==> (chained(deltas.push(last)) <==> chained(deltas)
            && deltas.last().current_seq == last.base_seq),
{
    let all = deltas.push(last);
    let n = deltas.len() as int;
    if n > 0 {
        if chained(all) {
            assert(all[n - 1].current_seq == all[n].base_seq);
            assert forall|i: int, j: int|
                0 <= i && j == i + 1 && j < deltas.len() implies (
            #[trigger] deltas[i]).current_seq == (#[trigger] deltas[j]).base_seq by {
                assert(all[i] == deltas[i] && all[j] == deltas[j]);
            }
        }
        if chained(deltas) && deltas.last().current_seq == last.base_seq {
            assert forall|i: int, j: int| 0 <= i && j == i + 1 && j < all.len() implies (
            #[trigger] all[i]).current_seq == (#[trigger] all[j]).base_seq by {
                assert(all[i] == deltas[i]);
                if j < n {
                    assert(all[j] == deltas[j]);
                    assert(deltas[i].current_seq == deltas[j].base_seq);
                }
            }
        }
    }
}

/// Data is verified against the hash of all of it: the eight bytes of its XXH3 hash, the least
/// significant first.
pub proof fn snapshots_hold_their_hash(s: EngineSnapshotView, hash: Seq<u8>)
    ensures
        (EngineSnapshotView { state_hash: hash, ..s }).verified() <==> hash
            == spec_u64_to_le_bytes(xxh3(s.state_data)),
{
}

} // verus!
