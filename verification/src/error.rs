//! Errors of the engine.
use vstd::prelude::*;
use vstd::string::*;

use crate::text;
use crate::types::Venue;

verus! {

/// What can go wrong.
#[derive(Debug)]
pub enum AtomicError {
    SequenceGap { expected: u64, got: u64 },
    DuplicateSeq(u64),
    StateHashMismatch { seq: u64, local_hash: String, remote_hash: String },
    SnapshotNotFound(u64),
    OrderNotFound(String),
    OrderAlreadyExists(String),
    InvalidOrderTransition { from: String, to: String },
    RiskLimitExceeded(String),
    KillSwitch(String),
    NodeUnreachable(String),
    ConsensusFailed(String),
    ConnectionFailed { venue: Venue, reason: String },
    FeedDesync { venue: Venue, reason: String },
    UnknownSymbol(String),
    ReplayDivergence { seq: u64, reason: String },
    Serialization(String),
    Io(String),
    Config(String),
}

impl AtomicError {
    /// The error as one line of text.
    pub open spec fn message(&self) -> Seq<char> {
        match self {
            AtomicError::SequenceGap { expected, got } => "sequence gap: expected "@
                + text::decimal(*expected as nat) + ", got "@ + text::decimal(*got as nat),
            AtomicError::DuplicateSeq(seq) => "duplicate sequence number: "@ + text::decimal(
                *seq as nat,
            ),
            AtomicError::StateHashMismatch { seq, local_hash, remote_hash } =>
            "state hash mismatch at seq "@ + text::decimal(*seq as nat) + ": local="@
                + local_hash@ + ", remote="@ + remote_hash@,
            AtomicError::SnapshotNotFound(seq) => "snapshot not found for seq "@ + text::decimal(
                *seq as nat,
            ),
            AtomicError::OrderNotFound(id) => "order not found: "@ + id@,
            AtomicError::OrderAlreadyExists(id) => "order already exists: "@ + id@,
            AtomicError::InvalidOrderTransition { from, to } =>
            "invalid order state transition: "@ + from@ + " -> "@ + to@,
            AtomicError::RiskLimitExceeded(what) => "risk limit exceeded: "@ + what@,
            AtomicError::KillSwitch(why) => "kill switch activated: "@ + why@,
            AtomicError::NodeUnreachable(which) => "node unreachable: "@ + which@,
            AtomicError::ConsensusFailed(why) => "consensus failed: "@ + why@,
            AtomicError::ConnectionFailed { venue, reason } => "connection to "@ + venue.name()
                + " failed: "@ + reason@,
            AtomicError::FeedDesync { venue, reason } => "feed desync on "@ + venue.name() + ": "@
                + reason@,
            AtomicError::UnknownSymbol(symbol) => "unknown symbol: "@ + symbol@,
            AtomicError::ReplayDivergence { seq, reason } => "replay divergence at seq "@
                + text::decimal(*seq as nat) + ": "@ + reason@,
            AtomicError::Serialization(what) => "serialization error: "@ + what@,
            AtomicError::Io(what) => "io error: "@ + what@,
            AtomicError::Config(what) => "config error: "@ + what@,
        }
    }

    /// The error as one line of text.
    pub fn to_text(&self) -> (r: String)
        ensures
            r@ == self.message(),
    {
        let mut out = String::new();
        match self {
            AtomicError::SequenceGap { expected, got } => {
                out.append("sequence gap: expected ");
                text::push_u64(&mut out, *expected);
                out.append(", got ");
                text::push_u64(&mut out, *got);
            },
            AtomicError::DuplicateSeq(seq) => {
                out.append("duplicate sequence number: ");
                text::push_u64(&mut out, *seq);
            },
            AtomicError::StateHashMismatch { seq, local_hash, remote_hash } => {
                out.append("state hash mismatch at seq ");
                text::push_u64(&mut out, *seq);
                out.append(": local=");
                out.append(local_hash.as_str());
                out.append(", remote=");
                out.append(remote_hash.as_str());
            },
            AtomicError::SnapshotNotFound(seq) => {
                out.append("snapshot not found for seq ");
                text::push_u64(&mut out, *seq);
            },
            AtomicError::OrderNotFound(id) => {
                out.append("order not found: ");
                out.append(id.as_str());
            },
            AtomicError::OrderAlreadyExists(id) => {
                out.append("order already exists: ");
                out.append(id.as_str());
            },
            AtomicError::InvalidOrderTransition { from, to } => {
                out.append("invalid order state transition: ");
                out.append(from.as_str());
                out.append(" -> ");
                out.append(to.as_str());
            },
            AtomicError::RiskLimitExceeded(what) => {
                out.append("risk limit exceeded: ");
                out.append(what.as_str());
            },
            AtomicError::KillSwitch(why) => {
                out.append("kill switch activated: ");
                out.append(why.as_str());
            },
            AtomicError::NodeUnreachable(which) => {
                out.append("node unreachable: ");
                out.append(which.as_str());
            },
            AtomicError::ConsensusFailed(why) => {
                out.append("consensus failed: ");
                out.append(why.as_str());
            },
            AtomicError::ConnectionFailed { venue, reason } => {
                out.append("connection to ");
                out.append(venue.as_str());
                out.append(" failed: ");
                out.append(reason.as_str());
            },
            AtomicError::FeedDesync { venue, reason } => {
                out.append("feed desync on ");
                out.append(venue.as_str());
                out.append(": ");
                out.append(reason.as_str());
            },
            AtomicError::UnknownSymbol(symbol) => {
                out.append("unknown symbol: ");
                out.append(symbol.as_str());
            },
            AtomicError::ReplayDivergence { seq, reason } => {
                out.append("replay divergence at seq ");
                text::push_u64(&mut out, *seq);
                out.append(": ");
                out.append(reason.as_str());
            },
            AtomicError::Serialization(what) => {
                out.append("serialization error: ");
                out.append(what.as_str());
            },
            AtomicError::Io(what) => {
                out.append("io error: ");
                out.append(what.as_str());
            },
            AtomicError::Config(what) => {
                out.append("config error: ");
                out.append(what.as_str());
            },
        }
        assert(out@ =~= self.message());
        out
    }
}

} // verus!
