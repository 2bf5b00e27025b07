//! Plain data carried between the replica's subsystems: node identities,
//! quorum facts, stored wire messages, and the result types of the
//! pluggable state-sync protocol.

use vstd::prelude::*;

verus! {

/// Identifier of a node (replica or follower) in the cluster.
pub type NodeId = u32;

/// Sequence number of a consensus decision or checkpoint.
pub type SeqNo = u64;

/// The quorum facts a replica consumes: quorum size `n`, maximum
/// tolerated faults `f`, and the identity of the current primary.
#[derive(Clone, Copy, Debug, PartialEq, Eq, Structural)]
pub struct ViewInfo {
    pub n: usize,
    pub f: usize,
    pub primary: NodeId,
}

/// Header of a stored wire message; only the sender identity is read by
/// this crate's logic, the rest of the wire format is out of scope.
#[derive(Clone, Copy, Debug, PartialEq, Eq, Structural)]
pub struct Header {
    pub from: NodeId,
}

/// A message as delivered by the network layer: a header plus the
/// serialized protocol payload, which this crate never interprets.
#[derive(Debug, PartialEq, Eq)]
pub struct StoredMessage {
    pub header: Header,
    pub payload: Vec<u8>,
}

/// A system-level wire message built by the router for follower
/// dissemination.
#[derive(Debug, PartialEq, Eq)]
pub enum SystemMessage {
    ForwardedProtocolMessage(StoredMessage),
}

/// Outcome of one completed or progressing state transfer, as reported
/// by the pluggable protocol.
#[derive(Clone, Copy, Debug, PartialEq, Eq, Structural)]
pub enum STResult {
    StateTransferRunning,
    StateTransferFinished(SeqNo),
    StateTransferNotNeeded(SeqNo),
}

/// What the pluggable protocol asks of its driver when polled.
#[derive(Debug, PartialEq, Eq)]
pub enum STPollResult {
    /// Nothing to do this round; wait for the next trigger.
    ReceiveMsg,
    /// The protocol wants to be polled again without delay.
    RePoll,
    /// The protocol wants this message routed through its main
    /// processing entry now.
    Exec(StoredMessage),
    /// The protocol reports transfer progress.
    STResult(STResult),
}

/// Reply to an application-state query: either a checkpoint should be
/// produced, or there is no state to hand out.
#[derive(Clone, Copy, Debug, PartialEq, Eq, Structural)]
pub enum ExecutionResult {
    /// No checkpoint is owed; the "no state" sentinel reply.
    Nil,
    /// The application should begin producing a checkpoint.
    BeginCheckpoint,
}

/// Failure of one operation of the pluggable protocol. Such failures
/// are non-fatal to the driver and are absorbed locally.
#[derive(Clone, Copy, Debug, PartialEq, Eq, Structural)]
pub struct STError;

/// A timeout event delivered on the control queue. Accepted but not
/// acted upon by the current driver.
#[derive(Clone, Copy, Debug, PartialEq, Eq, Structural)]
pub struct TimeoutEvent {
    pub seq: SeqNo,
}

/// An opaque descriptor of divisible application state.
#[derive(Debug, PartialEq, Eq)]
pub struct StateDescriptor {
    pub payload: Vec<u8>,
}

/// An opaque fragment of divisible application state.
#[derive(Debug, PartialEq, Eq)]
pub struct StatePart {
    pub payload: Vec<u8>,
}

/// Payload of one checkpoint event produced by the application.
#[derive(Debug, PartialEq, Eq)]
pub enum AppState {
    StateDescriptor(StateDescriptor),
    StatePart(Vec<StatePart>),
    /// The checkpoint bearing this event's sequence number is complete.
    Done,
}

/// One checkpoint event, tagged by the sequence number it belongs to.
#[derive(Debug, PartialEq, Eq)]
pub struct AppStateMessage {
    pub seq: SeqNo,
    pub state: AppState,
}

} // verus!
