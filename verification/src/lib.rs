//! Runtime glue of a BFT state-machine-replication node: the work-queue
//! driven state transfer manager, the checkpoint ingestion pipeline, and
//! the follower dissemination router with its deterministic target
//! selection.
//!
//! The pluggable state-sync protocol, the network transport and the
//! hosting threads are collaborators: the protocol is consumed through
//! the [`state_transfer::StateTransferProtocol`] trait, and the router
//! hands back explicit broadcast decisions instead of touching a
//! network node.

pub mod types;
pub mod queue;
pub mod oneshot;
pub mod state_transfer;
pub mod divisible_state;
pub mod follower_handling;
