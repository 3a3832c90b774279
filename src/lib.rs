//! Replication core of a chat service: election bookkeeping, a consistency-checked
//! replicated log with a snapshotting state-machine wrapper, a proposal sequencer
//! and the bookkeeping of commit dissemination to subscribers.
pub mod election;
pub mod wal;
pub mod state_machine;
pub mod sequencer;
pub mod publisher;
