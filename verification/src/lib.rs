//! Core of a journal server: the storage node of a distributed log service.
//!
//! The library models and verifies the segmented-log storage engine: the
//! lifecycle of log segments (creation, sealing, rotation, two-phase
//! deletion), the in-sync-replica bookkeeping per shard, the cluster node
//! membership records, and the metadata cache that mirrors the persistent
//! store.  Network servers, disk persistence and timers live outside the
//! library and drive it through plain values.

pub mod errors;
pub mod subscribe;
pub mod segment;
pub mod segment_file;
pub mod isr;
pub mod cluster;
pub mod engine;
