//! A single-node, in-memory key/value store made crash-durable through a
//! write-ahead log.
//!
//! The library holds the verified core: the command model and its
//! line-oriented wire format, the log entry codec, replay and compaction of
//! the durable log, the in-memory store with its exclusive-access operations,
//! and the state machines that govern a connection worker and the process
//! lifecycle. Socket and file plumbing live outside, handing the library
//! plain lines and taking plain responses back.

pub mod codec;
pub mod command;
pub mod store;
pub mod lifecycle;
pub mod wal;
pub mod worker;
