//! A directory/liveness tracker for a peer-to-peer market of service
//! providers. Providers announce a reachable rendezvous address in an
//! on-chain data-carrier output; the tracker discovers them by scanning
//! blocks and the mempool, keeps a directory of which providers answer
//! liveness probes, tracks the spend state of watched coin outputs, and
//! serves directory queries over a small framed protocol. A supervisor
//! restarts any subsystem that reports a fatal status.
//!
//! This crate holds the verified core: the single-writer directory store,
//! announcement extraction, the chain indexer's ingestion rules, the
//! liveness monitor's and supervisor's decision logic, and the wire
//! framing. The surrounding process (sockets, node RPC, mailboxes) drives
//! these functions with plain values.

pub mod announce;
pub mod error;
pub mod indexer;
pub mod model;
pub mod monitor;
pub mod server;
pub mod status;
pub mod store;
pub mod supervisor;
pub mod types;
pub mod wire;
