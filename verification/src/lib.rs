//! A replicated key-value store for exchange rates whose entries carry
//! vector clocks and merge as CRDTs.

pub mod cli;
pub mod config;
pub mod crdt;
pub mod gossip;
pub mod ingester;
pub mod server;
pub mod store;
pub mod text;
pub mod types;
pub mod vector_clock;
pub mod wal;
