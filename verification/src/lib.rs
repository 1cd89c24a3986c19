//! An in-memory key-value store that speaks a line-oriented binary
//! request/response protocol and replicates writes to attached replicas as
//! raw protocol bytes. The codec, the keyspace, the command layer, the
//! replication ledger and both handshake state machines live here, each
//! behind contracts; sockets, tasks and locks stay with the embedding
//! runtime, which moves bytes between the network and the step functions.
pub mod arguments;
pub mod bytebuf;
pub mod client;
pub mod command;
pub mod connection;
pub mod context;
pub mod database;
pub mod history;
pub mod internals;
pub mod protocol;
pub mod resp;
pub mod roundtrip;
pub mod server;
pub mod text;
