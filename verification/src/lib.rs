//! Verified core of a lightweight SQLite replication library.
//!
//! Every decision that replication rests on (what a write-ahead log holds,
//! which files restore a database, what the HTTP protocol accepts, when a
//! replica has diverged) is a function here with a contract. Files, sockets,
//! threads and SQLite itself stay with the embedding program, which hands
//! plain values in and carries the answers out.
pub mod address_laws;
pub mod apply_laws;
pub mod boundary_laws;
pub mod cancel;
pub mod checkpoint;
pub mod client;
pub mod compaction;
pub mod copy;
pub mod db_header;
pub mod dir;
pub mod error;
pub mod exchange;
pub mod feed;
pub mod fence;
pub mod ffi;
pub mod file_laws;
pub mod follow;
pub mod follow_laws;
pub mod head_laws;
pub mod history;
pub mod io;
pub mod listing;
pub mod ltx;
pub mod maintenance;
pub mod maintenance_laws;
pub mod manager;
pub mod manager_laws;
pub mod meta;
pub mod mount;
pub mod paths;
pub mod plan;
pub mod plan_laws;
pub mod protocol_laws;
mod random;
pub mod push;
pub mod registry;
pub mod remove;
pub mod replica;
pub mod replica_laws;
pub mod result_laws;
pub mod restore;
pub mod s3;
pub mod server;
pub mod server_laws;
pub mod sort;
pub mod start_laws;
pub mod storage;
pub mod storage_laws;
pub mod stream;
pub mod stream_laws;
pub mod sync;
pub mod sync_laws;
pub mod text;
pub mod time;
pub mod transfer_laws;
pub mod transport;
pub mod wal;
pub mod wal_format_laws;
pub mod wal_laws;
pub mod wire;
pub mod wire_laws;
pub mod writer;
pub mod writer_laws;
