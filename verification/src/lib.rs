//! Core of an in-memory key/value server speaking a line-oriented binary
//! protocol, with primary/replica replication, key expiry, append-only log
//! streams, and snapshot loading. The wire codec, the data store, the command
//! dispatch and the replication bookkeeping are verified; the surrounding
//! process (sockets, tasks, clocks) lives outside this crate.

pub mod command;
pub mod handler;
pub mod message;
pub mod parser;
pub mod rdb;
pub mod replica;
pub mod store;
pub mod stream;
pub mod utils;
