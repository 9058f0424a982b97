//! A stream-backed notification pipeline: an append-only event log with a
//! consumer group, a worker that drains it into an in-process fan-out, and
//! the record types that travel through it.

pub mod text;
pub mod errors;
pub mod log;
pub mod notifier;
pub mod reply;
pub mod records;
pub mod config;
pub mod access;
pub mod password;
pub mod worker;
