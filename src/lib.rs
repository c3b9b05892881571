//! Disk-I/O trace summariser: a line grammar for trace records, running
//! per-call and per-process tallies, a deterministic top-N ranking, and the
//! decisions of the periodic reporting loop.

pub mod numeric;
pub mod grammar;
pub mod store;
pub mod ranking;
pub mod report;
pub mod reporter;
