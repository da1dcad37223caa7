//! Health-check core for a rotating GraphQL endpoint monitor.
//!
//! The library holds the verified logic of the monitor: endpoint rotation,
//! alert-key derivation and deduplication, overdue-record formatting, and
//! the per-tick decision pipeline. I/O (HTTP, files, the clock, messaging)
//! stays outside, in the surrounding application.

pub mod cycle;
pub mod format;
pub mod jsonio;
pub mod keys;
pub mod ledger;
pub mod numfmt;
pub mod record;
pub mod rotation;
pub mod timefmt;
