//! The decision core of a debounced project watcher.
//!
//! A project watcher observes a set of root paths through a filesystem
//! notification provider and tells its consumer, once per quiet period, that
//! something changed. This crate holds the decisions of such a watcher: which
//! step of a watch comes next, when a countdown starts and when it has run
//! out, when a debounced signal goes out, and what a failure means. A driver
//! around it constructs the provider, awaits the raw signal channel, reads
//! the clock, sleeps and prints.
//!
//! Instants and durations are counted in ticks of a monotonic clock whose
//! unit the driver chooses.

pub mod adapter;
pub mod channel;
pub mod coordinator;
pub mod session;
pub mod timeline;

pub use session::ProjectWatcher;
