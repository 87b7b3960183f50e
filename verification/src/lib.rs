//! A leader-aware transaction broadcaster core.
//!
//! The library keeps track of which network endpoints will produce the next
//! blocks (the leader schedule), maintains at most one pooled connection per
//! endpoint, plans the fan-out of a wire transaction to the next few leaders,
//! and aggregates the per-destination send outcomes into one submission
//! result. All network work happens outside the library: callers query the
//! schedule source, perform the sends, and hand the results back as plain
//! values.

pub mod endpoint;
pub mod outcome;
pub mod schedule;
pub mod pool;
pub mod broadcast;
