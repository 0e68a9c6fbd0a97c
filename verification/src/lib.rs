//! Daily recap: the aggregation pipeline that folds short text summaries
//! into digests, with its window selection, its per-cycle state machine
//! and an in-memory model of the stores it reads and writes.

pub mod aggregate;
pub mod cycle;
pub mod laws;
pub mod record;
pub mod service;
pub mod store;
pub mod window;
