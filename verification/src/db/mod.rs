//! The index store: a transactional catalog of files, actions, watched
//! roots, staged records and preferences, and the series of metrics.

pub mod database;
pub mod laws;
pub mod metrics;

pub use database::{Database, StoreError};
