//! Metadata registry for a file-storage service: file records, per-wallet
//! usage counters and time-bounded sharing grants, with every operation
//! specified over a mathematical view of the store.

pub mod api;
pub mod ident;
pub mod laws;
pub mod model;
pub mod stats;
pub mod store;
