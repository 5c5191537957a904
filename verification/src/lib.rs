//! A time-aware lifecycle layer over an externally owned token ledger.
//!
//! The library keeps an indexed registry of scheduled entries, allocates
//! monotonically increasing indices, validates merge and burn requests, and
//! sweeps expired entries. All decisions are pure functions over the registry
//! state and the facts that the surrounding host reports about the ledger;
//! the host performs the ledger calls that the decisions prescribe.

pub mod decode;
pub mod engine;
pub mod error;
pub mod metadata;
pub mod numeral;
pub mod registry;

pub use error::Error;
