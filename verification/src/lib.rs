//! Verified core of a media-acquisition manager.
//!
//! The library models title records and their lifecycle, reconciles a durable
//! record store against a media-library snapshot, ranks torrent candidates,
//! and drives a retry/backoff schedule for outbound provider calls.  All
//! input/output lives outside the library; the functions here are pure
//! decisions over plain values, each with a proved contract.

pub mod catalog;
pub mod codec;
pub mod config;
pub mod engine;
pub mod executor;
pub mod queue;
pub mod reconcile;
pub mod record;
pub mod selector;
pub mod store;
pub mod text;
