//! An in-memory fractal knowledge store.
//!
//! A fixed seed set of base nodes is expanded into a deterministic
//! cross-product of interpretive contexts (scientific, symbolic and
//! water-state lenses), stored alongside a content-addressed ledger of
//! user contributions and a derived statistics snapshot.

pub mod config;
pub mod contexts;
pub mod hashing;
pub mod inbox;
pub mod laws;
pub mod models;
pub mod seq_util;
pub mod storage;
pub mod support;
