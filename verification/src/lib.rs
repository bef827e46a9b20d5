//! A namespaced counter store with an HTTP-style façade.
//!
//! A counter is a signed 64-bit value identified by a (namespace, name) pair.
//! The store offers an atomic upsert (`set`), a point lookup (`get`) and an
//! idempotent `initialize`; the façade turns store outcomes into HTTP status
//! codes and JSON bodies, which the library renders and parses itself.

pub mod facade;
pub mod json;
pub mod laws;
pub mod store;
