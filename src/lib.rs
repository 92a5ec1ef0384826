//! Spin-based mutual-exclusion primitives over atomic state words.
//!
//! The library holds the lock words with their one-attempt operations, the
//! waiting policies that acquisition loops follow between attempts, and
//! models of the lock protocols under every interleaving, in which mutual
//! exclusion, reader/writer exclusivity and writer progress are proved.
pub mod backoff;
pub mod exclusive;
pub mod exclusive_model;
pub mod list;
pub mod rw_model;
pub mod rwlock;
