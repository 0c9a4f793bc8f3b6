//! A persistent ticket store.
//!
//! Records live in stable storage: one flat memory region is partitioned
//! into independently growable virtual memories, one holding a durable
//! monotonic identifier counter and one holding an ordered map from record
//! identifiers to encoded records.  The store survives a restart: reopening
//! the same region yields the same records and the same next identifier.

pub mod codec;
pub mod stable;
pub mod store;
pub mod ticket;
