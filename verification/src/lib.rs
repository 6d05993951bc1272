//! Verified core of a batch event-log collector.
//!
//! The library covers the logic of the collector: decoding the tagged-union
//! wire values returned by the log subsystem's metadata interface, assembling
//! per-provider symbol tables, resolving event templates and enriching raw
//! records against them, partitioning collection work into (channel, provider)
//! tasks, and imposing the final timestamp order on collected records.
//! The operating-system calls themselves (queries, metadata handles, message
//! formatting) happen outside the library; it works on the plain values they
//! produce.

pub mod event_meta;
pub mod events;
pub mod export;
pub mod metadata;
pub mod metadata_cache;
pub mod provider;
pub mod schedule;
pub mod strutil;
pub mod tables;
pub mod utf16;
pub mod variant;
pub mod xml;
