//! Batching and delivery core of an object-store log sink.
//!
//! Events flow through the stages: pair each event with its encoded bytes,
//! route it to a partition key, group same-key events into bounded batches,
//! frame each batch into a single payload, derive the destination object key,
//! and settle each delivered request by firing the events' finalizers.

pub mod batch;
pub mod buffer;
pub mod event;
pub mod driver;
pub mod framing;
pub mod metadata;
pub mod partition;
pub mod pipeline;
pub mod request;
pub mod sink;
