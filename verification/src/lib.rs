//! Verified core of a tenant-scoped update relay.
//!
//! One authoritative producer per tenant feeds partial scene updates to many
//! subscribed viewers.  This crate holds the relay's logic: the tenant
//! registry, the per-field update coalescer, the wire codec for update
//! records, and broadcast fanout onto per-subscriber outbound queues.
//! Transport handshakes, routing and task supervision live outside, in the
//! surrounding application.

pub mod coalesce;
pub mod codec;
pub mod color;
pub mod fanout;
pub mod registry;
pub mod scene;
pub mod session;
pub mod update;
pub mod wire;
