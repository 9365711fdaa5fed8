//! A multi-tenant sidecar core for a Prometheus-compatible metrics backend.
//!
//! The library holds the verified logic of the two subsystems: the
//! remote-write data plane — snappy/protobuf codec, per-series tenant
//! resolution with allow-listing and replication fan-out, upstream failure
//! accounting — and the rule control plane — a bidirectional diff/apply
//! engine between rule groups kept as cluster resources and the rule store
//! of the backend ruler — together with the shared tenant registry that
//! serves both.  Everything that performs I/O (HTTP, the cluster API, the
//! timers) lives outside and hands this library plain values.

pub mod assoc;
pub mod codec;
pub mod crud;
pub mod diff;
pub mod discovery;
pub mod dispatch;
pub mod model;
pub mod naming;
pub mod reconcile;
pub mod registry;
pub mod rules;
pub mod splitter;
pub mod splitter_laws;
pub mod strseq;
