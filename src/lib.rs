//! Request-count telemetry for an HTTP server: a registry of label-partitioned
//! counters and its encoding in the plaintext exposition format.
//!
//! Concurrency is left to the caller: every mutation goes through
//! `&mut Registry`, so a server shares one registry behind a single lock,
//! held for one increment or for one encoding pass.

pub mod laws;
pub mod middleware;
pub mod partition;
pub mod registry;
pub mod text;

pub use middleware::{metrics_endpoint, Prometheus};
pub use partition::{CounterPartition, Sample};
pub use registry::{MetricDescriptor, MetricHandle, MetricsError, Registry};
