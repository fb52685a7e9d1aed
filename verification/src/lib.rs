//! metrics-bridge: a Prometheus exporter for metrics that promphp stores in Redis.
//!
//! The library holds the exporter's logic: configuration checks, label
//! decoding, the text exposition renderer, the per-source cache and the
//! request decisions of the HTTP endpoints.

pub mod metrics;
pub mod text;
pub mod external;
pub mod config;
pub mod cache;
pub mod server;
pub mod source;
pub mod self_metrics;

pub use config::Config;
