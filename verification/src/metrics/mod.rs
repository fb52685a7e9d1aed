//! Metric model, promphp parsing and Prometheus text rendering.

pub mod types;
pub mod labels;
pub mod renderer;
pub mod ordering;
pub mod parser;
pub mod histogram;

pub use parser::ParseError;
pub use renderer::render_metrics;
pub use types::{Metric, MetricFamily, MetricType, Sample};
