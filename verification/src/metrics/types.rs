//! Metric type definitions.

use vstd::prelude::*;
use vstd::string::*;
use super::labels::Labels;

verus! {

/// Metric type as defined by Prometheus.
#[derive(Debug, Clone, Copy, PartialEq, Eq, Structural)]
pub enum MetricType {
    Counter,
    Gauge,
    Histogram,
    Summary,
}

/// The exposition name of each metric type.
pub open spec fn metric_type_name(t: MetricType) -> Seq<char> {
    match t {
        MetricType::Counter => "counter"@,
        MetricType::Gauge => "gauge"@,
        MetricType::Histogram => "histogram"@,
        MetricType::Summary => "summary"@,
    }
}

impl MetricType {
    pub fn as_str(&self) -> (s: &'static str)
        ensures
            s@ == metric_type_name(*self),
    {
        match self {
            MetricType::Counter => "counter",
            MetricType::Gauge => "gauge",
            MetricType::Histogram => "histogram",
            MetricType::Summary => "summary",
        }
    }
}

impl MetricType {
    /// The type's name, as `Display` writes it.
    pub fn to_string(&self) -> (s: String)
        ensures
            s@ == metric_type_name(*self),
    {
        String::from_str(self.as_str())
    }
}

/// A single metric sample: labels, a value and an optional name suffix
/// (`_bucket`, `_sum`, `_count` for histograms).
///
/// The value type is a parameter: collected samples carry numbers, rendered
/// samples carry the text that the exposition format prints for them.
#[derive(Debug, Clone)]
pub struct Sample<V> {
    /// Label name/value pairs.
    pub labels: Labels,
    /// Sample value.
    pub value: V,
    /// Optional suffix for histogram series.
    pub suffix: Option<String>,
}

impl<V> Sample<V> {
    pub fn new(labels: Labels, value: V) -> (s: Self)
        ensures
            s.labels@ == labels@,
            s.value == value,
            s.suffix is None,
    {
        Sample { labels, value, suffix: None }
    }

    pub fn with_suffix(self, suffix: &str) -> (s: Self)
        ensures
            s.labels@ == self.labels@,
            s.value == self.value,
            s.suffix matches Some(x) && x@ == suffix@,
    {
        Sample { labels: self.labels, value: self.value, suffix: Some(String::from_str(suffix)) }
    }
}

/// A single metric with metadata and its samples.
#[derive(Debug, Clone)]
pub struct Metric<V> {
    /// Metric name.
    pub name: String,
    /// Help text.
    pub help: String,
    /// Metric type.
    pub metric_type: MetricType,
    /// All samples of this metric.
    pub samples: Vec<Sample<V>>,
}

impl<V> Metric<V> {
    pub fn new(name: &str, help: &str, metric_type: MetricType) -> (m: Self)
        ensures
            m.name@ == name@,
            m.help@ == help@,
            m.metric_type == metric_type,
            m.samples@.len() == 0,
    {
        Metric {
            name: String::from_str(name),
            help: String::from_str(help),
            metric_type,
            samples: Vec::new(),
        }
    }

    pub fn add_sample(&mut self, sample: Sample<V>)
        ensures
            final(self).name == old(self).name,
            final(self).help == old(self).help,
            final(self).metric_type == old(self).metric_type,
            final(self).samples@ == old(self).samples@.push(sample),
    {
        self.samples.push(sample);
    }
}

/// The metrics collected from one source.
#[derive(Debug, Clone)]
pub struct MetricFamily<V> {
    /// Source name.
    pub source: String,
    /// Labels added to every sample of the family.
    pub extra_labels: Labels,
    /// Metrics of this family.
    pub metrics: Vec<Metric<V>>,
}

impl<V> MetricFamily<V> {
    pub fn new(source: &str) -> (f: Self)
        ensures
            f.source@ == source@,
            f.extra_labels@.len() == 0,
            f.metrics@.len() == 0,
    {
        MetricFamily { source: String::from_str(source), extra_labels: Labels::new(), metrics: Vec::new() }
    }

    pub fn with_labels(self, labels: Labels) -> (f: Self)
        ensures
            f.source == self.source,
            f.extra_labels@ == labels@,
            f.metrics == self.metrics,
    {
        MetricFamily { source: self.source, extra_labels: labels, metrics: self.metrics }
    }

    pub fn add_metric(&mut self, metric: Metric<V>)
        ensures
            final(self).source == old(self).source,
            final(self).extra_labels@ == old(self).extra_labels@,
            final(self).metrics@ == old(self).metrics@.push(metric),
    {
        self.metrics.push(metric);
    }
}

impl<V> Default for MetricFamily<V> {
    fn default() -> (f: Self)
        ensures
            f.source@.len() == 0,
            f.extra_labels@.len() == 0,
            f.metrics@.len() == 0,
    {
        MetricFamily { source: String::new(), extra_labels: Labels::new(), metrics: Vec::new() }
    }
}

} // verus!
