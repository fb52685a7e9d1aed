use metrics_bridge::cache::MetricsCache;
use metrics_bridge::source::registry::remember_collected;
use metrics_bridge::metrics::labels::Labels;
use metrics_bridge::metrics::parser::ParseError;
use metrics_bridge::metrics::{Metric, MetricType};
use metrics_bridge::self_metrics::request_status;
use metrics_bridge::source::promphp::{metric_keys_set, CollectAction, Collector};
use metrics_bridge::source::registry::{all_healthy, partition_results};
use metrics_bridge::source::SourceError;

#[test]
fn test_source_error_display() {
    let e = SourceError::Connection("failed".to_string());
    assert!(e.to_string().contains("failed"));

    let e = SourceError::Parse("parse error".to_string());
    assert!(e.to_string().contains("parse error"));

    let e = SourceError::Timeout;
    assert!(e.to_string().contains("Timeout"));

    let e = SourceError::Redis("redis error".to_string());
    assert!(e.to_string().contains("redis error"));
}

#[test]
fn test_source_error_debug() {
    let e = SourceError::Connection("test".to_string());
    let debug = format!("{:?}", e);
    assert!(debug.contains("Connection"));
}

#[test]
fn test_metric_keys_set() {
    assert_eq!(metric_keys_set("PROMETHEUS_", "counter"), "PROMETHEUS_counter_METRIC_KEYS");
    assert_eq!(metric_keys_set("CUSTOM_", "gauge"), "CUSTOM_gauge_METRIC_KEYS");
}

fn metric(name: &str) -> Metric<f64> {
    Metric::new(name, "help", MetricType::Counter)
}

#[test]
fn test_collector_reads_types_in_order() {
    let mut c: Collector<f64> = Collector::new("test", "TEST_", Labels::new());
    let mut sets = vec![];
    loop {
        match c.next_action() {
            CollectAction::ReadKeySet(k) => {
                sets.push(k.clone());
                if k == "TEST_counter_METRIC_KEYS" {
                    c.on_key_set(Ok(vec!["TEST_c1".to_string(), "TEST_bad".to_string(), "TEST_empty".to_string()]));
                } else {
                    c.on_key_set(Ok(vec![]));
                }
            }
            CollectAction::ReadHash(k) => match k.as_str() {
                "TEST_c1" => c.on_hash(Ok(Some(Ok(metric("c1"))))),
                "TEST_bad" => c.on_hash(Ok(Some(Err(ParseError::InvalidMeta("x".to_string()))))),
                _ => c.on_hash(Ok(None)),
            },
            CollectAction::Finish => break,
        }
    }
    assert_eq!(
        sets,
        vec![
            "TEST_counter_METRIC_KEYS",
            "TEST_gauge_METRIC_KEYS",
            "TEST_histogram_METRIC_KEYS",
            "TEST_summary_METRIC_KEYS"
        ]
    );
    let family = c.finish().unwrap();
    assert_eq!(family.source, "test");
    assert_eq!(family.metrics.len(), 1);
    assert_eq!(family.metrics[0].name, "c1");
}

#[test]
fn test_collector_stops_on_failed_read() {
    let mut c: Collector<f64> = Collector::new("test", "P_", Labels::new());
    assert!(matches!(c.next_action(), CollectAction::ReadKeySet(_)));
    c.on_key_set(Ok(vec!["P_x".to_string()]));
    assert!(matches!(c.next_action(), CollectAction::ReadHash(ref k) if k == "P_x"));
    c.on_hash(Err(SourceError::Redis("Connection lost".to_string())));
    assert!(matches!(c.next_action(), CollectAction::Finish));
    assert!(matches!(c.finish(), Err(SourceError::Redis(ref m)) if m == "Connection lost"));

    let mut c: Collector<f64> = Collector::new("test", "P_", Labels::new());
    c.on_key_set(Err(SourceError::Redis("Connection refused".to_string())));
    assert!(matches!(c.next_action(), CollectAction::Finish));
    assert!(matches!(c.finish(), Err(SourceError::Redis(ref m)) if m == "Connection refused"));
}

#[test]
fn test_collector_keeps_extra_labels() {
    let mut extra = Labels::new();
    extra.insert("env".to_string(), "prod".to_string());
    let mut c: Collector<f64> = Collector::new("test", "P_", extra);
    for _ in 0..4 {
        c.on_key_set(Ok(vec![]));
    }
    assert!(matches!(c.next_action(), CollectAction::Finish));
    let family = c.finish().unwrap();
    assert_eq!(family.extra_labels.get("env"), Some(&"prod".to_string()));
    assert!(family.metrics.is_empty());
}

#[test]
fn test_partition_results_keeps_order() {
    let results = vec![
        ("a".to_string(), Ok(1)),
        ("b".to_string(), Err(SourceError::Timeout)),
        ("c".to_string(), Ok(3)),
        ("d".to_string(), Err(SourceError::Connection("mock failure".to_string()))),
    ];
    let (families, errors) = partition_results(results);
    assert_eq!(families, vec![1, 3]);
    assert_eq!(errors.len(), 2);
    assert_eq!(errors[0].0, "b");
    assert_eq!(errors[1].0, "d");
    let (f, e) = partition_results::<i32>(vec![]);
    assert!(f.is_empty() && e.is_empty());
}

#[test]
fn test_all_healthy() {
    assert!(all_healthy(&[]));
    assert!(all_healthy(&[("a".to_string(), true), ("b".to_string(), true)]));
    assert!(!all_healthy(&[("a".to_string(), true), ("b".to_string(), false)]));
}

#[test]
fn test_request_status() {
    assert_eq!(request_status(true), "success");
    assert_eq!(request_status(false), "error");
}

#[test]
fn test_partition_results_accounts_for_every_source() {
    let results = vec![
        ("a".to_string(), Err(SourceError::Timeout)),
        ("b".to_string(), Ok(2)),
        ("c".to_string(), Err(SourceError::Redis("down".to_string()))),
    ];
    let (families, errors) = partition_results(results);
    assert_eq!(families.len() + errors.len(), 3);
    assert_eq!(families, vec![2]);
}

#[test]
fn test_remember_collected() {
    let mut cache: MetricsCache<std::sync::Arc<i32>> = MetricsCache::new(5);
    let r = remember_collected(&mut cache, Ok(7), 100).unwrap();
    assert_eq!(*r, 7);
    assert_eq!(cache.get(200).map(|a| **a), Some(7));
    assert!(remember_collected(&mut cache, Err(SourceError::Timeout), 300).is_err());
    assert_eq!(cache.get(300).map(|a| **a), Some(7));

    let mut off: MetricsCache<std::sync::Arc<i32>> = MetricsCache::new(0);
    assert_eq!(*remember_collected(&mut off, Ok(1), 0).unwrap(), 1);
    assert!(off.get(0).is_none());
}
