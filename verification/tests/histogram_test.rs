use metrics_bridge::metrics::histogram::histogram_series_samples;
use metrics_bridge::metrics::labels::Labels;

#[test]
fn test_histogram_series_shape() {
    let mut base = Labels::new();
    base.insert("method".to_string(), "GET".to_string());
    let bounds = vec!["0.5".to_string(), "1".to_string()];
    let samples = histogram_series_samples(&base, &bounds, &[2.0, 5.0], 7.0, 3.25);

    assert_eq!(samples.len(), 5);
    let expect = [
        (Some("0.5"), 2.0, "_bucket"),
        (Some("1"), 5.0, "_bucket"),
        (Some("+Inf"), 7.0, "_bucket"),
        (None, 3.25, "_sum"),
        (None, 7.0, "_count"),
    ];
    for (sample, (le, value, suffix)) in samples.iter().zip(expect.iter()) {
        assert_eq!(sample.value, *value);
        assert_eq!(sample.suffix.as_deref(), Some(*suffix));
        assert_eq!(sample.labels.get("method").map(|s| s.as_str()), Some("GET"));
        assert_eq!(sample.labels.get("le").map(|s| s.as_str()), *le);
        assert_eq!(sample.labels.len(), if le.is_some() { 2 } else { 1 });
    }
}

#[test]
fn test_histogram_series_without_bounds() {
    let samples = histogram_series_samples(&Labels::new(), &[], &[] as &[u64], 4, 9);
    assert_eq!(samples.len(), 3);
    assert_eq!(samples[0].labels.get("le").map(|s| s.as_str()), Some("+Inf"));
    assert_eq!(samples[0].value, 4);
    assert_eq!(samples[1].value, 9);
    assert_eq!(samples[1].suffix.as_deref(), Some("_sum"));
    assert_eq!(samples[2].value, 4);
    assert_eq!(samples[2].suffix.as_deref(), Some("_count"));
}

#[test]
fn test_histogram_le_replaces_existing_label() {
    let mut base = Labels::new();
    base.insert("le".to_string(), "old".to_string());
    let samples = histogram_series_samples(&base, &["10".to_string()], &[1u32], 1, 0);
    assert_eq!(samples[0].labels.get("le").map(|s| s.as_str()), Some("10"));
    assert_eq!(samples[0].labels.len(), 1);
    assert_eq!(samples[2].labels.get("le").map(|s| s.as_str()), Some("old"));
}

use metrics_bridge::external::JsonLabel;
use base64::{engine::general_purpose::STANDARD, Engine};
use metrics_bridge::config::LabelFormat;
use metrics_bridge::metrics::histogram::{
    bucket_value, group_histogram, group_histogram_fields, group_labels, HistogramField,
    HistogramKey, LegacyHistogramValue,
};
use metrics_bridge::metrics::Sample;
use metrics_bridge::metrics::ParseError;

fn hfield(labels: Vec<JsonLabel>, bound: JsonLabel, value: &str) -> HistogramField<f64> {
    HistogramField {
        key: "key".to_string(),
        parsed_key: Ok(HistogramKey { bound, label_values: labels }),
        value: value.to_string(),
        parsed: value.parse::<f64>().ok(),
        legacy: None,
    }
}

fn get() -> Vec<JsonLabel> {
    vec![JsonLabel::Text("GET".to_string()), JsonLabel::Number("200".to_string())]
}

#[test]
fn test_group_histogram_fields_by_label_values() {
    let post = vec![JsonLabel::Text("POST".to_string()), JsonLabel::Number("200".to_string())];
    let fields = vec![
        hfield(get(), JsonLabel::Number("0.5".to_string()), "2"),
        HistogramField { key: "__meta".to_string(), parsed_key: Err("not a key".to_string()), value: "{}".to_string(), parsed: None, legacy: None },
        hfield(post.clone(), JsonLabel::Text("sum".to_string()), "1.5"),
        hfield(get(), JsonLabel::Text("+Inf".to_string()), "1"),
        hfield(get(), JsonLabel::Number("0.5".to_string()), "3"),
    ];
    let groups = group_histogram_fields(&fields).unwrap();
    assert_eq!(groups.len(), 2);
    assert_eq!(groups[0].label_values, get());
    assert_eq!(groups[0].buckets.len(), 3);
    assert_eq!(bucket_value(&groups[0], "0.5"), Some(3.0));
    assert_eq!(bucket_value(&groups[0], "+Inf"), Some(1.0));
    assert_eq!(bucket_value(&groups[0], "sum"), None);
    assert_eq!(groups[1].label_values, post);
    assert_eq!(bucket_value(&groups[1], "sum"), Some(1.5));

    let labels = group_labels(&["method".to_string(), "code".to_string()], &groups[0]);
    assert_eq!(labels.get("method").map(|s| s.as_str()), Some("GET"));
    assert_eq!(labels.get("code").map(|s| s.as_str()), Some("200"));
}

#[test]
fn test_group_histogram_text_and_number_labels_differ() {
    let text = vec![JsonLabel::Text("1".to_string())];
    let number = vec![JsonLabel::Number("1".to_string())];
    let fields = vec![
        hfield(text, JsonLabel::Bool(true), "1"),
        hfield(number, JsonLabel::Null, "2"),
    ];
    let groups = group_histogram_fields(&fields).unwrap();
    assert_eq!(groups.len(), 2);
    assert_eq!(bucket_value(&groups[0], "true"), Some(1.0));
    assert_eq!(bucket_value(&groups[1], "null"), Some(2.0));
}

#[test]
fn test_group_histogram_fields_errors_in_order() {
    let bad_key = HistogramField::<f64> {
        key: "oops".to_string(),
        parsed_key: Err("expected value".to_string()),
        value: "x".to_string(),
        parsed: None,
        legacy: None,
    };
    match group_histogram_fields(&[hfield(get(), JsonLabel::Null, "1"), bad_key]) {
        Err(ParseError::InvalidLabelJson(m)) => assert_eq!(m, "expected value"),
        other => panic!("unexpected {:?}", other),
    }
    match group_histogram_fields(&[hfield(get(), JsonLabel::Null, "abc")]) {
        Err(ParseError::InvalidValue(v)) => assert_eq!(v, "abc"),
        other => panic!("unexpected {:?}", other),
    }
}

/// A histogram hash field: the key read as a bound/labelValues object, the
/// value read as a number and as an older-layout object, as the exporter
/// reads them.
fn read_field(key: &str, value: &str) -> HistogramField<f64> {
    let parsed_key = serde_json::from_str::<serde_json::Value>(key)
        .map_err(|e| e.to_string())
        .and_then(|v| match (v.get("b"), v.get("labelValues").and_then(|l| l.as_array())) {
            (Some(b), Some(l)) => Ok(HistogramKey {
                bound: json_label(b),
                label_values: l.iter().map(json_label).collect(),
            }),
            _ => Err("not a histogram key".to_string()),
        });
    let legacy = serde_json::from_str::<serde_json::Value>(value).ok().and_then(|v| {
        Some(LegacyHistogramValue {
            sum: v.get("sum")?.as_f64()?,
            count: v.get("count")?.as_f64()?,
            buckets: v
                .get("buckets")?
                .as_object()?
                .iter()
                .map(|(k, c)| (k.clone(), c.as_f64().unwrap()))
                .collect(),
        })
    });
    HistogramField {
        key: key.to_string(),
        parsed_key,
        value: value.to_string(),
        parsed: value.parse::<f64>().ok(),
        legacy,
    }
}

fn json_label(v: &serde_json::Value) -> JsonLabel {
    match v {
        serde_json::Value::String(s) => JsonLabel::Text(s.clone()),
        serde_json::Value::Number(n) => JsonLabel::Number(n.to_string()),
        serde_json::Value::Bool(b) => JsonLabel::Bool(*b),
        serde_json::Value::Null => JsonLabel::Null,
        other => JsonLabel::Composite(other.to_string()),
    }
}

/// The samples of a histogram hash, with the bucket sums the exporter makes.
fn histogram_samples(fields: &[HistogramField<f64>], names: &[String], bounds: &[(&str, &str)]) -> Vec<Sample<f64>> {
    let groups = group_histogram(fields, LabelFormat::Auto).unwrap();
    let mut samples = Vec::new();
    for group in &groups {
        let base = group_labels(names, group);
        let mut les = Vec::new();
        let mut cumulative_counts = Vec::new();
        let mut cumulative = 0.0;
        for (key, le) in bounds {
            cumulative += bucket_value(group, key).unwrap_or(0.0);
            les.push(le.to_string());
            cumulative_counts.push(cumulative);
        }
        let total = match group.count {
            Some(c) => c,
            None => cumulative + bucket_value(group, "+Inf").unwrap_or(0.0),
        };
        let sum = bucket_value(group, "sum").unwrap_or(0.0);
        samples.extend(histogram_series_samples(&base, &les, &cumulative_counts, total, sum));
    }
    samples
}

#[test]
fn test_parse_histogram() {
    let fields = vec![
        read_field(
            "__meta",
            r#"{"name":"request_duration","help":"Duration","type":"histogram","labelNames":["endpoint"],"buckets":[0.01,0.05,0.1]}"#,
        ),
        read_field(
            &STANDARD.encode(r#"["/api"]"#),
            r#"{"sum":1.5,"count":100,"buckets":{"0.01":10,"0.05":50,"0.1":90}}"#,
        ),
    ];
    let samples = histogram_samples(
        &fields,
        &["endpoint".to_string()],
        &[("0.01", "0.01"), ("0.05", "0.05"), ("0.1", "0.1")],
    );

    // Should have: 3 buckets + 1 +Inf + sum + count = 6 samples
    assert_eq!(samples.len(), 6);

    let sum_sample = samples.iter().find(|s| s.suffix.as_deref() == Some("_sum")).unwrap();
    assert_eq!(sum_sample.value, 1.5);

    let count_sample = samples.iter().find(|s| s.suffix.as_deref() == Some("_count")).unwrap();
    assert_eq!(count_sample.value, 100.0);
    assert_eq!(sum_sample.labels.get("endpoint").map(|s| s.as_str()), Some("/api"));
}

#[test]
fn test_histogram_missing_bucket() {
    let fields = vec![
        read_field(
            "__meta",
            r#"{"name":"hist","help":"Histogram","type":"histogram","labelNames":[],"buckets":[0.1,0.5,1.0]}"#,
        ),
        // Only some buckets present - missing 0.5
        read_field(&STANDARD.encode("[]"), r#"{"sum":10.0,"count":50,"buckets":{"0.1":10,"1":40}}"#),
    ];
    let samples = histogram_samples(&fields, &[], &[("0.1", "0.1"), ("0.5", "0.5"), ("1", "1")]);

    // Should still work, missing bucket defaults to 0
    assert_eq!(samples.len(), 6); // 3 buckets + inf + sum + count
    assert_eq!(samples[1].value, 10.0);
    assert_eq!(samples[2].value, 50.0);
}

#[test]
fn test_histogram_layout_choice() {
    // Newer layout: names read as bound/labelValues objects.
    let newer = vec![read_field(r#"{"b":0.5,"labelValues":["GET"]}"#, "2")];
    let groups = group_histogram(&newer, LabelFormat::Auto).unwrap();
    assert_eq!(groups[0].count, None);
    assert_eq!(bucket_value(&groups[0], "0.5"), Some(2.0));

    // Older layout: a raw JSON label key and an object value.
    let older = vec![read_field(r#"["GET"]"#, r#"{"sum":3,"count":4,"buckets":{"1":4}}"#)];
    let groups = group_histogram(&older, LabelFormat::Json).unwrap();
    assert_eq!(groups[0].count, Some(4.0));
    assert_eq!(bucket_value(&groups[0], "sum"), Some(3.0));
    assert_eq!(groups[0].label_values, vec![JsonLabel::Text("GET".to_string())]);

    // Older layout with a value that is not an object.
    let bad = vec![read_field(r#"["GET"]"#, "7")];
    match group_histogram(&bad, LabelFormat::Json) {
        Err(ParseError::InvalidValue(v)) => assert_eq!(v, "7"),
        other => panic!("unexpected {:?}", other),
    }

    // A mixed hash is read in the newer layout, so the other field fails.
    let mixed = vec![
        read_field(r#"{"b":0.5,"labelValues":[]}"#, "1"),
        read_field(r#"["x"]"#, r#"{"sum":1,"count":1,"buckets":{}}"#),
    ];
    assert!(matches!(group_histogram(&mixed, LabelFormat::Json), Err(ParseError::InvalidLabelJson(_))));

    // Only __meta: nothing to group.
    let meta_only = vec![read_field("__meta", "{}")];
    assert!(group_histogram(&meta_only, LabelFormat::Auto).unwrap().is_empty());
}
