use base64::{engine::general_purpose::STANDARD, Engine};
use metrics_bridge::config::LabelFormat;
use metrics_bridge::metrics::parser::{
    decode_label_values, parse_metric_type, parse_sample, parse_samples, zip_labels, HashField,
    ParseError,
};
use metrics_bridge::metrics::MetricType;

fn field(key: &str, value: &str) -> HashField<f64> {
    HashField { key: key.to_string(), value: value.to_string(), parsed: value.parse::<f64>().ok() }
}

fn names(v: &[&str]) -> Vec<String> {
    v.iter().map(|s| s.to_string()).collect()
}

#[test]
fn test_parse_metric_type() {
    assert_eq!(parse_metric_type("counter").unwrap(), MetricType::Counter);
    assert_eq!(parse_metric_type("GAUGE").unwrap(), MetricType::Gauge);
    assert_eq!(parse_metric_type("histogram").unwrap(), MetricType::Histogram);
    assert!(parse_metric_type("unknown").is_err());
}

#[test]
fn test_parse_metric_type_mixed_case() {
    assert_eq!(parse_metric_type("Summary").unwrap(), MetricType::Summary);
    assert_eq!(parse_metric_type("HiStOgRaM").unwrap(), MetricType::Histogram);
    assert!(parse_metric_type("counters").is_err());
    assert!(parse_metric_type("").is_err());
}

#[test]
fn test_decode_label_values() {
    // base64 of ["value1", "value2"]
    let encoded = STANDARD.encode(r#"["value1","value2"]"#);
    let values = decode_label_values(&encoded, LabelFormat::Auto).unwrap();
    assert_eq!(values, vec!["value1", "value2"]);
}

#[test]
fn test_decode_empty_labels() {
    let encoded = STANDARD.encode("[]");
    let values = decode_label_values(&encoded, LabelFormat::Auto).unwrap();
    assert!(values.is_empty());
}

#[test]
fn test_parse_metric_type_unknown() {
    let result = parse_metric_type("unknown_type");
    assert!(result.is_err());
    let err = result.unwrap_err();
    assert!(matches!(err, ParseError::UnknownType(_)));
    assert!(err.to_string().contains("unknown_type"));
}

#[test]
fn test_decode_label_values_raw_json() {
    // Test raw JSON format (not base64)
    let raw_json = r#"["value1","value2"]"#;
    let values = decode_label_values(raw_json, LabelFormat::Json).unwrap();
    assert_eq!(values, vec!["value1", "value2"]);
}

#[test]
fn test_decode_label_values_mixed_types() {
    // Test raw JSON with mixed types (strings + numbers) - common in promphp
    let raw_json = r#"["POST","api_endpoint","/v1/auth",401]"#;
    let values = decode_label_values(raw_json, LabelFormat::Json).unwrap();
    assert_eq!(values, vec!["POST", "api_endpoint", "/v1/auth", "401"]);
}

#[test]
fn test_decode_label_values_other_json_values() {
    let values = decode_label_values(r#"[true,false,null,1.5,[1,2],{"a":1}]"#, LabelFormat::Json).unwrap();
    assert_eq!(values, vec!["true", "false", "", "1.5", "[1,2]", "{\"a\":1}"]);
}

#[test]
fn test_decode_label_values_invalid_base64() {
    let result = decode_label_values("not-valid-base64!!!", LabelFormat::Base64);
    assert!(result.is_err());
    assert!(matches!(result, Err(ParseError::InvalidBase64(_))));
}

#[test]
fn test_decode_label_values_errors_by_format() {
    assert!(matches!(decode_label_values("W10=", LabelFormat::Json), Err(ParseError::InvalidLabelJson(_))));
    assert!(matches!(decode_label_values("[]", LabelFormat::Base64), Err(ParseError::InvalidBase64(_))));
    // base64 of a non-array
    let encoded = STANDARD.encode("{}");
    assert!(matches!(decode_label_values(&encoded, LabelFormat::Auto), Err(ParseError::InvalidLabelJson(_))));
    // base64 of bytes that are not UTF-8
    assert!(matches!(decode_label_values("/w==", LabelFormat::Base64), Err(ParseError::InvalidBase64(_))));
}

#[test]
fn test_parse_error_display() {
    let e = ParseError::InvalidMeta("test".to_string());
    assert!(e.to_string().contains("test"));

    let e = ParseError::InvalidBase64("base64".to_string());
    assert!(e.to_string().contains("base64"));

    let e = ParseError::InvalidLabelJson("json".to_string());
    assert!(e.to_string().contains("json"));

    let e = ParseError::InvalidValue("value".to_string());
    assert!(e.to_string().contains("value"));

    let e = ParseError::UnknownType("type".to_string());
    assert!(e.to_string().contains("type"));
}

#[test]
fn test_parse_error_messages_exact() {
    assert_eq!(ParseError::InvalidValue("x".to_string()).to_string(), "Invalid metric value: x");
    assert_eq!(ParseError::UnknownType("t".to_string()).to_string(), "Unknown metric type: t");
}

#[test]
fn test_zip_labels_pairs_by_position() {
    let labels = zip_labels(&names(&["method", "status"]), &names(&["GET", "200", "extra"]));
    assert_eq!(labels.len(), 2);
    assert_eq!(labels.get("method"), Some(&"GET".to_string()));
    assert_eq!(labels.get("status"), Some(&"200".to_string()));
    let labels = zip_labels(&names(&["a", "a"]), &names(&["1", "2"]));
    assert_eq!(labels.len(), 1);
    assert_eq!(labels.get("a"), Some(&"2".to_string()));
}

#[test]
fn test_parse_counter_samples() {
    let label_key = STANDARD.encode(r#"["GET"]"#);
    let fields = vec![
        field("__meta", r#"{"name":"test_counter"}"#),
        field(&label_key, "42"),
    ];
    let samples = parse_samples(&fields, &names(&["method"]), LabelFormat::Auto).unwrap();
    assert_eq!(samples.len(), 1);
    assert_eq!(samples[0].value, 42.0);
    assert_eq!(samples[0].labels.get("method").unwrap(), "GET");
}

#[test]
fn test_parse_counter_with_mixed_label_types() {
    let label_key = r#"["GET","api_users","/v1/users",200]"#;
    let fields = vec![field(label_key, "42")];
    let samples =
        parse_samples(&fields, &names(&["method", "route", "path", "status"]), LabelFormat::Auto).unwrap();
    assert_eq!(samples.len(), 1);
    assert_eq!(samples[0].labels.get("method").unwrap(), "GET");
    assert_eq!(samples[0].labels.get("status").unwrap(), "200");
}

#[test]
fn test_parse_invalid_value() {
    let label_key = STANDARD.encode("[]");
    let fields = vec![field(&label_key, "not-a-number")];
    let result = parse_samples(&fields, &names(&[]), LabelFormat::Auto);
    assert!(result.is_err());
    assert!(matches!(result, Err(ParseError::InvalidValue(_))));
}

#[test]
fn test_parse_sample_reads_labels_before_value() {
    let f = field("not json", "not-a-number");
    assert!(matches!(parse_sample(&f, &names(&[]), LabelFormat::Json), Err(ParseError::InvalidLabelJson(_))));
    let f = field("[]", "not-a-number");
    match parse_sample(&f, &names(&[]), LabelFormat::Json) {
        Err(ParseError::InvalidValue(v)) => assert_eq!(v, "not-a-number"),
        other => panic!("unexpected {:?}", other),
    }
}

#[test]
fn test_parse_samples_in_field_order() {
    let fields = vec![field(r#"["a"]"#, "1"), field("__meta", "{}"), field(r#"["b"]"#, "2.5")];
    let samples = parse_samples(&fields, &names(&["k"]), LabelFormat::Json).unwrap();
    assert_eq!(samples.len(), 2);
    assert_eq!(samples[0].labels.get("k").unwrap(), "a");
    assert_eq!(samples[1].value, 2.5);
    assert!(samples[1].suffix.is_none());
}

#[test]
fn test_metric_type_name_reads_back() {
    for t in [MetricType::Counter, MetricType::Gauge, MetricType::Histogram, MetricType::Summary] {
        assert_eq!(parse_metric_type(t.as_str()).unwrap(), t);
        assert_eq!(parse_metric_type(&t.as_str().to_uppercase()).unwrap(), t);
    }
}

#[test]
fn test_meta_field() {
    let fields = vec![field("[\"a\"]", "1"), field("__meta", "{\"name\":\"m\"}")];
    assert_eq!(metrics_bridge::metrics::parser::meta_field(&fields).unwrap(), "{\"name\":\"m\"}");
    match metrics_bridge::metrics::parser::meta_field(&fields[..1]) {
        Err(ParseError::InvalidMeta(m)) => assert_eq!(m, "missing __meta field"),
        other => panic!("unexpected {:?}", other),
    }
}
