//! Reading promphp's Redis hash format.
//!
//! promphp stores each metric as a hash: the field `__meta` holds JSON
//! metadata, every other field's name encodes the label values (a JSON array,
//! raw or base64-encoded) and its value is the sample value.

use vstd::prelude::*;
use vstd::string::*;
use crate::config::LabelFormat;
use crate::external::{
    base64_standard_decode, decode_base64, json_label_array, parse_json_label_array,
    string_from_utf8, utf8_error_text, JsonLabel, JsonLabelView,
};
use crate::text::{chars_eq, chars_of, concat, str_eq, strings_view};
use super::labels::{
    distinct_names, extend_labels, lemma_extend_lookup, lemma_name_index, lookup, name_index, LabelSeq, Labels,
};
use super::types::{metric_type_name, MetricType, Sample};

verus! {

/// Errors while reading a promphp metric.
#[derive(Debug)]
pub enum ParseError {
    InvalidMeta(String),
    InvalidBase64(String),
    InvalidLabelJson(String),
    InvalidValue(String),
    UnknownType(String),
}

/// The abstract value of a `ParseError`.
pub enum ParseFailure {
    InvalidMeta(Seq<char>),
    InvalidBase64(Seq<char>),
    InvalidLabelJson(Seq<char>),
    InvalidValue(Seq<char>),
    UnknownType(Seq<char>),
}

impl View for ParseError {
    type V = ParseFailure;

    open spec fn view(&self) -> ParseFailure {
        match self {
            ParseError::InvalidMeta(s) => ParseFailure::InvalidMeta(s@),
            ParseError::InvalidBase64(s) => ParseFailure::InvalidBase64(s@),
            ParseError::InvalidLabelJson(s) => ParseFailure::InvalidLabelJson(s@),
            ParseError::InvalidValue(s) => ParseFailure::InvalidValue(s@),
            ParseError::UnknownType(s) => ParseFailure::UnknownType(s@),
        }
    }
}

/// The message that a parse error displays.
pub open spec fn parse_failure_text(e: ParseFailure) -> Seq<char> {
    match e {
        ParseFailure::InvalidMeta(s) => "Invalid JSON in __meta: "@ + s,
        ParseFailure::InvalidBase64(s) => "Invalid base64 in label key: "@ + s,
        ParseFailure::InvalidLabelJson(s) => "Invalid JSON in label values: "@ + s,
        ParseFailure::InvalidValue(s) => "Invalid metric value: "@ + s,
        ParseFailure::UnknownType(s) => "Unknown metric type: "@ + s,
    }
}

impl ParseError {
    /// The error's message.
    pub fn to_string(&self) -> (r: String)
        ensures
            r@ == parse_failure_text(self@),
    {
        match self {
            ParseError::InvalidMeta(s) => concat("Invalid JSON in __meta: ", s.as_str()),
            ParseError::InvalidBase64(s) => concat("Invalid base64 in label key: ", s.as_str()),
            ParseError::InvalidLabelJson(s) => concat("Invalid JSON in label values: ", s.as_str()),
            ParseError::InvalidValue(s) => concat("Invalid metric value: ", s.as_str()),
            ParseError::UnknownType(s) => concat("Unknown metric type: ", s.as_str()),
        }
    }
}

// ---------------------------------------------------------------------------
// Metric type
// ---------------------------------------------------------------------------

/// A character with ASCII upper case letters lowered.
pub open spec fn lower_char(c: char) -> char {
    if 'A' <= c && c <= 'Z' {
        ((c as u32) + 32) as char
    } else {
        c
    }
}

/// A text with ASCII upper case letters lowered.
pub open spec fn lower_text(s: Seq<char>) -> Seq<char> {
    Seq::new(s.len(), |i: int| lower_char(s[i]))
}

/// The metric type named by a text, compared without regard to case.
pub open spec fn metric_type_named(s: Seq<char>) -> Option<MetricType> {
    let l = lower_text(s);
    if l == "counter"@ {
        Some(MetricType::Counter)
    } else if l == "gauge"@ {
        Some(MetricType::Gauge)
    } else if l == "histogram"@ {
        Some(MetricType::Histogram)
    } else if l == "summary"@ {
        Some(MetricType::Summary)
    } else {
        None
    }
}

fn lowered(s: &str) -> (r: Vec<char>)
    ensures
        r@ == lower_text(s@),
{
    let chars = chars_of(s);
    let mut out: Vec<char> = Vec::new();
    let n = chars.len();
    for i in 0..n
        invariant
            n == chars@.len(),
            chars@ == s@,
            out@ == lower_text(s@.take(i as int)),
    {
        let c = chars[i];
        let l = if 'A' <= c && c <= 'Z' {
            let code = (c as u32) + 32;
            assert(code <= 0x7f);
            char_from_ascii(code)
        } else {
            c
        };
        out.push(l);
        assert(out@ =~= lower_text(s@.take(i + 1)));
    }
    assert(s@.take(n as int) =~= s@);
    out
}

fn char_from_ascii(code: u32) -> (c: char)
    requires
        code <= 0x7f,
    ensures
        c == code as char,
{
    (code as u8) as char
}

/// Reads a metric type name, in any case.
pub fn parse_metric_type(type_str: &str) -> (r: Result<MetricType, ParseError>)
    ensures
        match r {
            Ok(t) => metric_type_named(type_str@) == Some(t),
            Err(e) => metric_type_named(type_str@) is None && e@ == ParseFailure::UnknownType(type_str@),
        },
{
    let l = lowered(type_str);
    let counter = chars_of("counter");
    let gauge = chars_of("gauge");
    let histogram = chars_of("histogram");
    let summary = chars_of("summary");
    if chars_eq(&l, &counter) {
        Ok(MetricType::Counter)
    } else if chars_eq(&l, &gauge) {
        Ok(MetricType::Gauge)
    } else if chars_eq(&l, &histogram) {
        Ok(MetricType::Histogram)
    } else if chars_eq(&l, &summary) {
        Ok(MetricType::Summary)
    } else {
        Err(ParseError::UnknownType(String::from_str(type_str)))
    }
}

/// The name of every metric type, as `as_str` writes it, reads back as that type.
pub proof fn lemma_metric_type_round_trip(t: MetricType)
    ensures
        metric_type_named(metric_type_name(t)) == Some(t),
{
    reveal_strlit("counter");
    reveal_strlit("gauge");
    reveal_strlit("histogram");
    reveal_strlit("summary");
    let n = metric_type_name(t);
    assert(lower_text(n) =~= n);
    assert("counter"@.len() == 7 && "gauge"@.len() == 5 && "histogram"@.len() == 9);
    assert("summary"@.len() == 7 && "counter"@[0] != "summary"@[0]);
}

/// The upper-case names read as their types too.
pub proof fn lemma_metric_type_upper_case()
    ensures
        metric_type_named("COUNTER"@) == Some(MetricType::Counter),
        metric_type_named("GAUGE"@) == Some(MetricType::Gauge),
        metric_type_named("HISTOGRAM"@) == Some(MetricType::Histogram),
        metric_type_named("SUMMARY"@) == Some(MetricType::Summary),
{
    reveal_strlit("counter");
    reveal_strlit("gauge");
    reveal_strlit("histogram");
    reveal_strlit("summary");
    reveal_strlit("COUNTER");
    reveal_strlit("GAUGE");
    reveal_strlit("HISTOGRAM");
    reveal_strlit("SUMMARY");
    assert(lower_text("COUNTER"@) =~= "counter"@);
    assert(lower_text("GAUGE"@) =~= "gauge"@);
    assert(lower_text("HISTOGRAM"@) =~= "histogram"@);
    assert(lower_text("SUMMARY"@) =~= "summary"@);
    assert("counter"@.len() == 7 && "gauge"@.len() == 5 && "histogram"@.len() == 9);
    assert("summary"@.len() == 7 && "counter"@[0] != "summary"@[0]);
}

// ---------------------------------------------------------------------------
// Label values
// ---------------------------------------------------------------------------

/// The label text of one JSON element: a string is taken as it is, a number,
/// an array or an object as serde_json writes it, a boolean as `true` or
/// `false`, and `null` as the empty text.
pub open spec fn json_label_text(v: JsonLabelView) -> Seq<char> {
    match v {
        JsonLabelView::Text(s) => s,
        JsonLabelView::Number(s) => s,
        JsonLabelView::Bool(b) => if b {
            "true"@
        } else {
            "false"@
        },
        JsonLabelView::Null => Seq::empty(),
        JsonLabelView::Composite(s) => s,
    }
}

/// The label values of a raw JSON array key.
pub open spec fn json_label_values(key: Seq<char>) -> Result<Seq<Seq<char>>, ParseFailure> {
    match json_label_array(key) {
        Ok(v) => Ok(Seq::new(v.len(), |i: int| json_label_text(v[i]))),
        Err(m) => Err(ParseFailure::InvalidLabelJson(m)),
    }
}

/// The label values of a base64-encoded JSON array key: the key must decode,
/// the bytes must be UTF-8, and the text must be a JSON array.
pub open spec fn base64_label_values(key: Seq<char>) -> Result<Seq<Seq<char>>, ParseFailure> {
    match base64_standard_decode(key) {
        Err(m) => Err(ParseFailure::InvalidBase64(m)),
        Ok(bytes) => if !vstd::utf8::valid_utf8(bytes) {
            Err(ParseFailure::InvalidBase64(utf8_error_text(bytes)))
        } else {
            json_label_values(vstd::utf8::decode_utf8(bytes))
        },
    }
}

/// The label values of a key in the given format; `Auto` takes the key as raw
/// JSON when it parses as such, and as base64 otherwise.
pub open spec fn label_values(key: Seq<char>, format: LabelFormat) -> Result<Seq<Seq<char>>, ParseFailure> {
    match format {
        LabelFormat::Json => json_label_values(key),
        LabelFormat::Base64 => base64_label_values(key),
        LabelFormat::Auto => if json_label_values(key) is Ok {
            json_label_values(key)
        } else {
            base64_label_values(key)
        },
    }
}

pub(crate) fn json_label_string(v: &JsonLabel) -> (r: String)
    ensures
        r@ == json_label_text(v@),
{
    match v {
        JsonLabel::Text(s) => s.clone(),
        JsonLabel::Number(s) => s.clone(),
        JsonLabel::Bool(b) => if *b {
            String::from_str("true")
        } else {
            String::from_str("false")
        },
        JsonLabel::Null => String::new(),
        JsonLabel::Composite(s) => s.clone(),
    }
}

/// Label values from a raw JSON array such as `["GET", 200]`.
pub fn decode_json_labels(key: &str) -> (r: Result<Vec<String>, ParseError>)
    ensures
        match r {
            Ok(v) => json_label_values(key@) == Ok::<Seq<Seq<char>>, ParseFailure>(strings_view(v@)),
            Err(e) => json_label_values(key@) == Err::<Seq<Seq<char>>, ParseFailure>(e@),
        },
{
    let values = match parse_json_label_array(key) {
        Ok(v) => v,
        Err(m) => return Err(ParseError::InvalidLabelJson(m)),
    };
    let ghost jv = json_label_array(key@)->Ok_0;
    let mut out: Vec<String> = Vec::new();
    let n = values.len();
    for i in 0..n
        invariant
            n == values@.len(),
            jv.len() == n,
            forall|k: int| 0 <= k < n ==> jv[k] == #[trigger] values@[k]@,
            strings_view(out@) =~= Seq::new(i as nat, |k: int| json_label_text(jv[k])),
    {
        let text = json_label_string(&values[i]);
        assert(values@[i as int]@ == jv[i as int]);
        let ghost before = strings_view(out@);
        out.push(text);
        assert(strings_view(out@) =~= before.push(json_label_text(jv[i as int])));
    }
    assert(strings_view(out@) =~= Seq::new(jv.len(), |k: int| json_label_text(jv[k])));
    Ok(out)
}

/// Label values from a base64-encoded JSON array.
pub fn decode_base64_labels(key: &str) -> (r: Result<Vec<String>, ParseError>)
    ensures
        match r {
            Ok(v) => base64_label_values(key@) == Ok::<Seq<Seq<char>>, ParseFailure>(strings_view(v@)),
            Err(e) => base64_label_values(key@) == Err::<Seq<Seq<char>>, ParseFailure>(e@),
        },
{
    let bytes = match decode_base64(key) {
        Ok(b) => b,
        Err(m) => return Err(ParseError::InvalidBase64(m)),
    };
    let json_str = match string_from_utf8(bytes) {
        Ok(s) => s,
        Err(m) => return Err(ParseError::InvalidBase64(m)),
    };
    decode_json_labels(json_str.as_str())
}

/// Label values of a hash field name in the given format.
pub fn decode_label_values(key: &str, format: LabelFormat) -> (r: Result<Vec<String>, ParseError>)
    ensures
        match r {
            Ok(v) => label_values(key@, format) == Ok::<Seq<Seq<char>>, ParseFailure>(strings_view(v@)),
            Err(e) => label_values(key@, format) == Err::<Seq<Seq<char>>, ParseFailure>(e@),
        },
{
    match format {
        LabelFormat::Json => decode_json_labels(key),
        LabelFormat::Base64 => decode_base64_labels(key),
        LabelFormat::Auto => {
            if let Ok(values) = decode_json_labels(key) {
                return Ok(values);
            }
            decode_base64_labels(key)
        },
    }
}

// ---------------------------------------------------------------------------
// Samples
// ---------------------------------------------------------------------------

/// The labels of a sample: label names paired with label values by position
/// (up to the shorter of the two), inserted in order.
pub open spec fn zipped_labels(names: Seq<Seq<char>>, values: Seq<Seq<char>>) -> LabelSeq {
    let n = if names.len() <= values.len() {
        names.len()
    } else {
        values.len()
    };
    extend_labels(Seq::empty(), Seq::new(n, |i: int| (names[i], values[i])))
}

/// With distinct label names, every name that has a value at its position
/// gets that value.
pub proof fn lemma_zipped_label_values(names: Seq<Seq<char>>, values: Seq<Seq<char>>, i: int)
    requires
        0 <= i < names.len(),
        i < values.len(),
        forall|a: int, b: int| 0 <= a < b < names.len() ==> names[a] != names[b],
    ensures
        lookup(zipped_labels(names, values), names[i]) == Some(values[i]),
{
    let n = if names.len() <= values.len() {
        names.len()
    } else {
        values.len()
    };
    let pairs = Seq::new(n, |k: int| (names[k], values[k]));
    assert(distinct_names(Seq::<(Seq<char>, Seq<char>)>::empty()));
    lemma_extend_lookup(Seq::empty(), pairs, names[i]);
    assert(distinct_names(pairs));
    lemma_name_index(pairs, names[i]);
    assert(pairs[i].0 == names[i]);
    assert(name_index(pairs, names[i]) == i);
}

/// Builds the label set of a sample from label names and values.
pub fn zip_labels(names: &[String], values: &Vec<String>) -> (l: Labels)
    ensures
        l@ == zipped_labels(strings_view(names@), strings_view(values@)),
{
    let n = if names.len() <= values.len() {
        names.len()
    } else {
        values.len()
    };
    let ghost pairs = Seq::new(n as nat, |i: int| (strings_view(names@)[i], strings_view(values@)[i]));
    let mut labels = Labels::new();
    for i in 0..n
        invariant
            n <= names@.len(),
            n <= values@.len(),
            pairs == Seq::new(n as nat, |i: int| (strings_view(names@)[i], strings_view(values@)[i])),
            labels@ == extend_labels(Seq::empty(), pairs.take(i as int)),
    {
        labels.insert(names[i].clone(), values[i].clone());
        assert(pairs.take(i + 1).drop_last() =~= pairs.take(i as int));
    }
    assert(pairs.take(n as int) =~= pairs);
    labels
}

/// One field of a promphp hash: its name, its value text, and that text read
/// as a number (`None` when it is not one).
#[derive(Debug, Clone)]
pub struct HashField<V> {
    pub key: String,
    pub value: String,
    pub parsed: Option<V>,
}

/// Index of the first field named `k`, or -1.
pub open spec fn field_index<V>(fs: Seq<HashField<V>>, k: Seq<char>) -> int
    decreases fs.len(),
{
    if fs.len() == 0 {
        -1
    } else if fs[0].key@ == k {
        0
    } else {
        let r = field_index(fs.drop_first(), k);
        if r < 0 {
            -1
        } else {
            r + 1
        }
    }
}

proof fn lemma_field_index_at<V>(fs: Seq<HashField<V>>, k: Seq<char>, p: int)
    requires
        0 <= p <= fs.len(),
        forall|j: int| 0 <= j < p ==> (#[trigger] fs[j]).key@ != k,
        p == fs.len() || fs[p].key@ == k,
    ensures
        field_index(fs, k) == (if p == fs.len() {
            -1
        } else {
            p
        }),
    decreases fs.len(),
{
    if fs.len() > 0 && p > 0 {
        let t = fs.drop_first();
        assert(fs[0].key@ != k);
        assert forall|j: int| 0 <= j < p - 1 implies (#[trigger] t[j]).key@ != k by {
            assert(t[j] == fs[j + 1]);
        }
        if p < fs.len() {
            assert(t[p - 1] == fs[p]);
        }
        lemma_field_index_at(t, k, p - 1);
    }
}

/// The metadata text of a promphp hash: the value of its `__meta` field.
pub fn meta_field<V>(fields: &[HashField<V>]) -> (r: Result<&String, ParseError>)
    ensures
        match r {
            Ok(m) => field_index(fields@, "__meta"@) >= 0 && *m == fields@[field_index(fields@, "__meta"@)].value,
            Err(e) => field_index(fields@, "__meta"@) == -1 && e@ == ParseFailure::InvalidMeta(
                "missing __meta field"@,
            ),
        },
{
    let n = fields.len();
    for i in 0..n
        invariant
            n == fields@.len(),
            forall|j: int| 0 <= j < i ==> (#[trigger] fields@[j]).key@ != "__meta"@,
    {
        if str_eq(fields[i].key.as_str(), "__meta") {
            proof {
                lemma_field_index_at(fields@, "__meta"@, i as int);
            }
            return Ok(&fields[i].value);
        }
    }
    proof {
        lemma_field_index_at(fields@, "__meta"@, n as int);
    }
    Err(ParseError::InvalidMeta(String::from_str("missing __meta field")))
}

/// The labels and value of the sample that a field gives: labels first, then
/// the value, which must have read as a number.
pub open spec fn field_sample<V>(f: HashField<V>, names: Seq<Seq<char>>, format: LabelFormat) -> Result<(LabelSeq, V), ParseFailure> {
    match label_values(f.key@, format) {
        Err(e) => Err(e),
        Ok(vals) => match f.parsed {
            Some(v) => Ok((zipped_labels(names, vals), v)),
            None => Err(ParseFailure::InvalidValue(f.value@)),
        },
    }
}

/// The samples of a counter, gauge or summary hash, in field order, skipping
/// `__meta`; or the failure of the first field that does not read.
pub open spec fn fields_samples<V>(fs: Seq<HashField<V>>, names: Seq<Seq<char>>, format: LabelFormat) -> Result<Seq<(LabelSeq, V)>, ParseFailure>
    decreases fs.len(),
{
    if fs.len() == 0 {
        Ok(Seq::empty())
    } else {
        match fields_samples(fs.drop_last(), names, format) {
            Err(e) => Err(e),
            Ok(v) => if fs.last().key@ == "__meta"@ {
                Ok(v)
            } else {
                match field_sample(fs.last(), names, format) {
                    Ok(x) => Ok(v.push(x)),
                    Err(e) => Err(e),
                }
            },
        }
    }
}

/// The samples match their description: same labels and value, no suffix.
pub open spec fn samples_match<V>(samples: Seq<Sample<V>>, desc: Seq<(LabelSeq, V)>) -> bool {
    &&& samples.len() == desc.len()
    &&& forall|i: int|
        0 <= i < samples.len() ==> (#[trigger] samples[i]).labels@ == desc[i].0 && samples[i].value
            == desc[i].1 && samples[i].suffix is None
}

/// Reads the sample of one hash field.
pub fn parse_sample<V: Copy>(field: &HashField<V>, label_names: &[String], format: LabelFormat) -> (r: Result<Sample<V>, ParseError>)
    ensures
        match r {
            Ok(s) => field_sample(*field, strings_view(label_names@), format) == Ok::<(LabelSeq, V), ParseFailure>(
                (s.labels@, s.value),
            ) && s.suffix is None,
            Err(e) => field_sample(*field, strings_view(label_names@), format) == Err::<(LabelSeq, V), ParseFailure>(e@),
        },
{
    let values = decode_label_values(field.key.as_str(), format)?;
    let labels = zip_labels(label_names, &values);
    match field.parsed {
        Some(v) => Ok(Sample::new(labels, v)),
        None => Err(ParseError::InvalidValue(field.value.clone())),
    }
}

proof fn lemma_fields_samples_err<V>(fs: Seq<HashField<V>>, names: Seq<Seq<char>>, format: LabelFormat, k: int, e: ParseFailure)
    requires
        0 <= k <= fs.len(),
        fields_samples(fs.take(k), names, format) == Err::<Seq<(LabelSeq, V)>, ParseFailure>(e),
    ensures
        fields_samples(fs, names, format) == Err::<Seq<(LabelSeq, V)>, ParseFailure>(e),
    decreases fs.len() - k,
{
    if k == fs.len() {
        assert(fs.take(k) =~= fs);
    } else {
        let f2 = fs.drop_last();
        assert(f2.take(k) =~= fs.take(k));
        lemma_fields_samples_err(f2, names, format, k, e);
    }
}

/// Reads the samples of a counter, gauge or summary hash: one per field other
/// than `__meta`, in field order; the first field that does not read fails
/// the whole hash.
pub fn parse_samples<V: Copy>(fields: &[HashField<V>], label_names: &[String], format: LabelFormat) -> (r: Result<Vec<Sample<V>>, ParseError>)
    ensures
        match r {
            Ok(v) => fields_samples(fields@, strings_view(label_names@), format) matches Ok(d)
                && samples_match(v@, d),
            Err(e) => fields_samples(fields@, strings_view(label_names@), format) == Err::<Seq<(LabelSeq, V)>, ParseFailure>(e@),
        },
{
    let ghost names = strings_view(label_names@);
    let mut samples: Vec<Sample<V>> = Vec::new();
    let n = fields.len();
    for i in 0..n
        invariant
            n == fields@.len(),
            names == strings_view(label_names@),
            fields_samples(fields@.take(i as int), names, format) matches Ok(d) && samples_match(samples@, d),
    {
        let ghost d = fields_samples(fields@.take(i as int), names, format)->Ok_0;
        assert(fields@.take(i + 1).drop_last() =~= fields@.take(i as int));
        assert(fields@.take(i + 1).last() == fields@[i as int]);
        let field = &fields[i];
        if !str_eq(field.key.as_str(), "__meta") {
            match parse_sample(field, label_names, format) {
                Ok(sample) => {
                    let ghost before = samples@;
                    samples.push(sample);
                    assert(samples_match(samples@, d.push((sample.labels@, sample.value)))) by {
                        assert forall|k: int| 0 <= k < samples@.len() implies (#[trigger] samples@[k]).labels@
                            == d.push((sample.labels@, sample.value))[k].0 && samples@[k].value == d.push(
                            (sample.labels@, sample.value),
                        )[k].1 && samples@[k].suffix is None by {
                            if k < before.len() {
                                assert(samples@[k] == before[k]);
                            }
                        }
                    }
                },
                Err(e) => {
                    proof {
                        lemma_fields_samples_err(fields@, names, format, i + 1, e@);
                    }
                    return Err(e);
                },
            }
        }
    }
    assert(fields@.take(n as int) =~= fields@);
    Ok(samples)
}

} // verus!
