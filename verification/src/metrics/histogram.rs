//! Histograms in promphp's hash format, and the samples of one series.
//!
//! promphp stores each bucket of a histogram as its own hash field, named by
//! a JSON object `{"b": <bound>, "labelValues": [...]}`: `b` is a bucket
//! bound, or `"sum"` / `"+Inf"`, and the value is the bucket's own count (not
//! cumulative). The fields are grouped here by their label values, one group
//! per series.
//!
//! An older layout is read too: there each field is named by the encoded
//! label values, as for counters, and its value is a JSON object with the
//! series' `sum`, `count` and `buckets` (bound -> count). A hash is read in
//! the older layout when it has data fields and none of their names reads as
//! a bound/labelValues object.
//!
//! Once the counts are summed up to cumulative ones, a series is
//! written as a `_bucket` sample per bound (label `le`), a `_bucket` sample
//! for `+Inf` holding the total, a `_sum` sample and a `_count` sample holding
//! the total again.

use vstd::prelude::*;
use vstd::string::*;
use crate::external::{json_labels_view, JsonLabel, JsonLabelView};
use crate::text::{str_eq, strings_view};
use super::labels::{insert_label, LabelSeq, Labels};
use crate::config::LabelFormat;
use super::parser::{
    decode_label_values, json_label_string, json_label_text, label_values, zip_labels, zipped_labels, ParseError,
    ParseFailure,
};
use super::types::Sample;

verus! {

/// The labels of a bucket sample: the series' labels with `le` set to the bound.
pub open spec fn bucket_labels(base: LabelSeq, le: Seq<char>) -> LabelSeq {
    insert_label(base, "le"@, le)
}

/// The samples of a series, each as labels, value and name suffix: one
/// `_bucket` per bound with its cumulative count, the `+Inf` bucket and the
/// count with the total, and the sum.
pub open spec fn histogram_series<V>(base: LabelSeq, bounds: Seq<Seq<char>>, cumulative: Seq<V>, total: V, sum: V) -> Seq<(LabelSeq, V, Seq<char>)> {
    Seq::new(bounds.len(), |i: int| (bucket_labels(base, bounds[i]), cumulative[i], "_bucket"@)).push(
        (bucket_labels(base, "+Inf"@), total, "_bucket"@),
    ).push((base, sum, "_sum"@)).push((base, total, "_count"@))
}

/// The sample has the described labels, value and suffix.
pub open spec fn sample_is<V>(s: Sample<V>, d: (LabelSeq, V, Seq<char>)) -> bool {
    &&& s.labels@ == d.0
    &&& s.value == d.1
    &&& s.suffix matches Some(x) && x@ == d.2
}

/// The samples are the described ones, in order.
pub open spec fn samples_describe<V>(samples: Seq<Sample<V>>, desc: Seq<(LabelSeq, V, Seq<char>)>) -> bool {
    &&& samples.len() == desc.len()
    &&& forall|i: int| 0 <= i < samples.len() ==> sample_is(#[trigger] samples[i], desc[i])
}

fn with_label(base: &Labels, name: &str, value: &str) -> (l: Labels)
    ensures
        l@ == insert_label(base@, name@, value@),
{
    let mut l = base.clone();
    l.insert(String::from_str(name), String::from_str(value));
    l
}

/// Builds the samples of one series from the series' labels, the written
/// bucket bounds with their cumulative counts, the total count and the sum.
pub fn histogram_series_samples<V: Copy>(base: &Labels, bounds: &[String], cumulative: &[V], total: V, sum: V) -> (r: Vec<Sample<V>>)
    requires
        bounds@.len() == cumulative@.len(),
    ensures
        samples_describe(r@, histogram_series(base@, strings_view(bounds@), cumulative@, total, sum)),
{
    let ghost b = strings_view(bounds@);
    let ghost buckets = Seq::new(b.len(), |i: int| (bucket_labels(base@, b[i]), cumulative@[i], "_bucket"@));
    let mut samples: Vec<Sample<V>> = Vec::new();
    let n = bounds.len();
    for i in 0..n
        invariant
            n == bounds@.len(),
            n == cumulative@.len(),
            b == strings_view(bounds@),
            buckets == Seq::new(b.len(), |i: int| (bucket_labels(base@, b[i]), cumulative@[i], "_bucket"@)),
            samples_describe(samples@, buckets.take(i as int)),
    {
        let labels = with_label(base, "le", bounds[i].as_str());
        let sample = Sample::new(labels, cumulative[i]).with_suffix("_bucket");
        let ghost before = samples@;
        samples.push(sample);
        assert(samples_describe(samples@, buckets.take(i + 1))) by {
            assert forall|k: int| 0 <= k < samples@.len() implies sample_is(
                #[trigger] samples@[k],
                buckets.take(i + 1)[k],
            ) by {
                if k < i {
                    assert(samples@[k] == before[k]);
                }
            }
        }
    }
    assert(buckets.take(n as int) =~= buckets);
    let ghost with_buckets = samples@;
    samples.push(Sample::new(with_label(base, "le", "+Inf"), total).with_suffix("_bucket"));
    samples.push(Sample::new(base.clone(), sum).with_suffix("_sum"));
    samples.push(Sample::new(base.clone(), total).with_suffix("_count"));
    let ghost desc = histogram_series(base@, b, cumulative@, total, sum);
    assert(samples_describe(samples@, desc)) by {
        assert forall|k: int| 0 <= k < samples@.len() implies sample_is(#[trigger] samples@[k], desc[k]) by {
            if k < n {
                assert(samples@[k] == with_buckets[k]);
                assert(desc[k] == buckets[k]);
            }
        }
    }
    samples
}

// ---------------------------------------------------------------------------
// Grouping the fields of a histogram hash
// ---------------------------------------------------------------------------

/// A histogram field name read as JSON: the bucket bound `b` and the label
/// values `labelValues`.
#[derive(Debug, Clone)]
pub struct HistogramKey {
    pub bound: JsonLabel,
    pub label_values: Vec<JsonLabel>,
}

/// A field value of the older layout: the series' sum and count, and each
/// bucket's key with its count.
#[derive(Debug)]
pub struct LegacyHistogramValue<V> {
    pub sum: V,
    pub count: V,
    pub buckets: Vec<(String, V)>,
}

/// One field of a histogram hash: its name, the name read as a
/// `HistogramKey` (or the message of the JSON error), its value text, that
/// text read as a number (`None` when it is not one), and that text read as
/// a value of the older layout (`None` when it is not one).
#[derive(Debug)]
pub struct HistogramField<V> {
    pub key: String,
    pub parsed_key: Result<HistogramKey, String>,
    pub value: String,
    pub parsed: Option<V>,
    pub legacy: Option<LegacyHistogramValue<V>>,
}

/// The fields of one series: their label values, each bucket key with its
/// count in field order, and, in the older layout, the series' total count.
#[derive(Debug)]
pub struct HistogramGroup<V> {
    pub label_values: Vec<JsonLabel>,
    pub buckets: Vec<(String, V)>,
    pub count: Option<V>,
}

/// The abstract value of a group: label values, bucket keys with values, and
/// the total count of the older layout.
pub type GroupView<V> = (Seq<JsonLabelView>, Seq<(Seq<char>, V)>, Option<V>);

/// The key under which a field's count is kept: a number as serde_json
/// writes it, a string as it is, and any other value as its JSON text.
pub open spec fn bucket_key_text(b: JsonLabelView) -> Seq<char> {
    match b {
        JsonLabelView::Number(s) => s,
        JsonLabelView::Text(s) => s,
        JsonLabelView::Bool(x) => if x {
            "true"@
        } else {
            "false"@
        },
        JsonLabelView::Null => "null"@,
        JsonLabelView::Composite(s) => s,
    }
}

/// Index of the first group with label values `k`, or -1.
pub open spec fn group_index<V>(gs: Seq<GroupView<V>>, k: Seq<JsonLabelView>) -> int
    decreases gs.len(),
{
    if gs.len() == 0 {
        -1
    } else if gs[0].0 == k {
        0
    } else {
        let r = group_index(gs.drop_first(), k);
        if r < 0 {
            -1
        } else {
            r + 1
        }
    }
}

/// Adds a bucket to the group of label values `k`, starting a new group at
/// the end when there is none.
pub open spec fn add_to_groups<V>(gs: Seq<GroupView<V>>, k: Seq<JsonLabelView>, bk: Seq<char>, v: V) -> Seq<GroupView<V>> {
    let i = group_index(gs, k);
    if i >= 0 {
        gs.update(i, (gs[i].0, gs[i].1.push((bk, v)), gs[i].2))
    } else {
        gs.push((k, seq![(bk, v)], None))
    }
}

/// What one field contributes: nothing for `__meta`; otherwise its key must
/// be a histogram key and then its value a number, giving its label values,
/// bucket key and count.
pub open spec fn histogram_entry<V>(f: HistogramField<V>) -> Result<Option<(Seq<JsonLabelView>, Seq<char>, V)>, ParseFailure> {
    if f.key@ == "__meta"@ {
        Ok(None)
    } else {
        match f.parsed_key {
            Err(m) => Err(ParseFailure::InvalidLabelJson(m@)),
            Ok(k) => match f.parsed {
                None => Err(ParseFailure::InvalidValue(f.value@)),
                Some(v) => Ok(Some((json_labels_view(k.label_values@), bucket_key_text(k.bound@), v))),
            },
        }
    }
}

/// The groups of a histogram hash, in order of first appearance, or the
/// failure of the first field that does not read.
pub open spec fn histogram_groups<V>(fs: Seq<HistogramField<V>>) -> Result<Seq<GroupView<V>>, ParseFailure>
    decreases fs.len(),
{
    if fs.len() == 0 {
        Ok(Seq::empty())
    } else {
        match histogram_groups(fs.drop_last()) {
            Err(e) => Err(e),
            Ok(gs) => match histogram_entry(fs.last()) {
                Err(e) => Err(e),
                Ok(None) => Ok(gs),
                Ok(Some((k, bk, v))) => Ok(add_to_groups(gs, k, bk, v)),
            },
        }
    }
}

/// The abstract bucket pairs of a vector of bucket pairs.
pub open spec fn buckets_view<V>(b: Seq<(String, V)>) -> Seq<(Seq<char>, V)> {
    Seq::new(b.len(), |i: int| (b[i].0@, b[i].1))
}

/// The abstract value of a group.
pub open spec fn group_view<V>(g: HistogramGroup<V>) -> GroupView<V> {
    (json_labels_view(g.label_values@), buckets_view(g.buckets@), g.count)
}

/// The groups are the described ones, in order.
pub open spec fn groups_match<V>(g: Seq<HistogramGroup<V>>, d: Seq<GroupView<V>>) -> bool {
    &&& g.len() == d.len()
    &&& forall|i: int| 0 <= i < g.len() ==> group_view(#[trigger] g[i]) == d[i]
}

/// The count kept under bucket key `k`: the last one added.
pub open spec fn bucket_lookup<V>(b: Seq<(Seq<char>, V)>, k: Seq<char>) -> Option<V>
    decreases b.len(),
{
    if b.len() == 0 {
        None
    } else if b.last().0 == k {
        Some(b.last().1)
    } else {
        bucket_lookup(b.drop_last(), k)
    }
}

/// A bucket key finds the count of the last pair stored under exactly that
/// key, and nothing when no pair has that key: pairs with other keys never
/// decide the result.
pub proof fn lemma_bucket_lookup_exact<V>(b: Seq<(Seq<char>, V)>, k: Seq<char>)
    ensures
        match bucket_lookup(b, k) {
            Some(v) => exists|i: int|
                0 <= i < b.len() && #[trigger] b[i] == (k, v) && forall|j: int| i < j < b.len() ==> (#[trigger] b[j]).0 != k,
            None => forall|i: int| 0 <= i < b.len() ==> (#[trigger] b[i]).0 != k,
        },
    decreases b.len(),
{
    if b.len() > 0 {
        let u = b.drop_last();
        lemma_bucket_lookup_exact(u, k);
        if b.last().0 == k {
            let i = b.len() - 1;
            assert(b[i] == (k, b.last().1));
        } else {
            match bucket_lookup(u, k) {
                Some(v) => {
                    let i = choose|i: int|
                        0 <= i < u.len() && #[trigger] u[i] == (k, v) && forall|j: int| i < j < u.len() ==> (#[trigger] u[j]).0 != k;
                    assert(b[i] == u[i]);
                    assert forall|j: int| i < j < b.len() implies (#[trigger] b[j]).0 != k by {
                        if j < u.len() {
                            assert(b[j] == u[j]);
                        }
                    }
                },
                None => {
                    assert forall|i: int| 0 <= i < b.len() implies (#[trigger] b[i]).0 != k by {
                        if i < u.len() {
                            assert(b[i] == u[i]);
                        }
                    }
                },
            }
        }
    }
}

proof fn lemma_group_index_at<V>(gs: Seq<GroupView<V>>, k: Seq<JsonLabelView>, p: int)
    requires
        0 <= p <= gs.len(),
        forall|j: int| 0 <= j < p ==> (#[trigger] gs[j]).0 != k,
        p == gs.len() || gs[p].0 == k,
    ensures
        group_index(gs, k) == (if p == gs.len() {
            -1
        } else {
            p
        }),
    decreases gs.len(),
{
    if gs.len() > 0 && p > 0 {
        let t = gs.drop_first();
        assert(gs[0].0 != k);
        assert forall|j: int| 0 <= j < p - 1 implies (#[trigger] t[j]).0 != k by {
            assert(t[j] == gs[j + 1]);
        }
        if p < gs.len() {
            assert(t[p - 1] == gs[p]);
        }
        lemma_group_index_at(t, k, p - 1);
    }
}

proof fn lemma_histogram_groups_err<V>(fs: Seq<HistogramField<V>>, k: int, e: ParseFailure)
    requires
        0 <= k <= fs.len(),
        histogram_groups(fs.take(k)) == Err::<Seq<GroupView<V>>, ParseFailure>(e),
    ensures
        histogram_groups(fs) == Err::<Seq<GroupView<V>>, ParseFailure>(e),
    decreases fs.len() - k,
{
    if k == fs.len() {
        assert(fs.take(k) =~= fs);
    } else {
        let f2 = fs.drop_last();
        assert(f2.take(k) =~= fs.take(k));
        lemma_histogram_groups_err(f2, k, e);
    }
}

/// `group_index` finds a group with the given label values, or there is none.
proof fn lemma_group_index<V>(gs: Seq<GroupView<V>>, k: Seq<JsonLabelView>)
    ensures
        -1 <= group_index(gs, k) < gs.len(),
        group_index(gs, k) >= 0 ==> gs[group_index(gs, k)].0 == k,
        group_index(gs, k) == -1 ==> forall|j: int| 0 <= j < gs.len() ==> (#[trigger] gs[j]).0 != k,
    decreases gs.len(),
{
    if gs.len() > 0 {
        let t = gs.drop_first();
        lemma_group_index(t, k);
        if group_index(gs, k) > 0 {
            assert(gs[group_index(gs, k)] == t[group_index(t, k)]);
        }
        if group_index(gs, k) == -1 {
            assert forall|j: int| 0 <= j < gs.len() implies (#[trigger] gs[j]).0 != k by {
                if j > 0 {
                    assert(gs[j] == t[j - 1]);
                }
            }
        }
    }
}

/// No two groups have the same label values.
pub open spec fn groups_distinct<V>(gs: Seq<GroupView<V>>) -> bool {
    forall|i: int, j: int| 0 <= i < j < gs.len() ==> (#[trigger] gs[i]).0 != (#[trigger] gs[j]).0
}

/// Each series of a histogram hash gets one group: no two groups have the
/// same label values.
pub proof fn lemma_histogram_groups_distinct<V>(fs: Seq<HistogramField<V>>)
    ensures
        histogram_groups(fs) matches Ok(gs) ==> groups_distinct(gs),
    decreases fs.len(),
{
    if fs.len() > 0 {
        lemma_histogram_groups_distinct(fs.drop_last());
        if let Ok(gs) = histogram_groups(fs.drop_last()) {
            if let Ok(Some((k, bk, v))) = histogram_entry(fs.last()) {
                lemma_group_index(gs, k);
                let r = add_to_groups(gs, k, bk, v);
                assert forall|i: int, j: int| 0 <= i < j < r.len() implies (#[trigger] r[i]).0 != (
                #[trigger] r[j]).0 by {
                    if j < gs.len() {
                        assert(r[i].0 == gs[i].0 && r[j].0 == gs[j].0);
                    } else {
                        assert(r[i].0 == gs[i].0);
                    }
                }
            }
        }
    }
}

fn copy_label(l: &JsonLabel) -> (r: JsonLabel)
    ensures
        r@ == l@,
{
    match l {
        JsonLabel::Text(s) => JsonLabel::Text(s.clone()),
        JsonLabel::Number(s) => JsonLabel::Number(s.clone()),
        JsonLabel::Bool(b) => JsonLabel::Bool(*b),
        JsonLabel::Null => JsonLabel::Null,
        JsonLabel::Composite(s) => JsonLabel::Composite(s.clone()),
    }
}

fn copy_labels(v: &Vec<JsonLabel>) -> (r: Vec<JsonLabel>)
    ensures
        json_labels_view(r@) == json_labels_view(v@),
{
    let mut r: Vec<JsonLabel> = Vec::new();
    let n = v.len();
    for i in 0..n
        invariant
            n == v@.len(),
            r@.len() == i,
            forall|k: int| 0 <= k < i ==> (#[trigger] r@[k])@ == v@[k]@,
    {
        r.push(copy_label(&v[i]));
    }
    assert(json_labels_view(r@) =~= json_labels_view(v@));
    r
}

fn same_label(a: &JsonLabel, b: &JsonLabel) -> (r: bool)
    ensures
        r == (a@ == b@),
{
    match (a, b) {
        (JsonLabel::Text(x), JsonLabel::Text(y)) => str_eq(x.as_str(), y.as_str()),
        (JsonLabel::Number(x), JsonLabel::Number(y)) => str_eq(x.as_str(), y.as_str()),
        (JsonLabel::Bool(x), JsonLabel::Bool(y)) => *x == *y,
        (JsonLabel::Null, JsonLabel::Null) => true,
        (JsonLabel::Composite(x), JsonLabel::Composite(y)) => str_eq(x.as_str(), y.as_str()),
        _ => false,
    }
}

fn same_labels(a: &Vec<JsonLabel>, b: &Vec<JsonLabel>) -> (r: bool)
    ensures
        r == (json_labels_view(a@) == json_labels_view(b@)),
{
    if a.len() != b.len() {
        assert(json_labels_view(a@).len() != json_labels_view(b@).len());
        return false;
    }
    let n = a.len();
    for i in 0..n
        invariant
            n == a@.len(),
            n == b@.len(),
            forall|k: int| 0 <= k < i ==> (#[trigger] a@[k])@ == b@[k]@,
    {
        if !same_label(&a[i], &b[i]) {
            assert(json_labels_view(a@)[i as int] != json_labels_view(b@)[i as int]);
            return false;
        }
    }
    assert(json_labels_view(a@) =~= json_labels_view(b@));
    true
}

fn bucket_key_string(b: &JsonLabel) -> (r: String)
    ensures
        r@ == bucket_key_text(b@),
{
    match b {
        JsonLabel::Number(s) => s.clone(),
        JsonLabel::Text(s) => s.clone(),
        JsonLabel::Bool(x) => if *x {
            String::from_str("true")
        } else {
            String::from_str("false")
        },
        JsonLabel::Null => String::from_str("null"),
        JsonLabel::Composite(s) => s.clone(),
    }
}

/// Groups the fields of a histogram hash by their label values, in order of
/// first appearance, skipping `__meta`. Each field's name must read as a
/// histogram key and then its value as a number; the first field that does
/// not fails the whole hash (`InvalidLabelJson`, then `InvalidValue`).
pub fn group_histogram_fields<V: Copy>(fields: &[HistogramField<V>]) -> (r: Result<Vec<HistogramGroup<V>>, ParseError>)
    ensures
        match r {
            Ok(g) => histogram_groups(fields@) matches Ok(d) && groups_match(g@, d),
            Err(e) => histogram_groups(fields@) == Err::<Seq<GroupView<V>>, ParseFailure>(e@),
        },
{
    let mut groups: Vec<HistogramGroup<V>> = Vec::new();
    let n = fields.len();
    assert(fields@.take(0) =~= Seq::<HistogramField<V>>::empty());
    for i in 0..n
        invariant
            n == fields@.len(),
            histogram_groups(fields@.take(i as int)) matches Ok(d) && groups_match(groups@, d),
    {
        let ghost d = histogram_groups(fields@.take(i as int))->Ok_0;
        assert(fields@.take(i + 1).drop_last() =~= fields@.take(i as int));
        assert(fields@.take(i + 1).last() == fields@[i as int]);
        let field = &fields[i];
        if !str_eq(field.key.as_str(), "__meta") {
            let key = match &field.parsed_key {
                Ok(k) => k,
                Err(m) => {
                    proof {
                        lemma_histogram_groups_err(fields@, i + 1, ParseFailure::InvalidLabelJson(m@));
                    }
                    return Err(ParseError::InvalidLabelJson(m.clone()));
                },
            };
            let value = match field.parsed {
                Some(v) => v,
                None => {
                    proof {
                        lemma_histogram_groups_err(fields@, i + 1, ParseFailure::InvalidValue(field.value@));
                    }
                    return Err(ParseError::InvalidValue(field.value.clone()));
                },
            };
            let bk = bucket_key_string(&key.bound);
            let ghost k = json_labels_view(key.label_values@);
            let ghost bkv = bk@;
            let ghost target = add_to_groups(d, k, bkv, value);
            let m = groups.len();
            let mut j: usize = 0;
            while j < m && !same_labels(&groups[j].label_values, &key.label_values)
                invariant
                    j <= m,
                    m == groups@.len(),
                    groups_match(groups@, d),
                    k == json_labels_view(key.label_values@),
                    forall|x: int| 0 <= x < j ==> (#[trigger] d[x]).0 != k,
                decreases m - j,
            {
                assert(group_view(groups@[j as int]) == d[j as int]);
                j = j + 1;
            }
            if j < m {
                assert(group_view(groups@[j as int]) == d[j as int]);
            }
            proof {
                lemma_group_index_at(d, k, j as int);
            }
            let ghost before = groups@;
            if j < m {
                let mut g = groups.remove(j);
                let ghost old_buckets = g.buckets@;
                g.buckets.push((bk, value));
                assert(buckets_view(g.buckets@) =~= buckets_view(old_buckets).push((bkv, value)));
                groups.insert(j, g);
                assert(groups_match(groups@, target)) by {
                    assert forall|x: int| 0 <= x < groups@.len() implies group_view(#[trigger] groups@[x])
                        == target[x] by {
                        if x != j {
                            assert(groups@[x] == before[x]);
                            assert(group_view(before[x]) == d[x]);
                        }
                    }
                }
            } else {
                let mut buckets: Vec<(String, V)> = Vec::new();
                buckets.push((bk, value));
                assert(buckets_view(buckets@) =~= seq![(bkv, value)]);
                let g = HistogramGroup { label_values: copy_labels(&key.label_values), buckets, count: None };
                groups.push(g);
                assert(groups_match(groups@, target)) by {
                    assert forall|x: int| 0 <= x < groups@.len() implies group_view(#[trigger] groups@[x])
                        == target[x] by {
                        if x < before.len() {
                            assert(groups@[x] == before[x]);
                            assert(group_view(before[x]) == d[x]);
                        }
                    }
                }
            }
        }
    }
    assert(fields@.take(n as int) =~= fields@);
    Ok(groups)
}

// ---------------------------------------------------------------------------
// The older layout, and the choice of layout
// ---------------------------------------------------------------------------

/// The group of an older-layout field: the label values decoded from its
/// name (as texts), its buckets followed by the sum under `sum`, and its
/// count.
pub open spec fn legacy_group<V>(vals: Seq<Seq<char>>, lv: LegacyHistogramValue<V>) -> GroupView<V> {
    (
        Seq::new(vals.len(), |i: int| JsonLabelView::Text(vals[i])),
        buckets_view(lv.buckets@).push(("sum"@, lv.sum)),
        Some(lv.count),
    )
}

/// What one field contributes in the older layout: nothing for `__meta`;
/// otherwise its name must decode to label values in the given format and
/// then its value must read as a sum/count/buckets object.
pub open spec fn legacy_entry<V>(f: HistogramField<V>, format: LabelFormat) -> Result<Option<GroupView<V>>, ParseFailure> {
    if f.key@ == "__meta"@ {
        Ok(None)
    } else {
        match label_values(f.key@, format) {
            Err(e) => Err(e),
            Ok(vals) => match f.legacy {
                None => Err(ParseFailure::InvalidValue(f.value@)),
                Some(lv) => Ok(Some(legacy_group(vals, lv))),
            },
        }
    }
}

/// The groups of an older-layout hash: one per data field, in field order,
/// or the failure of the first field that does not read.
pub open spec fn legacy_groups<V>(fs: Seq<HistogramField<V>>, format: LabelFormat) -> Result<Seq<GroupView<V>>, ParseFailure>
    decreases fs.len(),
{
    if fs.len() == 0 {
        Ok(Seq::empty())
    } else {
        match legacy_groups(fs.drop_last(), format) {
            Err(e) => Err(e),
            Ok(gs) => match legacy_entry(fs.last(), format) {
                Err(e) => Err(e),
                Ok(None) => Ok(gs),
                Ok(Some(g)) => Ok(gs.push(g)),
            },
        }
    }
}

/// Whether a field holds data (it is not `__meta`).
pub open spec fn is_data_field<V>(f: HistogramField<V>) -> bool {
    f.key@ != "__meta"@
}

/// A hash is in the older layout when it has data fields and none of their
/// names reads as a bound/labelValues object.
pub open spec fn legacy_layout<V>(fs: Seq<HistogramField<V>>) -> bool {
    &&& exists|i: int| 0 <= i < fs.len() && is_data_field(#[trigger] fs[i])
    &&& forall|i: int| 0 <= i < fs.len() && is_data_field(#[trigger] fs[i]) ==> fs[i].parsed_key is Err
}

/// The groups of a histogram hash in the layout it is written in.
pub open spec fn histogram_hash_groups<V>(fs: Seq<HistogramField<V>>, format: LabelFormat) -> Result<Seq<GroupView<V>>, ParseFailure> {
    if legacy_layout(fs) {
        legacy_groups(fs, format)
    } else {
        histogram_groups(fs)
    }
}

proof fn lemma_legacy_groups_err<V>(fs: Seq<HistogramField<V>>, format: LabelFormat, k: int, e: ParseFailure)
    requires
        0 <= k <= fs.len(),
        legacy_groups(fs.take(k), format) == Err::<Seq<GroupView<V>>, ParseFailure>(e),
    ensures
        legacy_groups(fs, format) == Err::<Seq<GroupView<V>>, ParseFailure>(e),
    decreases fs.len() - k,
{
    if k == fs.len() {
        assert(fs.take(k) =~= fs);
    } else {
        let f2 = fs.drop_last();
        assert(f2.take(k) =~= fs.take(k));
        lemma_legacy_groups_err(f2, format, k, e);
    }
}

fn copy_buckets<V: Copy>(b: &Vec<(String, V)>) -> (r: Vec<(String, V)>)
    ensures
        buckets_view(r@) == buckets_view(b@),
{
    let mut r: Vec<(String, V)> = Vec::new();
    let n = b.len();
    for i in 0..n
        invariant
            n == b@.len(),
            r@.len() == i,
            forall|k: int| 0 <= k < i ==> (#[trigger] r@[k]).0@ == b@[k].0@ && r@[k].1 == b@[k].1,
    {
        r.push((b[i].0.clone(), b[i].1));
    }
    assert(buckets_view(r@) =~= buckets_view(b@));
    r
}

fn text_labels(vals: &Vec<String>) -> (r: Vec<JsonLabel>)
    ensures
        json_labels_view(r@) == Seq::new(vals@.len(), |i: int| JsonLabelView::Text(vals@[i]@)),
{
    let mut r: Vec<JsonLabel> = Vec::new();
    let n = vals.len();
    for i in 0..n
        invariant
            n == vals@.len(),
            r@.len() == i,
            forall|k: int| 0 <= k < i ==> (#[trigger] r@[k])@ == JsonLabelView::Text(vals@[k]@),
    {
        r.push(JsonLabel::Text(vals[i].clone()));
    }
    assert(json_labels_view(r@) =~= Seq::new(vals@.len(), |i: int| JsonLabelView::Text(vals@[i]@)));
    r
}

/// Reads an older-layout histogram hash: one group per field other than
/// `__meta`, in field order. Each field's name must decode to label values
/// in the given format and then its value must read as a sum/count/buckets
/// object; the first field that does not fails the whole hash.
pub fn group_legacy_histogram_fields<V: Copy>(fields: &[HistogramField<V>], format: LabelFormat) -> (r: Result<Vec<HistogramGroup<V>>, ParseError>)
    ensures
        match r {
            Ok(g) => legacy_groups(fields@, format) matches Ok(d) && groups_match(g@, d),
            Err(e) => legacy_groups(fields@, format) == Err::<Seq<GroupView<V>>, ParseFailure>(e@),
        },
{
    let mut groups: Vec<HistogramGroup<V>> = Vec::new();
    let n = fields.len();
    assert(fields@.take(0) =~= Seq::<HistogramField<V>>::empty());
    for i in 0..n
        invariant
            n == fields@.len(),
            legacy_groups(fields@.take(i as int), format) matches Ok(d) && groups_match(groups@, d),
    {
        let ghost d = legacy_groups(fields@.take(i as int), format)->Ok_0;
        assert(fields@.take(i + 1).drop_last() =~= fields@.take(i as int));
        assert(fields@.take(i + 1).last() == fields@[i as int]);
        let field = &fields[i];
        if !str_eq(field.key.as_str(), "__meta") {
            let vals = match decode_label_values(field.key.as_str(), format) {
                Ok(v) => v,
                Err(e) => {
                    proof {
                        lemma_legacy_groups_err(fields@, format, i + 1, e@);
                    }
                    return Err(e);
                },
            };
            let lv = match &field.legacy {
                Some(lv) => lv,
                None => {
                    proof {
                        lemma_legacy_groups_err(fields@, format, i + 1, ParseFailure::InvalidValue(field.value@));
                    }
                    return Err(ParseError::InvalidValue(field.value.clone()));
                },
            };
            let mut buckets = copy_buckets(&lv.buckets);
            let ghost old_buckets = buckets@;
            buckets.push((String::from_str("sum"), lv.sum));
            assert(buckets_view(buckets@) =~= buckets_view(old_buckets).push(("sum"@, lv.sum)));
            let g = HistogramGroup { label_values: text_labels(&vals), buckets, count: Some(lv.count) };
            assert(strings_view(vals@) =~= Seq::new(vals@.len(), |k: int| vals@[k]@));
            assert(group_view(g) == legacy_group(strings_view(vals@), *lv));
            let ghost before = groups@;
            groups.push(g);
            assert(groups_match(groups@, d.push(legacy_group(strings_view(vals@), *lv)))) by {
                assert forall|x: int| 0 <= x < groups@.len() implies group_view(#[trigger] groups@[x])
                    == d.push(legacy_group(strings_view(vals@), *lv))[x] by {
                    if x < before.len() {
                        assert(groups@[x] == before[x]);
                        assert(group_view(before[x]) == d[x]);
                    }
                }
            }
        }
    }
    assert(fields@.take(n as int) =~= fields@);
    Ok(groups)
}

/// Whether a histogram hash is in the older layout: it has data fields and
/// none of their names reads as a bound/labelValues object.
pub fn is_legacy_layout<V>(fields: &[HistogramField<V>]) -> (b: bool)
    ensures
        b == legacy_layout(fields@),
{
    let mut any_data = false;
    let n = fields.len();
    for i in 0..n
        invariant
            n == fields@.len(),
            any_data == (exists|k: int| 0 <= k < i && is_data_field(#[trigger] fields@[k])),
            forall|k: int| 0 <= k < i && is_data_field(#[trigger] fields@[k]) ==> fields@[k].parsed_key is Err,
    {
        if !str_eq(fields[i].key.as_str(), "__meta") {
            assert(is_data_field(fields@[i as int]));
            if fields[i].parsed_key.is_ok() {
                return false;
            }
            any_data = true;
        }
    }
    any_data
}

/// Groups the fields of a histogram hash by series, in the layout the hash
/// is written in (see `legacy_layout`).
pub fn group_histogram<V: Copy>(fields: &[HistogramField<V>], format: LabelFormat) -> (r: Result<Vec<HistogramGroup<V>>, ParseError>)
    ensures
        match r {
            Ok(g) => histogram_hash_groups(fields@, format) matches Ok(d) && groups_match(g@, d),
            Err(e) => histogram_hash_groups(fields@, format) == Err::<Seq<GroupView<V>>, ParseFailure>(e@),
        },
{
    if is_legacy_layout(fields) {
        group_legacy_histogram_fields(fields, format)
    } else {
        group_histogram_fields(fields)
    }
}

/// The count kept in a group under bucket key `key` (the last field's, when
/// two fields give the same key).
pub fn bucket_value<V: Copy>(group: &HistogramGroup<V>, key: &str) -> (r: Option<V>)
    ensures
        r == bucket_lookup(buckets_view(group.buckets@), key@),
        match r {
            Some(v) => exists|i: int|
                0 <= i < group.buckets@.len() && (#[trigger] group.buckets@[i]).0@ == key@
                    && group.buckets@[i].1 == v && forall|j: int|
                    i < j < group.buckets@.len() ==> (#[trigger] group.buckets@[j]).0@ != key@,
            None => forall|i: int| 0 <= i < group.buckets@.len() ==> (#[trigger] group.buckets@[i]).0@ != key@,
        },
{
    let ghost b = buckets_view(group.buckets@);
    let mut found: Option<V> = None;
    let n = group.buckets.len();
    assert(b.take(0) =~= Seq::<(Seq<char>, V)>::empty());
    for i in 0..n
        invariant
            n == group.buckets@.len(),
            b == buckets_view(group.buckets@),
            found == bucket_lookup(b.take(i as int), key@),
    {
        assert(b.take(i + 1).drop_last() =~= b.take(i as int));
        assert(b.take(i + 1).last() == b[i as int]);
        if str_eq(group.buckets[i].0.as_str(), key) {
            found = Some(group.buckets[i].1);
        }
    }
    assert(b.take(n as int) =~= b);
    proof {
        lemma_bucket_lookup_exact(b, key@);
        match found {
            Some(v) => {
                let i = choose|i: int|
                    0 <= i < b.len() && #[trigger] b[i] == (key@, v) && forall|j: int| i < j < b.len() ==> (#[trigger] b[j]).0 != key@;
                assert(b[i] == (group.buckets@[i].0@, group.buckets@[i].1));
                assert forall|j: int| i < j < group.buckets@.len() implies (#[trigger] group.buckets@[j]).0@ != key@ by {
                    assert(b[j].0 == group.buckets@[j].0@);
                }
            },
            None => {
                assert forall|i: int| 0 <= i < group.buckets@.len() implies (#[trigger] group.buckets@[i]).0@ != key@ by {
                    assert(b[i].0 == group.buckets@[i].0@);
                }
            },
        }
    }
    found
}

/// The label texts of a group's label values.
pub open spec fn group_label_texts(k: Seq<JsonLabelView>) -> Seq<Seq<char>> {
    Seq::new(k.len(), |i: int| json_label_text(k[i]))
}

/// The labels of a group's series: label names paired with the group's
/// label values, read as label texts.
pub fn group_labels<V>(label_names: &[String], group: &HistogramGroup<V>) -> (l: Labels)
    ensures
        l@ == zipped_labels(strings_view(label_names@), group_label_texts(json_labels_view(group.label_values@))),
{
    let mut texts: Vec<String> = Vec::new();
    let n = group.label_values.len();
    for i in 0..n
        invariant
            n == group.label_values@.len(),
            strings_view(texts@) =~= group_label_texts(json_labels_view(group.label_values@)).take(i as int),
    {
        let t = json_label_string(&group.label_values[i]);
        let ghost before = strings_view(texts@);
        texts.push(t);
        assert(strings_view(texts@) =~= before.push(t@));
    }
    assert(group_label_texts(json_labels_view(group.label_values@)).take(n as int)
        =~= group_label_texts(json_labels_view(group.label_values@)));
    zip_labels(label_names, &texts)
}

} // verus!
