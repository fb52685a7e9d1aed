//! Prometheus text exposition format renderer.

use vstd::prelude::*;
use vstd::string::*;
use super::labels::{Labels, LabelSeq, extend_labels};
use super::types::{metric_type_name, Metric, MetricFamily, Sample};
use crate::text::{chars_of, push_all, push_char, string_of};

verus! {

// ---------------------------------------------------------------------------
// Escaping
// ---------------------------------------------------------------------------

/// How HELP text writes one character: backslash and newline are escaped.
pub open spec fn help_char_text(c: char) -> Seq<char> {
    if c == '\\' {
        seq!['\\', '\\']
    } else if c == '\n' {
        seq!['\\', 'n']
    } else {
        seq![c]
    }
}

/// HELP text with every character escaped.
pub open spec fn escaped_help(s: Seq<char>) -> Seq<char>
    decreases s.len(),
{
    if s.len() == 0 {
        Seq::empty()
    } else {
        escaped_help(s.drop_last()) + help_char_text(s.last())
    }
}

/// How a label value writes one character: backslash, double quote and
/// newline are escaped.
pub open spec fn label_char_text(c: char) -> Seq<char> {
    if c == '\\' {
        seq!['\\', '\\']
    } else if c == '"' {
        seq!['\\', '"']
    } else if c == '\n' {
        seq!['\\', 'n']
    } else {
        seq![c]
    }
}

/// A label value with every character escaped.
pub open spec fn escaped_label_value(s: Seq<char>) -> Seq<char>
    decreases s.len(),
{
    if s.len() == 0 {
        Seq::empty()
    } else {
        escaped_label_value(s.drop_last()) + label_char_text(s.last())
    }
}

/// Appends the escaped form of `chars` to `out`; `label` selects label-value
/// escaping, otherwise HELP escaping.
fn push_escaped(out: &mut Vec<char>, chars: &Vec<char>, label: bool)
    ensures
        final(out)@ == old(out)@ + (if label {
            escaped_label_value(chars@)
        } else {
            escaped_help(chars@)
        }),
{
    let ghost start = out@;
    let n = chars.len();
    for i in 0..n
        invariant
            n == chars@.len(),
            out@ == start + (if label {
                escaped_label_value(chars@.take(i as int))
            } else {
                escaped_help(chars@.take(i as int))
            }),
    {
        let c = chars[i];
        assert(chars@.take(i + 1).drop_last() =~= chars@.take(i as int));
        if c == '\\' {
            out.push('\\');
            out.push('\\');
        } else if c == '\n' {
            out.push('\\');
            out.push('n');
        } else if label && c == '"' {
            out.push('\\');
            out.push('"');
        } else {
            out.push(c);
        }
        assert(out@ =~= start + (if label {
            escaped_label_value(chars@.take(i + 1))
        } else {
            escaped_help(chars@.take(i + 1))
        }));
    }
    assert(chars@.take(n as int) =~= chars@);
}

/// Escapes HELP text: `\` becomes `\\` and a newline becomes `\n`.
pub fn escape_help(help: &str) -> (r: String)
    ensures
        r@ == escaped_help(help@),
{
    let chars = chars_of(help);
    let mut out: Vec<char> = Vec::new();
    push_escaped(&mut out, &chars, false);
    string_of(&out)
}

/// Escapes a label value: `\` becomes `\\`, `"` becomes `\"` and a newline
/// becomes `\n`.
pub fn escape_label_value(value: &str) -> (r: String)
    ensures
        r@ == escaped_label_value(value@),
{
    let chars = chars_of(value);
    let mut out: Vec<char> = Vec::new();
    push_escaped(&mut out, &chars, true);
    string_of(&out)
}

// ---------------------------------------------------------------------------
// Label sets
// ---------------------------------------------------------------------------

/// The order of `String`: character by character by code point, and a proper
/// prefix before the longer text. `text_less(a, b)` is the strict order.
pub open spec fn text_less(a: Seq<char>, b: Seq<char>) -> bool
    decreases a.len(),
{
    if b.len() == 0 {
        false
    } else if a.len() == 0 {
        true
    } else if a[0] != b[0] {
        (a[0] as u32) < (b[0] as u32)
    } else {
        text_less(a.drop_first(), b.drop_first())
    }
}

/// Where `x` goes in `s`: before the first element that `x` sorts before.
pub open spec fn insert_pos(s: Seq<Seq<char>>, x: Seq<char>) -> int
    decreases s.len(),
{
    if s.len() == 0 {
        0
    } else if text_less(x, s[0]) {
        0
    } else {
        1 + insert_pos(s.drop_first(), x)
    }
}

/// `s` with `x` inserted in order.
pub open spec fn sorted_insert(s: Seq<Seq<char>>, x: Seq<char>) -> Seq<Seq<char>> {
    s.insert(insert_pos(s, x), x)
}

/// The texts of `s` in ascending order (insertion sort).
pub open spec fn sort_texts(s: Seq<Seq<char>>) -> Seq<Seq<char>>
    decreases s.len(),
{
    if s.len() == 0 {
        s
    } else {
        sorted_insert(sort_texts(s.drop_last()), s.last())
    }
}

/// The texts of `s` with `sep` between neighbours.
pub open spec fn join_texts(s: Seq<Seq<char>>, sep: char) -> Seq<char>
    decreases s.len(),
{
    if s.len() == 0 {
        Seq::empty()
    } else if s.len() == 1 {
        s[0]
    } else {
        join_texts(s.drop_last(), sep) + seq![sep] + s.last()
    }
}

/// Joining writes the texts in order: the first text, then for each later
/// text the separator followed by that text.
pub proof fn lemma_join_texts_in_order(s: Seq<Seq<char>>, sep: char)
    requires
        s.len() > 0,
    ensures
        join_texts(s, sep) == s[0] + Seq::new((s.len() - 1) as nat, |i: int| seq![sep] + s[i + 1]).flatten(),
    decreases s.len(),
{
    let tail = Seq::new((s.len() - 1) as nat, |i: int| seq![sep] + s[i + 1]);
    if s.len() == 1 {
        assert(tail =~= Seq::<Seq<char>>::empty());
        assert(s[0] + Seq::<char>::empty() =~= s[0]);
    } else {
        let u = s.drop_last();
        lemma_join_texts_in_order(u, sep);
        let tu = Seq::new((u.len() - 1) as nat, |i: int| seq![sep] + u[i + 1]);
        assert(tail =~= tu.push(seq![sep] + s.last()));
        tu.lemma_flatten_push(seq![sep] + s.last());
        assert(u[0] == s[0]);
        assert(join_texts(s, sep) =~= s[0] + tail.flatten());
    }
}

/// One label as the exposition format writes it: `name="escaped value"`.
pub open spec fn pair_text(p: (Seq<char>, Seq<char>)) -> Seq<char> {
    p.0 + seq!['=', '"'] + escaped_label_value(p.1) + seq!['"']
}

/// The written form of every label, in the set's order.
pub open spec fn pair_texts(s: LabelSeq) -> Seq<Seq<char>> {
    Seq::new(s.len(), |i: int| pair_text(s[i]))
}

/// A label set as the exposition format writes it: the labels' texts sorted
/// and separated by commas (empty for an empty set).
pub open spec fn labels_text(s: LabelSeq) -> Seq<char> {
    join_texts(sort_texts(pair_texts(s)), ',')
}

/// The character sequences of a vector of character vectors.
pub open spec fn texts_view(v: Seq<Vec<char>>) -> Seq<Seq<char>> {
    Seq::new(v.len(), |i: int| v[i]@)
}

proof fn lemma_insert_pos(s: Seq<Seq<char>>, x: Seq<char>, p: int)
    requires
        0 <= p <= s.len(),
        forall|k: int| 0 <= k < p ==> !text_less(x, #[trigger] s[k]),
        p == s.len() || text_less(x, s[p]),
    ensures
        insert_pos(s, x) == p,
    decreases s.len(),
{
    if p > 0 {
        assert(!text_less(x, s[0]));
        let t = s.drop_first();
        assert forall|k: int| 0 <= k < p - 1 implies !text_less(x, #[trigger] t[k]) by {
            assert(t[k] == s[k + 1]);
        }
        if p < s.len() {
            assert(t[p - 1] == s[p]);
        }
        lemma_insert_pos(t, x, p - 1);
    }
}

/// Whether `a` sorts strictly before `b`.
fn less_than(a: &Vec<char>, b: &Vec<char>) -> (r: bool)
    ensures
        r == text_less(a@, b@),
{
    let mut i: usize = 0;
    assert(a@.skip(0) =~= a@);
    assert(b@.skip(0) =~= b@);
    while i < a.len() && i < b.len()
        invariant
            i <= a@.len(),
            i <= b@.len(),
            text_less(a@, b@) == text_less(a@.skip(i as int), b@.skip(i as int)),
        decreases a@.len() - i,
    {
        assert(a@.skip(i as int)[0] == a@[i as int]);
        assert(b@.skip(i as int)[0] == b@[i as int]);
        if a[i] != b[i] {
            return (a[i] as u32) < (b[i] as u32);
        }
        assert(a@.skip(i as int).drop_first() =~= a@.skip(i + 1));
        assert(b@.skip(i as int).drop_first() =~= b@.skip(i + 1));
        i = i + 1;
    }
    i < b.len()
}

/// Inserts `x` into the sorted vector `sorted` at its place.
fn insert_sorted(sorted: &mut Vec<Vec<char>>, x: Vec<char>)
    ensures
        texts_view(final(sorted)@) == sorted_insert(texts_view(old(sorted)@), x@),
{
    let ghost s = texts_view(sorted@);
    let mut p: usize = 0;
    while p < sorted.len() && !less_than(&x, &sorted[p])
        invariant
            p <= sorted@.len(),
            s == texts_view(sorted@),
            forall|k: int| 0 <= k < p ==> !text_less(x@, #[trigger] s[k]),
        decreases sorted@.len() - p,
    {
        p = p + 1;
    }
    proof {
        lemma_insert_pos(s, x@, p as int);
    }
    let ghost xv = x@;
    sorted.insert(p, x);
    assert(texts_view(sorted@) =~= s.insert(p as int, xv));
}

/// Appends the written form of one label to `out`.
fn push_pair_text(out: &mut Vec<char>, name: &String, value: &String)
    ensures
        final(out)@ == old(out)@ + pair_text((name@, value@)),
{
    let name_chars = chars_of(name.as_str());
    let value_chars = chars_of(value.as_str());
    push_all(out, &name_chars);
    out.push('=');
    out.push('"');
    push_escaped(out, &value_chars, true);
    out.push('"');
    assert(out@ =~= old(out)@ + pair_text((name@, value@)));
}

/// Formats labels as `k="v",k="v"`, sorted so that the output is deterministic.
pub fn format_labels(labels: &Labels) -> (r: String)
    ensures
        r@ == labels_text(labels@),
{
    let n = labels.len();
    let mut sorted: Vec<Vec<char>> = Vec::new();
    for i in 0..n
        invariant
            n == labels@.len(),
            texts_view(sorted@) == sort_texts(pair_texts(labels@).take(i as int)),
    {
        let (name, value) = labels.entry(i);
        let mut text: Vec<char> = Vec::new();
        push_pair_text(&mut text, name, value);
        assert(text@ =~= pair_texts(labels@)[i as int]);
        insert_sorted(&mut sorted, text);
        assert(pair_texts(labels@).take(i + 1).drop_last() =~= pair_texts(labels@).take(i as int));
    }
    assert(pair_texts(labels@).take(n as int) =~= pair_texts(labels@));
    let ghost st = texts_view(sorted@);
    let mut out: Vec<char> = Vec::new();
    let m = sorted.len();
    for j in 0..m
        invariant
            m == sorted@.len(),
            st == texts_view(sorted@),
            out@ == join_texts(st.take(j as int), ','),
    {
        if j > 0 {
            out.push(',');
        }
        push_all(&mut out, &sorted[j]);
        assert(st.take(j + 1).drop_last() =~= st.take(j as int));
        assert(st.take(j + 1).last() == sorted@[j as int]@);
        assert(out@ =~= join_texts(st.take(j + 1), ','));
    }
    assert(st.take(m as int) =~= st);
    string_of(&out)
}

// ---------------------------------------------------------------------------
// Exposition text
// ---------------------------------------------------------------------------

/// A metric name with the sample's suffix, if any, appended.
pub open spec fn suffixed_name(name: Seq<char>, suffix: Option<String>) -> Seq<char> {
    match suffix {
        Some(x) => name + x@,
        None => name,
    }
}

/// The line of one sample. Its labels are the family's extra labels with the
/// sample's own labels inserted over them; without labels no braces are written.
pub open spec fn sample_text(name: Seq<char>, extra: LabelSeq, s: Sample<String>) -> Seq<char> {
    let full = suffixed_name(name, s.suffix);
    let lt = labels_text(extend_labels(extra, s.labels@));
    if lt.len() == 0 {
        full + seq![' '] + s.value@ + seq!['\n']
    } else {
        full + seq!['{'] + lt + seq!['}', ' '] + s.value@ + seq!['\n']
    }
}

/// The lines of a sequence of samples.
pub open spec fn samples_text(name: Seq<char>, extra: LabelSeq, ss: Seq<Sample<String>>) -> Seq<char>
    decreases ss.len(),
{
    if ss.len() == 0 {
        Seq::empty()
    } else {
        samples_text(name, extra, ss.drop_last()) + sample_text(name, extra, ss.last())
    }
}

/// The HELP and TYPE lines of a metric.
pub open spec fn header_text(m: Metric<String>) -> Seq<char> {
    "# HELP "@ + m.name@ + seq![' '] + escaped_help(m.help@) + seq!['\n'] + "# TYPE "@ + m.name@
        + seq![' '] + metric_type_name(m.metric_type) + seq!['\n']
}

/// The text of one metric, given the names already written: HELP and TYPE
/// come only for a name not seen before, then the sample lines.
pub open spec fn metric_text(extra: LabelSeq, m: Metric<String>, seen: Set<Seq<char>>) -> Seq<char> {
    (if seen.contains(m.name@) {
        Seq::empty()
    } else {
        header_text(m)
    }) + samples_text(m.name@, extra, m.samples@)
}

/// The text of a family's metrics and the set of names seen afterwards.
pub open spec fn family_render(extra: LabelSeq, ms: Seq<Metric<String>>, seen: Set<Seq<char>>) -> (
    Seq<char>,
    Set<Seq<char>>,
)
    decreases ms.len(),
{
    if ms.len() == 0 {
        (Seq::empty(), seen)
    } else {
        let (o, s) = family_render(extra, ms.drop_last(), seen);
        (o + metric_text(extra, ms.last(), s), s.insert(ms.last().name@))
    }
}

/// The text of all families and the set of metric names written.
pub open spec fn families_render(fs: Seq<MetricFamily<String>>) -> (Seq<char>, Set<Seq<char>>)
    decreases fs.len(),
{
    if fs.len() == 0 {
        (Seq::empty(), Set::empty())
    } else {
        let (o, s) = families_render(fs.drop_last());
        let (o2, s2) = family_render(fs.last().extra_labels@, fs.last().metrics@, s);
        (o + o2, s2)
    }
}

/// The exposition text of a list of families.
pub open spec fn exposition_text(fs: Seq<MetricFamily<String>>) -> Seq<char> {
    families_render(fs).0
}

/// The lines of a metric's samples are the lines of each sample, in sample
/// order.
pub proof fn lemma_samples_text_in_order(name: Seq<char>, extra: LabelSeq, ss: Seq<Sample<String>>)
    ensures
        samples_text(name, extra, ss) == Seq::new(ss.len(), |i: int| sample_text(name, extra, ss[i])).flatten(),
    decreases ss.len(),
{
    let lines = Seq::new(ss.len(), |i: int| sample_text(name, extra, ss[i]));
    if ss.len() == 0 {
        assert(lines =~= Seq::<Seq<char>>::empty());
    } else {
        let u = ss.drop_last();
        lemma_samples_text_in_order(name, extra, u);
        let lu = Seq::new(u.len(), |i: int| sample_text(name, extra, u[i]));
        assert(lines =~= lu.push(sample_text(name, extra, ss.last())));
        lu.lemma_flatten_push(sample_text(name, extra, ss.last()));
    }
}

/// Appending samples appends their lines: the lines of `ss + tt` are those
/// of `ss` followed by those of `tt`.
pub proof fn lemma_samples_text_append(name: Seq<char>, extra: LabelSeq, ss: Seq<Sample<String>>, tt: Seq<Sample<String>>)
    ensures
        samples_text(name, extra, ss + tt) == samples_text(name, extra, ss) + samples_text(name, extra, tt),
    decreases tt.len(),
{
    if tt.len() == 0 {
        assert(ss + tt =~= ss);
        assert(samples_text(name, extra, ss) + Seq::<char>::empty() =~= samples_text(name, extra, ss));
    } else {
        lemma_samples_text_append(name, extra, ss, tt.drop_last());
        assert((ss + tt).drop_last() =~= ss + tt.drop_last());
        assert((ss + tt).last() == tt.last());
    }
}

/// A family's metrics are written in order: adding a metric at the end adds
/// its text (header only if its name was not seen) after the text of the
/// others, and records its name as seen.
pub proof fn lemma_family_render_push(extra: LabelSeq, ms: Seq<Metric<String>>, m: Metric<String>, seen: Set<Seq<char>>)
    ensures
        family_render(extra, ms.push(m), seen) == ({
            let (o, s) = family_render(extra, ms, seen);
            (o + metric_text(extra, m, s), s.insert(m.name@))
        }),
{
    assert(ms.push(m).drop_last() =~= ms);
}

/// Families are written in order: adding a family at the end adds its text
/// after the text of the others.
pub proof fn lemma_families_render_push(fs: Seq<MetricFamily<String>>, f: MetricFamily<String>)
    ensures
        families_render(fs.push(f)) == ({
            let (o, s) = families_render(fs);
            let (o2, s2) = family_render(f.extra_labels@, f.metrics@, s);
            (o + o2, s2)
        }),
{
    assert(fs.push(f).drop_last() =~= fs);
}

/// Escaping HELP text works character by character, in order: the escape of
/// `a + b` is the escape of `a` followed by that of `b`.
pub proof fn lemma_escaped_help_append(a: Seq<char>, b: Seq<char>)
    ensures
        escaped_help(a + b) == escaped_help(a) + escaped_help(b),
    decreases b.len(),
{
    if b.len() == 0 {
        assert(a + b =~= a);
        assert(escaped_help(a) + Seq::<char>::empty() =~= escaped_help(a));
    } else {
        lemma_escaped_help_append(a, b.drop_last());
        assert((a + b).drop_last() =~= a + b.drop_last());
        assert((a + b).last() == b.last());
    }
}

/// A single character escapes as its own escape: `\\` for a backslash, `\n`
/// for a newline, `\"` for a double quote in label values, itself otherwise.
pub proof fn lemma_escape_one_char(c: char)
    ensures
        escaped_help(seq![c]) == (if c == '\\' {
            seq!['\\', '\\']
        } else if c == '\n' {
            seq!['\\', 'n']
        } else {
            seq![c]
        }),
        escaped_label_value(seq![c]) == (if c == '\\' {
            seq!['\\', '\\']
        } else if c == '"' {
            seq!['\\', '"']
        } else if c == '\n' {
            seq!['\\', 'n']
        } else {
            seq![c]
        }),
{
    let one = seq![c];
    assert(one.drop_last() =~= Seq::<char>::empty());
    assert(one.last() == c);
    assert(escaped_help(one.drop_last()) == Seq::<char>::empty());
    assert(escaped_label_value(one.drop_last()) == Seq::<char>::empty());
    assert(escaped_help(one) =~= help_char_text(c));
    assert(escaped_label_value(one) =~= label_char_text(c));
}

/// Escaping a label value works character by character, in order: the escape
/// of `a + b` is the escape of `a` followed by that of `b`.
pub proof fn lemma_escaped_label_value_append(a: Seq<char>, b: Seq<char>)
    ensures
        escaped_label_value(a + b) == escaped_label_value(a) + escaped_label_value(b),
    decreases b.len(),
{
    if b.len() == 0 {
        assert(a + b =~= a);
        assert(escaped_label_value(a) + Seq::<char>::empty() =~= escaped_label_value(a));
    } else {
        lemma_escaped_label_value_append(a, b.drop_last());
        assert((a + b).drop_last() =~= a + b.drop_last());
        assert((a + b).last() == b.last());
    }
}

/// The set of names held in a vector of strings.
pub open spec fn name_set(v: Seq<String>) -> Set<Seq<char>> {
    Set::new(|x: Seq<char>| exists|i: int| 0 <= i < v.len() && v[i]@ == x)
}

fn seen_contains(seen: &Vec<String>, name: &String) -> (r: bool)
    ensures
        r == name_set(seen@).contains(name@),
{
    let n = seen.len();
    for i in 0..n
        invariant
            n == seen@.len(),
            forall|j: int| 0 <= j < i ==> seen@[j]@ != name@,
    {
        if seen[i] == *name {
            assert(seen@[i as int]@ == name@);
            return true;
        }
    }
    false
}

fn render_sample(out: &mut String, name: &String, extra: &Labels, sample: &Sample<String>)
    ensures
        final(out)@ == old(out)@ + sample_text(name@, extra@, *sample),
{
    let mut all_labels = extra.duplicate();
    all_labels.extend(&sample.labels);
    let labels_str = format_labels(&all_labels);
    out.append(name.as_str());
    match &sample.suffix {
        Some(suffix) => out.append(suffix.as_str()),
        None => {},
    }
    if labels_str.as_str().is_empty() {
        push_char(out, ' ');
    } else {
        push_char(out, '{');
        out.append(labels_str.as_str());
        push_char(out, '}');
        push_char(out, ' ');
    }
    out.append(sample.value.as_str());
    push_char(out, '\n');
    assert(out@ =~= old(out)@ + sample_text(name@, extra@, *sample));
}

fn render_metric(out: &mut String, seen: &mut Vec<String>, extra: &Labels, metric: &Metric<String>)
    ensures
        final(out)@ == old(out)@ + metric_text(extra@, *metric, name_set(old(seen)@)),
        name_set(final(seen)@) == name_set(old(seen)@).insert(metric.name@),
{
    let ghost start = out@;
    let full_name = &metric.name;
    if !seen_contains(seen, full_name) {
        out.append("# HELP ");
        out.append(full_name.as_str());
        push_char(out, ' ');
        let help = escape_help(metric.help.as_str());
        out.append(help.as_str());
        push_char(out, '\n');
        out.append("# TYPE ");
        out.append(full_name.as_str());
        push_char(out, ' ');
        out.append(metric.metric_type.as_str());
        push_char(out, '\n');
        seen.push(full_name.clone());
        assert(out@ =~= start + header_text(*metric));
    } else {
        assert(out@ =~= start + Seq::<char>::empty());
    }
    assert(name_set(seen@) =~= name_set(old(seen)@).insert(metric.name@)) by {
        assert forall|x: Seq<char>| name_set(old(seen)@).insert(metric.name@).contains(x) implies name_set(seen@).contains(x) by {
            if x == metric.name@ {
                if !name_set(old(seen)@).contains(x) {
                    assert(seen@[seen@.len() - 1]@ == x);
                }
            } else {
                let i = choose|i: int| 0 <= i < old(seen)@.len() && old(seen)@[i]@ == x;
                assert(seen@[i]@ == x);
            }
        }
    }
    let ghost mid = out@;
    let n = metric.samples.len();
    for k in 0..n
        invariant
            n == metric.samples@.len(),
            full_name@ == metric.name@,
            out@ == mid + samples_text(metric.name@, extra@, metric.samples@.take(k as int)),
    {
        let ghost before = out@;
        let sample = &metric.samples[k];
        assert(*sample == metric.samples@[k as int]);
        render_sample(out, full_name, extra, sample);
        assert(out@ == before + sample_text(metric.name@, extra@, metric.samples@[k as int]));
        assert(metric.samples@.take(k + 1).drop_last() =~= metric.samples@.take(k as int));
        assert(metric.samples@.take(k + 1).last() == metric.samples@[k as int]);
        assert(samples_text(metric.name@, extra@, metric.samples@.take(k + 1)) == samples_text(
            metric.name@,
            extra@,
            metric.samples@.take(k as int),
        ) + sample_text(metric.name@, extra@, metric.samples@[k as int]));
        assert(out@ =~= mid + samples_text(metric.name@, extra@, metric.samples@.take(k + 1)));
    }
    assert(metric.samples@.take(n as int) =~= metric.samples@);
}

fn render_family(out: &mut String, seen: &mut Vec<String>, family: &MetricFamily<String>)
    ensures
        (final(out)@, name_set(final(seen)@)) == ({
            let (o, s) = family_render(family.extra_labels@, family.metrics@, name_set(old(seen)@));
            (old(out)@ + o, s)
        }),
{
    let ghost start = out@;
    let ghost seen0 = name_set(seen@);
    let n = family.metrics.len();
    for j in 0..n
        invariant
            n == family.metrics@.len(),
            (out@, name_set(seen@)) == ({
                let (o, s) = family_render(family.extra_labels@, family.metrics@.take(j as int), seen0);
                (start + o, s)
            }),
    {
        render_metric(out, seen, &family.extra_labels, &family.metrics[j]);
        assert(family.metrics@.take(j + 1).drop_last() =~= family.metrics@.take(j as int));
        let ghost (o, s) = family_render(family.extra_labels@, family.metrics@.take(j as int), seen0);
        assert(out@ =~= start + (o + metric_text(family.extra_labels@, family.metrics@[j as int], s)));
    }
    assert(family.metrics@.take(n as int) =~= family.metrics@);
}

/// Renders families to the Prometheus text exposition format.
///
/// HELP and TYPE are written once per metric name, at its first metric;
/// every sample gives one line.
pub fn render_metrics(families: &[MetricFamily<String>]) -> (r: String)
    ensures
        r@ == exposition_text(families@),
{
    let mut out = String::new();
    let mut seen: Vec<String> = Vec::new();
    assert(name_set(seen@) =~= Set::<Seq<char>>::empty());
    let n = families.len();
    for i in 0..n
        invariant
            n == families@.len(),
            (out@, name_set(seen@)) == families_render(families@.take(i as int)),
    {
        render_family(&mut out, &mut seen, &families[i]);
        assert(families@.take(i + 1).drop_last() =~= families@.take(i as int));
        let ghost (o, s) = families_render(families@.take(i as int));
        let ghost (o2, s2) = family_render(families@[i as int].extra_labels@, families@[i as int].metrics@, s);
        assert(out@ =~= o + o2);
    }
    assert(families@.take(n as int) =~= families@);
    out
}

} // verus!
