//! The steps of reading a source's metrics from promphp's Redis keys.
//!
//! promphp keeps, for each metric type, a set `{prefix}{type}_METRIC_KEYS`
//! of hash keys, and one hash per metric. Reading a source alternates Redis
//! reads with decisions; the decisions are made here, by a `Collector`, and
//! the caller performs each read that `next_action` asks for and hands the
//! outcome back.

use vstd::prelude::*;
use vstd::string::*;
use crate::metrics::labels::Labels;
use crate::metrics::parser::ParseError;
use crate::metrics::types::{Metric, MetricFamily};
use crate::text::{concat, strings_view};
use super::SourceError;

verus! {

/// Number of metric types that promphp keeps key sets for.
pub const METRIC_TYPE_COUNT: usize = 4;

/// The name of the `i`-th metric type, in the order they are read.
pub open spec fn type_key(i: int) -> Seq<char> {
    if i == 0 {
        "counter"@
    } else if i == 1 {
        "gauge"@
    } else if i == 2 {
        "histogram"@
    } else {
        "summary"@
    }
}

/// The name of the set that lists the hash keys of metric type `i`.
pub open spec fn key_set_name(prefix: Seq<char>, i: int) -> Seq<char> {
    prefix + type_key(i) + "_METRIC_KEYS"@
}

/// The name of the `i`-th metric type.
pub fn metric_type_key(i: usize) -> (s: &'static str)
    requires
        i < METRIC_TYPE_COUNT,
    ensures
        s@ == type_key(i as int),
{
    if i == 0 {
        "counter"
    } else if i == 1 {
        "gauge"
    } else if i == 2 {
        "histogram"
    } else {
        "summary"
    }
}

/// The set key listing the metrics of one type: `{prefix}{type}_METRIC_KEYS`.
pub fn metric_keys_set(prefix: &str, metric_type: &str) -> (s: String)
    ensures
        s@ == prefix@ + metric_type@ + "_METRIC_KEYS"@,
{
    let mut s = concat(prefix, metric_type);
    s.append("_METRIC_KEYS");
    s
}

/// The Redis read that the collector needs next.
#[derive(Debug)]
pub enum CollectAction {
    /// Read the members of this set (SMEMBERS).
    ReadKeySet(String),
    /// Read all fields of this hash (HGETALL).
    ReadHash(String),
    /// Nothing more to read.
    Finish,
}

/// What became of one metric hash: `None` for an empty hash, otherwise the
/// result of parsing it.
pub type HashOutcome<V> = Option<Result<Metric<V>, ParseError>>;

/// The state of reading one source.
pub struct Collector<V> {
    prefix: String,
    type_index: usize,
    keys: Vec<String>,
    next_key: usize,
    family: MetricFamily<V>,
    error: Option<SourceError>,
}

impl<V> Collector<V> {
    #[verifier::type_invariant]
    spec fn state_ok(self) -> bool {
        &&& self.type_index <= METRIC_TYPE_COUNT
        &&& self.next_key <= self.keys@.len()
    }

    /// The key prefix.
    pub closed spec fn prefix(&self) -> Seq<char> {
        self.prefix@
    }

    /// How many metric types' key sets have been read.
    pub closed spec fn types_read(&self) -> nat {
        self.type_index as nat
    }

    /// Hash keys listed but not yet read, in order.
    pub closed spec fn pending(&self) -> Seq<Seq<char>> {
        strings_view(self.keys@).skip(self.next_key as int)
    }

    /// The family collected so far.
    pub closed spec fn family(&self) -> MetricFamily<V> {
        self.family
    }

    /// The error of the read that failed, if one has.
    pub closed spec fn failure(&self) -> Option<SourceError> {
        self.error
    }

    /// Whether a read has failed.
    pub open spec fn failed(&self) -> bool {
        self.failure() is Some
    }

    /// The collected metrics so far.
    pub open spec fn metrics(&self) -> Seq<Metric<V>> {
        self.family().metrics@
    }

    /// Starts reading source `name`, whose keys start with `prefix`; its
    /// family carries the source's extra labels.
    pub fn new(name: &str, prefix: &str, extra_labels: Labels) -> (c: Self)
        ensures
            c.prefix() == prefix@,
            c.types_read() == 0,
            c.pending().len() == 0,
            !c.failed(),
            c.family().source@ == name@,
            c.family().extra_labels@ == extra_labels@,
            c.metrics().len() == 0,
    {
        let c = Collector {
            prefix: String::from_str(prefix),
            type_index: 0,
            keys: Vec::new(),
            next_key: 0,
            family: MetricFamily::new(name).with_labels(extra_labels),
            error: None,
        };
        assert(strings_view(c.keys@).skip(0).len() == 0);
        c
    }

    /// The next read: after a failure nothing; otherwise the next listed hash,
    /// or else the key set of the next metric type, or else nothing.
    pub fn next_action(&self) -> (a: CollectAction)
        ensures
            self.failed() ==> a is Finish,
            !self.failed() && self.pending().len() > 0 ==> (a matches CollectAction::ReadHash(k)
                && k@ == self.pending()[0]),
            !self.failed() && self.pending().len() == 0 && self.types_read() < METRIC_TYPE_COUNT ==> (
            a matches CollectAction::ReadKeySet(k) && k@ == key_set_name(
                self.prefix(),
                self.types_read() as int,
            )),
            !self.failed() && self.pending().len() == 0 && self.types_read() == METRIC_TYPE_COUNT
                ==> a is Finish,
    {
        proof {
            use_type_invariant(self);
        }
        if self.error.is_some() {
            return CollectAction::Finish;
        }
        if self.next_key < self.keys.len() {
            assert(strings_view(self.keys@).skip(self.next_key as int)[0] == self.keys@[self.next_key as int]@);
            return CollectAction::ReadHash(self.keys[self.next_key].clone());
        }
        assert(strings_view(self.keys@).skip(self.next_key as int).len() == 0);
        if self.type_index < METRIC_TYPE_COUNT {
            CollectAction::ReadKeySet(metric_keys_set(self.prefix.as_str(), metric_type_key(self.type_index)))
        } else {
            CollectAction::Finish
        }
    }

    /// Takes the members of the key set that `next_action` asked for; a
    /// failed read fails the collection.
    pub fn on_key_set(&mut self, result: Result<Vec<String>, SourceError>)
        requires
            !old(self).failed(),
            old(self).pending().len() == 0,
            old(self).types_read() < METRIC_TYPE_COUNT,
        ensures
            final(self).prefix() == old(self).prefix(),
            final(self).family() == old(self).family(),
            match result {
                Ok(keys) => !final(self).failed() && final(self).types_read() == old(self).types_read() + 1
                    && final(self).pending() == strings_view(keys@),
                Err(e) => final(self).failure() == Some(e) && final(self).types_read() == old(self).types_read()
                    && final(self).pending() == old(self).pending(),
            },
    {
        proof {
            use_type_invariant(&*self);
        }
        match result {
            Ok(keys) => {
                self.next_key = 0;
                self.keys = keys;
                self.type_index = self.type_index + 1;
                assert(strings_view(self.keys@).skip(0) =~= strings_view(self.keys@));
            },
            Err(e) => {
                self.error = Some(e);
            },
        }
    }

    /// Takes the outcome of reading the hash that `next_action` asked for:
    /// a parsed metric joins the family; an empty hash or one that does not
    /// parse is passed over; a failed read fails the collection.
    pub fn on_hash(&mut self, result: Result<HashOutcome<V>, SourceError>)
        requires
            !old(self).failed(),
            old(self).pending().len() > 0,
        ensures
            final(self).prefix() == old(self).prefix(),
            final(self).types_read() == old(self).types_read(),
            final(self).family().source == old(self).family().source,
            final(self).family().extra_labels@ == old(self).family().extra_labels@,
            match result {
                Ok(Some(Ok(m))) => !final(self).failed() && final(self).metrics() == old(self).metrics().push(m)
                    && final(self).pending() == old(self).pending().drop_first(),
                Ok(_) => !final(self).failed() && final(self).metrics() == old(self).metrics()
                    && final(self).pending() == old(self).pending().drop_first(),
                Err(e) => final(self).failure() == Some(e) && final(self).metrics() == old(self).metrics()
                    && final(self).pending() == old(self).pending(),
            },
    {
        proof {
            use_type_invariant(&*self);
        }
        let ghost before = strings_view(self.keys@).skip(self.next_key as int);
        assert(strings_view(self.keys@).len() == self.keys@.len());
        let key_count = self.keys.len();
        assert(self.next_key < key_count);
        match result {
            Ok(outcome) => {
                match outcome {
                    Some(Ok(metric)) => {
                        let mut family: MetricFamily<V> = MetricFamily::default();
                        std::mem::swap(&mut family, &mut self.family);
                        family.add_metric(metric);
                        self.family = family;
                    },
                    _ => {},
                }
                self.next_key = self.next_key + 1;
                assert(strings_view(self.keys@).skip(self.next_key as int) =~= before.drop_first());
            },
            Err(e) => {
                self.error = Some(e);
            },
        }
    }

    /// The collected family, or the error of the read that failed.
    pub fn finish(self) -> (r: Result<MetricFamily<V>, SourceError>)
        ensures
            match r {
                Ok(f) => !self.failed() && f == self.family(),
                Err(e) => self.failure() == Some(e),
            },
    {
        match self.error {
            Some(e) => Err(e),
            None => Ok(self.family),
        }
    }
}

} // verus!
