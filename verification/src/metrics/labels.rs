//! Label sets: name/value pairs in which every name occurs once.

use vstd::prelude::*;
use vstd::string::*;
use crate::text::str_eq;

verus! {

/// The abstract content of a label set: its pairs in insertion order.
pub type LabelSeq = Seq<(Seq<char>, Seq<char>)>;

/// No label name occurs twice.
pub open spec fn distinct_names(s: LabelSeq) -> bool {
    forall|i: int, j: int| 0 <= i < j < s.len() ==> s[i].0 != s[j].0
}

/// Index of the pair named `k`, or -1 when there is none.
pub open spec fn name_index(s: LabelSeq, k: Seq<char>) -> int
    decreases s.len(),
{
    if s.len() == 0 {
        -1
    } else if s.last().0 == k {
        s.len() - 1
    } else {
        name_index(s.drop_last(), k)
    }
}

/// The value stored under `k`.
pub open spec fn lookup(s: LabelSeq, k: Seq<char>) -> Option<Seq<char>> {
    let i = name_index(s, k);
    if i >= 0 {
        Some(s[i].1)
    } else {
        None
    }
}

/// Inserting `k = v`: a present name gets its value replaced in place,
/// a new name is appended.
pub open spec fn insert_label(s: LabelSeq, k: Seq<char>, v: Seq<char>) -> LabelSeq {
    let i = name_index(s, k);
    if i >= 0 {
        s.update(i, (k, v))
    } else {
        s.push((k, v))
    }
}

/// Inserting every pair of `t`, in order, into `s`.
pub open spec fn extend_labels(s: LabelSeq, t: LabelSeq) -> LabelSeq
    decreases t.len(),
{
    if t.len() == 0 {
        s
    } else {
        insert_label(extend_labels(s, t.drop_last()), t.last().0, t.last().1)
    }
}

/// `name_index` finds exactly the pairs named `k`.
pub proof fn lemma_name_index(s: LabelSeq, k: Seq<char>)
    ensures
        -1 <= name_index(s, k) < s.len(),
        name_index(s, k) >= 0 ==> s[name_index(s, k)].0 == k,
        name_index(s, k) == -1 ==> forall|j: int| 0 <= j < s.len() ==> s[j].0 != k,
        distinct_names(s) ==> forall|j: int|
            0 <= j < s.len() && s[j].0 == k ==> j == name_index(s, k),
    decreases s.len(),
{
    if s.len() > 0 {
        lemma_name_index(s.drop_last(), k);
        assert forall|j: int| 0 <= j < s.len() - 1 implies s.drop_last()[j] == s[j] by {}
    }
}

/// Inserting keeps the names distinct, and afterwards `k` maps to `v`
/// while every other name keeps its value.
pub proof fn lemma_insert_label(s: LabelSeq, k: Seq<char>, v: Seq<char>)
    requires
        distinct_names(s),
    ensures
        distinct_names(insert_label(s, k, v)),
        lookup(insert_label(s, k, v), k) == Some(v),
        forall|k2: Seq<char>| k2 != k ==> lookup(insert_label(s, k, v), k2) == lookup(s, k2),
{
    let t = insert_label(s, k, v);
    lemma_name_index(s, k);
    if name_index(s, k) < 0 {
        assert(t[s.len() as int].0 == k);
    }
    assert(distinct_names(t));
    lemma_name_index(t, k);
    if name_index(s, k) >= 0 {
        let j = name_index(s, k);
        assert(t[j].0 == k);
        assert(name_index(t, k) == j);
    } else {
        assert(t[s.len() as int].0 == k);
        assert(name_index(t, k) == s.len());
    }
    assert forall|k2: Seq<char>| k2 != k implies lookup(t, k2) == lookup(s, k2) by {
        lemma_name_index(s, k2);
        lemma_name_index(t, k2);
        if name_index(s, k2) >= 0 {
            assert(t[name_index(s, k2)].0 == k2);
        }
    }
    if name_index(s, k) < 0 {
        assert(t[s.len() as int].0 == k);
    }
}

/// Extending `s` with `t` keeps the names distinct; afterwards a name that `t`
/// holds has `t`'s value (the later one, if `t` holds it twice), and every
/// other name keeps its value in `s`. This is how a sample's own labels win
/// over the extra labels of its family when the sample is written.
pub proof fn lemma_extend_lookup(s: LabelSeq, t: LabelSeq, k: Seq<char>)
    requires
        distinct_names(s),
    ensures
        distinct_names(extend_labels(s, t)),
        lookup(extend_labels(s, t), k) == (match lookup(t, k) {
            Some(v) => Some(v),
            None => lookup(s, k),
        }),
    decreases t.len(),
{
    if t.len() > 0 {
        let u = t.drop_last();
        let e = extend_labels(s, u);
        lemma_extend_lookup(s, u, k);
        lemma_insert_label(e, t.last().0, t.last().1);
        if t.last().0 != k {
            lemma_name_index(u, k);
            if name_index(u, k) >= 0 {
                assert(t[name_index(u, k)] == u[name_index(u, k)]);
            }
        }
    }
}

/// Inserting pairs with distinct names into an empty set rebuilds them as they are.
pub proof fn lemma_extend_fresh(t: LabelSeq)
    requires
        distinct_names(t),
    ensures
        extend_labels(Seq::empty(), t) == t,
    decreases t.len(),
{
    if t.len() > 0 {
        let u = t.drop_last();
        assert(distinct_names(u));
        lemma_extend_fresh(u);
        lemma_name_index(u, t.last().0);
        assert forall|j: int| 0 <= j < u.len() implies u[j].0 != t.last().0 by {
            assert(t[j] == u[j]);
        }
        assert(u.push(t.last()) =~= t);
    }
}

/// A set of labels (name -> value) in which every name occurs once.
#[derive(Debug)]
pub struct Labels {
    pairs: Vec<(String, String)>,
}

/// The abstract pairs of a vector of string pairs.
pub open spec fn pairs_view(v: Seq<(String, String)>) -> LabelSeq {
    Seq::new(v.len(), |i: int| (v[i].0@, v[i].1@))
}

impl View for Labels {
    type V = LabelSeq;

    closed spec fn view(&self) -> LabelSeq {
        pairs_view(self.pairs@)
    }
}

impl Labels {
    #[verifier::type_invariant]
    spec fn names_distinct(self) -> bool {
        distinct_names(pairs_view(self.pairs@))
    }

    /// An empty label set.
    pub fn new() -> (l: Labels)
        ensures
            l@ == Seq::<(Seq<char>, Seq<char>)>::empty(),
    {
        let l = Labels { pairs: Vec::new() };
        assert(pairs_view(l.pairs@) =~= Seq::<(Seq<char>, Seq<char>)>::empty());
        l
    }

    /// Number of labels.
    pub fn len(&self) -> (n: usize)
        ensures
            n == self@.len(),
    {
        self.pairs.len()
    }

    /// Whether there is no label.
    pub fn is_empty(&self) -> (b: bool)
        ensures
            b == (self@.len() == 0),
    {
        self.pairs.len() == 0
    }

    /// The name and value at position `i` (insertion order).
    pub fn entry(&self, i: usize) -> (r: (&String, &String))
        requires
            i < self@.len(),
        ensures
            r.0@ == self@[i as int].0,
            r.1@ == self@[i as int].1,
    {
        (&self.pairs[i].0, &self.pairs[i].1)
    }

    /// Position of the label named `key`, if any.
    fn position(&self, key: &str) -> (r: Option<usize>)
        ensures
            match r {
                Some(i) => i == name_index(self@, key@) && i < self@.len(),
                None => name_index(self@, key@) == -1,
            },
    {
        proof {
            use_type_invariant(self);
            lemma_name_index(self@, key@);
        }
        let n = self.pairs.len();
        let mut i: usize = 0;
        while i < n
            invariant
                n == self.pairs@.len(),
                i <= n,
                distinct_names(self@),
                -1 <= name_index(self@, key@) < self@.len(),
                name_index(self@, key@) >= 0 ==> self@[name_index(self@, key@)].0 == key@,
                name_index(self@, key@) == -1 ==> forall|j: int|
                    0 <= j < self@.len() ==> self@[j].0 != key@,
                forall|j: int| 0 <= j < self@.len() && self@[j].0 == key@ ==> j
                    == name_index(self@, key@),
                forall|j: int| 0 <= j < i ==> self@[j].0 != key@,
            decreases n - i,
        {
            if str_eq(self.pairs[i].0.as_str(), key) {
                assert(self@[i as int].0 == key@);
                return Some(i);
            }
            i = i + 1;
        }
        None
    }

    /// The value stored under `key`.
    pub fn get(&self, key: &str) -> (r: Option<&String>)
        ensures
            match r {
                Some(v) => lookup(self@, key@) == Some(v@),
                None => lookup(self@, key@) is None,
            },
    {
        match self.position(key) {
            Some(i) => Some(&self.pairs[i].1),
            None => None,
        }
    }

    /// Stores `value` under `key`, replacing and returning any previous value.
    pub fn insert(&mut self, key: String, value: String) -> (old_value: Option<String>)
        ensures
            final(self)@ == insert_label(old(self)@, key@, value@),
            match old_value {
                Some(v) => lookup(old(self)@, key@) == Some(v@),
                None => lookup(old(self)@, key@) is None,
            },
    {
        proof {
            use_type_invariant(&*self);
            lemma_insert_label(self@, key@, value@);
        }
        let ghost before = self@;
        let pos = self.position(key.as_str());
        let mut pairs: Vec<(String, String)> = Vec::new();
        std::mem::swap(&mut pairs, &mut self.pairs);
        let r = match pos {
            Some(i) => {
                let previous = pairs[i].1.clone();
                pairs.set(i, (key, value));
                Some(previous)
            },
            None => {
                pairs.push((key, value));
                None
            },
        };
        assert(pairs_view(pairs@) =~= insert_label(before, key@, value@));
        self.pairs = pairs;
        r
    }

    /// Inserts every label of `other`, in order; the values of `other` win.
    pub fn extend(&mut self, other: &Labels)
        ensures
            final(self)@ == extend_labels(old(self)@, other@),
    {
        let ghost start = self@;
        let n = other.pairs.len();
        for i in 0..n
            invariant
                n == other@.len(),
                self@ == extend_labels(start, other@.take(i as int)),
        {
            let key = other.pairs[i].0.clone();
            let value = other.pairs[i].1.clone();
            self.insert(key, value);
            assert(other@.take(i + 1).drop_last() =~= other@.take(i as int));
        }
        assert(other@.take(n as int) =~= other@);
    }

    /// A copy of this label set.
    pub fn duplicate(&self) -> (r: Labels)
        ensures
            r@ == self@,
    {
        let mut r = Labels::new();
        r.extend(self);
        proof {
            use_type_invariant(self);
            lemma_extend_fresh(self@);
        }
        r
    }
}

impl Clone for Labels {
    fn clone(&self) -> (r: Labels)
        ensures
            r@ == self@,
    {
        self.duplicate()
    }
}

} // verus!
