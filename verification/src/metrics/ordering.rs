//! Properties of the order in which labels are written.
//!
//! `text_less` is a strict total order, `sort_texts` returns its input sorted
//! and with the same elements, and therefore the written form of a label set
//! depends only on which labels it holds, not on the order they were added.

use vstd::prelude::*;
use super::labels::LabelSeq;
use super::renderer::{insert_pos, labels_text, pair_text, pair_texts, sort_texts, sorted_insert, text_less};

verus! {

/// Every text sorts no later than the texts after it.
pub open spec fn texts_sorted(s: Seq<Seq<char>>) -> bool {
    forall|i: int, j: int| 0 <= i < j < s.len() ==> !text_less(#[trigger] s[j], #[trigger] s[i])
}

/// No text sorts before itself.
pub proof fn lemma_text_less_irreflexive(a: Seq<char>)
    ensures
        !text_less(a, a),
    decreases a.len(),
{
    if a.len() > 0 {
        lemma_text_less_irreflexive(a.drop_first());
    }
}

/// Of two texts at most one sorts before the other, and of two different
/// texts one does.
pub proof fn lemma_text_less_total(a: Seq<char>, b: Seq<char>)
    ensures
        !(text_less(a, b) && text_less(b, a)),
        a != b ==> text_less(a, b) || text_less(b, a),
    decreases a.len(),
{
    if a.len() == 0 && b.len() == 0 {
        assert(a =~= b);
    }
    if a.len() > 0 && b.len() > 0 && a[0] != b[0] {
        vstd::utf8::char_u32_cast(a[0], a[0] as u32);
        vstd::utf8::char_u32_cast(b[0], b[0] as u32);
    }
    if a.len() > 0 && b.len() > 0 && a[0] == b[0] {
        lemma_text_less_total(a.drop_first(), b.drop_first());
        if a.drop_first() == b.drop_first() {
            assert(a =~= b) by {
                assert forall|i: int| 0 <= i < a.len() implies a[i] == b[i] by {
                    if i > 0 {
                        assert(a[i] == a.drop_first()[i - 1]);
                        assert(b[i] == b.drop_first()[i - 1]);
                    }
                }
            }
        }
    }
}

/// `text_less` is transitive.
pub proof fn lemma_text_less_transitive(a: Seq<char>, b: Seq<char>, c: Seq<char>)
    requires
        text_less(a, b),
        text_less(b, c),
    ensures
        text_less(a, c),
    decreases a.len(),
{
    if a.len() > 0 && a[0] == b[0] && b[0] == c[0] {
        lemma_text_less_transitive(a.drop_first(), b.drop_first(), c.drop_first());
    }
}

/// Where `insert_pos` puts `x`: after the texts that `x` does not sort
/// before, at the first one that it does.
proof fn lemma_insert_pos_bounds(s: Seq<Seq<char>>, x: Seq<char>)
    ensures
        0 <= insert_pos(s, x) <= s.len(),
        forall|k: int| 0 <= k < insert_pos(s, x) ==> !text_less(x, #[trigger] s[k]),
        insert_pos(s, x) < s.len() ==> text_less(x, s[insert_pos(s, x)]),
    decreases s.len(),
{
    if s.len() > 0 && !text_less(x, s[0]) {
        let t = s.drop_first();
        lemma_insert_pos_bounds(t, x);
        assert forall|k: int| 0 <= k < insert_pos(s, x) implies !text_less(x, #[trigger] s[k]) by {
            if k > 0 {
                assert(s[k] == t[k - 1]);
            }
        }
        if insert_pos(s, x) < s.len() {
            assert(s[insert_pos(s, x)] == t[insert_pos(t, x)]);
        }
    }
}

/// Inserting at `insert_pos` keeps a sorted sequence sorted.
proof fn lemma_sorted_insert_sorted(s: Seq<Seq<char>>, x: Seq<char>)
    requires
        texts_sorted(s),
    ensures
        texts_sorted(sorted_insert(s, x)),
        sorted_insert(s, x).to_multiset() == s.to_multiset().insert(x),
{
    broadcast use vstd::seq_lib::group_to_multiset_ensures;

    lemma_insert_pos_bounds(s, x);
    let p = insert_pos(s, x);
    let r = sorted_insert(s, x);
    assert(r == s.insert(p, x));
    assert forall|i: int, j: int| 0 <= i < j < r.len() implies !text_less(#[trigger] r[j], #[trigger] r[i]) by {
        if j < p {
            assert(r[i] == s[i] && r[j] == s[j]);
        } else if j == p {
            assert(r[i] == s[i] && r[j] == x);
        } else if i < p {
            assert(r[i] == s[i] && r[j] == s[j - 1]);
        } else if i == p {
            assert(r[i] == x && r[j] == s[j - 1]);
            assert(text_less(x, s[p]));
            if text_less(s[j - 1], x) {
                if j - 1 == p {
                    lemma_text_less_total(x, s[p]);
                } else {
                    assert(!text_less(s[j - 1], s[p]));
                    lemma_text_less_transitive(s[j - 1], x, s[p]);
                }
            }
        } else {
            assert(r[i] == s[i - 1] && r[j] == s[j - 1]);
        }
    }
}

/// `sort_texts` returns its input sorted, with the same elements.
pub proof fn lemma_sort_texts(s: Seq<Seq<char>>)
    ensures
        texts_sorted(sort_texts(s)),
        sort_texts(s).to_multiset() == s.to_multiset(),
    decreases s.len(),
{
    broadcast use vstd::seq_lib::group_to_multiset_ensures;

    if s.len() > 0 {
        let u = s.drop_last();
        lemma_sort_texts(u);
        lemma_sorted_insert_sorted(sort_texts(u), s.last());
        assert(s =~= u.push(s.last()));
    }
}

/// Two sorted sequences with the same elements are equal.
pub proof fn lemma_sorted_unique(a: Seq<Seq<char>>, b: Seq<Seq<char>>)
    requires
        texts_sorted(a),
        texts_sorted(b),
        a.to_multiset() == b.to_multiset(),
    ensures
        a == b,
    decreases a.len(),
{
    broadcast use vstd::seq_lib::group_to_multiset_ensures;

    assert(a.len() == b.len()) by {
        assert(a.len() == a.to_multiset().len());
        assert(b.len() == b.to_multiset().len());
    }
    if a.len() == 0 {
        assert(a =~= b);
    } else {
        assert(a.contains(a[0]));
        assert(a.to_multiset().count(a[0]) > 0);
        assert(b.contains(a[0]));
        let j = choose|j: int| 0 <= j < b.len() && b[j] == a[0];
        assert(b.contains(b[0]));
        assert(b.to_multiset().count(b[0]) > 0);
        assert(a.contains(b[0]));
        let i = choose|i: int| 0 <= i < a.len() && a[i] == b[0];
        if j > 0 {
            assert(!text_less(b[j], b[0]));
        }
        if i > 0 {
            assert(!text_less(a[i], a[0]));
        }
        lemma_text_less_total(a[0], b[0]);
        assert(a[0] == b[0]);
        let a2 = a.remove(0);
        let b2 = b.remove(0);
        assert(a2 =~= a.drop_first());
        assert(b2 =~= b.drop_first());
        assert(texts_sorted(a2)) by {
            assert forall|x: int, y: int| 0 <= x < y < a2.len() implies !text_less(#[trigger] a2[y], #[trigger] a2[x]) by {
                assert(a2[x] == a[x + 1] && a2[y] == a[y + 1]);
            }
        }
        assert(texts_sorted(b2)) by {
            assert forall|x: int, y: int| 0 <= x < y < b2.len() implies !text_less(#[trigger] b2[y], #[trigger] b2[x]) by {
                assert(b2[x] == b[x + 1] && b2[y] == b[y + 1]);
            }
        }
        lemma_sorted_unique(a2, b2);
        assert(a =~= b) by {
            assert forall|k: int| 0 <= k < a.len() implies a[k] == b[k] by {
                if k > 0 {
                    assert(a[k] == a2[k - 1] && b[k] == b2[k - 1]);
                }
            }
        }
    }
}

/// Label sets with the same labels have written forms with the same elements.
proof fn lemma_pair_texts_multiset(s1: LabelSeq, s2: LabelSeq)
    requires
        s1.to_multiset() == s2.to_multiset(),
    ensures
        pair_texts(s1).to_multiset() == pair_texts(s2).to_multiset(),
    decreases s1.len(),
{
    broadcast use vstd::seq_lib::group_to_multiset_ensures;
    broadcast use vstd::multiset::group_multiset_axioms;

    assert(s1.len() == s2.len()) by {
        assert(s1.len() == s1.to_multiset().len());
        assert(s2.len() == s2.to_multiset().len());
    }
    if s1.len() == 0 {
        assert(pair_texts(s1) =~= pair_texts(s2));
    } else {
        let x = s1.last();
        let u1 = s1.drop_last();
        assert(s1 =~= u1.push(x));
        assert(s1.contains(x));
        assert(s1.to_multiset().count(x) > 0);
        assert(s2.contains(x));
        let j = choose|j: int| 0 <= j < s2.len() && s2[j] == x;
        let u2 = s2.remove(j);
        assert(u1.to_multiset() =~= s1.to_multiset().remove(x));
        assert(u2.to_multiset() == s2.to_multiset().remove(x));
        lemma_pair_texts_multiset(u1, u2);
        let t1 = pair_texts(s1);
        let t2 = pair_texts(s2);
        assert(t1 =~= pair_texts(u1).push(pair_text(x)));
        assert(pair_texts(u2) =~= t2.remove(j));
        assert(t2[j] == pair_text(x));
        assert(pair_texts(u2).to_multiset() == t2.to_multiset().remove(pair_text(x)));
        assert(t2.contains(pair_text(x)));
        assert(t2.to_multiset().count(pair_text(x)) > 0);
        assert(t2.to_multiset() =~= t2.to_multiset().remove(pair_text(x)).insert(pair_text(x)));
    }
}

/// The written form of a label set (`k="v"` pairs, sorted, joined by commas)
/// depends only on which labels the set holds, not on the order in which
/// they were added: the output is deterministic.
pub proof fn lemma_labels_text_order_free(s1: LabelSeq, s2: LabelSeq)
    requires
        s1.to_multiset() == s2.to_multiset(),
    ensures
        labels_text(s1) == labels_text(s2),
{
    lemma_pair_texts_multiset(s1, s2);
    lemma_sort_texts(pair_texts(s1));
    lemma_sort_texts(pair_texts(s2));
    lemma_sorted_unique(sort_texts(pair_texts(s1)), sort_texts(pair_texts(s2)));
}

} // verus!
