//! The order of names, and what sorting by name gives.

use vstd::prelude::*;
use vstd::seq_lib::{to_multiset_build, to_multiset_remove};
use crate::resolution::{place_after, sorted_by_name, text_before};
use crate::subst::Pair;

verus! {

/// No text comes before itself.
pub proof fn lemma_before_irreflexive(a: Seq<char>)
    ensures
        !text_before(a, a),
    decreases a.len(),
{
    if a.len() > 0 {
        lemma_before_irreflexive(a.drop_first());
    }
}

/// What comes before a text that comes before a third comes before the
/// third.
pub proof fn lemma_before_transitive(a: Seq<char>, b: Seq<char>, c: Seq<char>)
    requires
        text_before(a, b),
        text_before(b, c),
    ensures
        text_before(a, c),
    decreases a.len(),
{
    if a.len() > 0 && a[0] == b[0] && b[0] == c[0] {
        lemma_before_transitive(a.drop_first(), b.drop_first(), c.drop_first());
    }
}

/// Of two different texts one comes before the other.
pub proof fn lemma_before_total(a: Seq<char>, b: Seq<char>)
    ensures
        a == b || text_before(a, b) || text_before(b, a),
    decreases a.len(),
{
    if a.len() > 0 && b.len() > 0 {
        if a[0] == b[0] {
            lemma_before_total(a.drop_first(), b.drop_first());
            if a.drop_first() == b.drop_first() {
                assert(a =~= seq![a[0]] + a.drop_first());
                assert(b =~= seq![b[0]] + b.drop_first());
            }
        } else {
            assert(a[0] as int != b[0] as int);
        }
    } else if a.len() == 0 && b.len() == 0 {
        assert(a =~= b);
    }
}

/// Whether no pair stands after a pair whose name comes after its own.
pub open spec fn in_order(s: Seq<Pair>) -> bool {
    forall|i: int, j: int| 0 <= i < j < s.len() ==> !text_before(#[trigger] s[j].0, #[trigger] s[i].0)
}

/// The place that a name is put at stands after every pair whose name does
/// not come after it, and at the first pair whose name does.
pub proof fn lemma_place_after(s: Seq<Pair>, name: Seq<char>, from: int)
    requires
        0 <= from <= s.len(),
    ensures
        from <= place_after(s, name, from) <= s.len(),
        forall|i: int| from <= i < place_after(s, name, from) ==> !text_before(name, #[trigger] s[i].0),
        place_after(s, name, from) < s.len() ==> text_before(name, s[place_after(s, name, from)].0),
    decreases s.len() - from,
{
    if from < s.len() && !text_before(name, s[from].0) {
        lemma_place_after(s, name, from + 1);
    }
}

/// Sorting by name puts the pairs in the order of their names, and neither
/// adds a pair nor loses one.
pub proof fn lemma_sorted_by_name(pairs: Seq<Pair>)
    ensures
        in_order(sorted_by_name(pairs)),
        sorted_by_name(pairs).to_multiset() == pairs.to_multiset(),
        sorted_by_name(pairs).len() == pairs.len(),
    decreases pairs.len(),
{
    let out = sorted_by_name(pairs);
    if pairs.len() == 0 {
        assert(out =~= pairs);
    } else {
        let rest = pairs.drop_last();
        let p = pairs.last();
        let s = sorted_by_name(rest);
        lemma_sorted_by_name(rest);
        lemma_place_after(s, p.0, 0);
        let q = place_after(s, p.0, 0);
        assert(out == s.insert(q, p));
        assert forall|i: int, j: int| 0 <= i < j < out.len() implies !text_before(
            #[trigger] out[j].0,
            #[trigger] out[i].0,
        ) by {
            if j == q {
                assert(out[i] == s[i]);
            } else if i == q {
                assert(out[j] == s[j - 1]);
                if text_before(s[j - 1].0, p.0) {
                    lemma_before_transitive(s[j - 1].0, p.0, s[q].0);
                    if j - 1 == q {
                        lemma_before_irreflexive(s[q].0);
                    }
                }
            } else {
                let a = if i < q {
                    i
                } else {
                    i - 1
                };
                let b = if j < q {
                    j
                } else {
                    j - 1
                };
                assert(out[i] == s[a] && out[j] == s[b]);
            }
        }
        assert(out.remove(q) =~= s);
        to_multiset_remove(out, q);
        assert(pairs =~= rest.push(p));
        to_multiset_build(rest, p);
        assert(out.contains(p)) by {
            assert(out[q] == p);
        }
        out.to_multiset_ensures();
        assert(out.to_multiset() =~= s.to_multiset().insert(p));
    }
}

} // verus!
