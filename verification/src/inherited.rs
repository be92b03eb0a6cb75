//! The variables that a template inherits may be given in any order:
//! resolving gives the same.

use vstd::prelude::*;
use vstd::seq_lib::{lemma_multiset_commutative, to_multiset_build};
use crate::model::{distinct_keys, key_index, keys_of, lemma_key_index, Identity, Template, VarSource};
use crate::order::{in_order, lemma_before_total, lemma_sorted_by_name};
use crate::resolution::{
    kept, resolve, sorted_by_name, source_value, text_before, values_from, Cursor, Flow, Progress,
    Setting,
};
use crate::subst::Pair;

verus! {

/// Whether no name has two values: pairs of one name are one pair.
pub open spec fn one_value_each(s: Seq<Pair>) -> bool {
    forall|i: int, j: int|
        0 <= i < s.len() && 0 <= j < s.len() && (#[trigger] s[i]).0 == (#[trigger] s[j]).0 ==> s[i]
            == s[j]
}

/// Two lists in the order of their names that hold the same pairs, no name
/// with two values, are one list.
pub proof fn lemma_one_order(a: Seq<Pair>, b: Seq<Pair>)
    requires
        in_order(a),
        in_order(b),
        a.to_multiset() == b.to_multiset(),
        one_value_each(a),
    ensures
        a == b,
    decreases a.len(),
{
    a.to_multiset_ensures();
    b.to_multiset_ensures();
    if a.len() == 0 {
        assert(a =~= b);
    } else {
        let m = a.last();
        let n = b.last();
        let last = a.len() - 1;
        assert(b[last] == n);
        assert(b.contains(n));
        assert(b.to_multiset().count(n) > 0);
        assert(a.to_multiset().count(n) > 0);
        assert(a.contains(n));
        let i = choose|i: int| 0 <= i < a.len() && a[i] == n;
        assert(a[last] == m);
        assert(a.contains(m));
        assert(a.to_multiset().count(m) > 0);
        assert(b.to_multiset().count(m) > 0);
        assert(b.contains(m));
        let j = choose|j: int| 0 <= j < b.len() && b[j] == m;
        lemma_before_total(m.0, n.0);
        if i < last {
            assert(!text_before(a[last].0, a[i].0));
        }
        if j < last {
            assert(!text_before(b[last].0, b[j].0));
        }
        assert(m.0 == n.0);
        assert(a[last].0 == a[i].0);
        assert(m == n);
        let a2 = a.drop_last();
        let b2 = b.drop_last();
        assert(a =~= a2.push(m));
        assert(b =~= b2.push(m));
        to_multiset_build(a2, m);
        to_multiset_build(b2, m);
        assert(a2.to_multiset() =~= a.to_multiset().remove(m));
        assert(b2.to_multiset() =~= b.to_multiset().remove(m));
        assert forall|x: int, y: int| 0 <= x < y < a2.len() implies !text_before(
            #[trigger] a2[y].0,
            #[trigger] a2[x].0,
        ) by {
            assert(a2[x] == a[x] && a2[y] == a[y]);
        }
        assert forall|x: int, y: int| 0 <= x < y < b2.len() implies !text_before(
            #[trigger] b2[y].0,
            #[trigger] b2[x].0,
        ) by {
            assert(b2[x] == b[x] && b2[y] == b[y]);
        }
        assert forall|x: int, y: int|
            0 <= x < a2.len() && 0 <= y < a2.len() && (#[trigger] a2[x]).0 == (
            #[trigger] a2[y]).0 implies a2[x] == a2[y] by {
            assert(a2[x] == a[x] && a2[y] == a[y]);
        }
        lemma_one_order(a2, b2);
    }
}

/// What is kept of the inherited variables: every pair whose name the
/// template does not bind itself, as often as it was given, and nothing
/// else.
pub proof fn lemma_kept(existing: Seq<Pair>, own: Seq<Seq<char>>)
    ensures
        forall|p: Pair|
            #[trigger] kept(existing, own).to_multiset().count(p) == if key_index(own, p.0, 0)
                is None {
                existing.to_multiset().count(p)
            } else {
                0
            },
        forall|k: int|
            0 <= k < kept(existing, own).len() ==> existing.contains(
                #[trigger] kept(existing, own)[k],
            ) && key_index(own, kept(existing, own)[k].0, 0) is None,
    decreases existing.len(),
{
    let out = kept(existing, own);
    existing.to_multiset_ensures();
    out.to_multiset_ensures();
    if existing.len() == 0 {
        assert forall|p: Pair| #[trigger] out.to_multiset().count(p) == 0 by {
            if out.to_multiset().count(p) > 0 {
                assert(out.contains(p));
            }
        }
        assert forall|p: Pair| #[trigger] existing.to_multiset().count(p) == 0 by {
            if existing.to_multiset().count(p) > 0 {
                assert(existing.contains(p));
            }
        }
    } else {
        let rest = existing.drop_last();
        let last = existing.last();
        lemma_kept(rest, own);
        assert(existing =~= rest.push(last));
        to_multiset_build(rest, last);
        let before = kept(rest, own);
        if key_index(own, last.0, 0) is None {
            to_multiset_build(before, last);
        }
        assert forall|k: int| 0 <= k < out.len() implies existing.contains(#[trigger] out[k])
            && key_index(own, out[k].0, 0) is None by {
            if k < before.len() {
                assert(out[k] == before[k]);
                assert(rest.contains(before[k]));
                let at = choose|at: int| 0 <= at < rest.len() && rest[at] == before[k];
                assert(existing[at] == before[k]);
            } else {
                assert(out[k] == last);
                assert(existing[existing.len() - 1] == last);
            }
        }
    }
}

/// The values of a template's own variables do not depend on the pairs
/// gathered before them: with other pairs before, the same pairs are added,
/// the same errors are met and the same answers are used. Each pair that is
/// added has the name of its variable.
pub proof fn lemma_own_values(
    vars: Seq<(Seq<char>, VarSource)>,
    i: int,
    s: Setting,
    acc: Progress,
    before: Seq<Pair>,
)
    requires
        0 <= i <= vars.len(),
    ensures
        match values_from(vars, i, s, acc) {
            Flow::Need(q) => values_from(vars, i, s, Progress { pairs: before + acc.pairs, ..acc })
                == Flow::<Progress>::Need(q),
            Flow::Done(v) => values_from(vars, i, s, Progress { pairs: before + acc.pairs, ..acc })
                == Flow::Done(Progress { pairs: before + v.pairs, ..v }) && v.pairs.len()
                == acc.pairs.len() + vars.len() - i && forall|j: int|
                i <= j < vars.len() ==> (#[trigger] v.pairs[acc.pairs.len() + j - i]).0 == vars[j].0,
        },
    decreases vars.len() - i,
{
    let other = Progress { pairs: before + acc.pairs, ..acc };
    if i < vars.len() {
        match source_value(vars[i].1, s, acc.cur) {
            Flow::Need(_) => {},
            Flow::Done((Ok(v), cur)) => {
                let next = Progress { pairs: acc.pairs.push((vars[i].0, v)), errors: acc.errors, cur };
                lemma_own_values(vars, i + 1, s, next, before);
                assert(before + next.pairs =~= other.pairs.push((vars[i].0, v)));
                lemma_prefix_kept(vars, i + 1, s, next);
                lemma_names_follow(vars, i, s, acc, next);
            },
            Flow::Done((Err(e), cur)) => {
                let next = Progress {
                    pairs: acc.pairs.push((vars[i].0, Seq::empty())),
                    errors: acc.errors.push(e),
                    cur,
                };
                lemma_own_values(vars, i + 1, s, next, before);
                assert(before + next.pairs =~= other.pairs.push((vars[i].0, Seq::empty())));
                lemma_prefix_kept(vars, i + 1, s, next);
                lemma_names_follow(vars, i, s, acc, next);
            },
        }
    } else {
        assert(acc == Progress { pairs: acc.pairs, ..acc });
    }
}

/// Where the names follow the variables after one step, they follow them
/// from that step on.
proof fn lemma_names_follow(
    vars: Seq<(Seq<char>, VarSource)>,
    i: int,
    s: Setting,
    acc: Progress,
    next: Progress,
)
    requires
        0 <= i < vars.len(),
        next.pairs.len() == acc.pairs.len() + 1,
        next.pairs[acc.pairs.len() as int].0 == vars[i].0,
        values_from(vars, i + 1, s, next) matches Flow::Done(v) ==> v.pairs.len()
            >= next.pairs.len() && v.pairs.take(next.pairs.len() as int) == next.pairs
            && forall|j: int|
            i + 1 <= j < vars.len() ==> (#[trigger] v.pairs[next.pairs.len() + j - (i + 1)]).0
                == vars[j].0,
    ensures
        values_from(vars, i + 1, s, next) matches Flow::Done(v) ==> forall|j: int|
            i <= j < vars.len() ==> (#[trigger] v.pairs[acc.pairs.len() + j - i]).0 == vars[j].0,
{
    match values_from(vars, i + 1, s, next) {
        Flow::Done(v) => {
            assert forall|j: int| i <= j < vars.len() implies (#[trigger] v.pairs[acc.pairs.len()
                + j - i]).0 == vars[j].0 by {
                if j == i {
                    assert(v.pairs.take(next.pairs.len() as int)[acc.pairs.len() as int]
                        == v.pairs[acc.pairs.len() as int]);
                } else {
                    assert(v.pairs[next.pairs.len() + j - (i + 1)].0 == vars[j].0);
                }
            }
        },
        _ => {},
    }
}

/// The pairs gathered before stay where they are.
proof fn lemma_prefix_kept(vars: Seq<(Seq<char>, VarSource)>, i: int, s: Setting, acc: Progress)
    requires
        0 <= i <= vars.len(),
    ensures
        values_from(vars, i, s, acc) matches Flow::Done(v) ==> v.pairs.len() >= acc.pairs.len()
            && v.pairs.take(acc.pairs.len() as int) == acc.pairs,
    decreases vars.len() - i,
{
    if i < vars.len() {
        match source_value(vars[i].1, s, acc.cur) {
            Flow::Need(_) => {},
            Flow::Done((Ok(v), cur)) => {
                let next = Progress { pairs: acc.pairs.push((vars[i].0, v)), errors: acc.errors, cur };
                lemma_prefix_kept(vars, i + 1, s, next);
                match values_from(vars, i + 1, s, next) {
                    Flow::Done(r) => {
                        assert(r.pairs.take(acc.pairs.len() as int) =~= r.pairs.take(
                            next.pairs.len() as int,
                        ).take(acc.pairs.len() as int));
                        assert(next.pairs.take(acc.pairs.len() as int) =~= acc.pairs);
                    },
                    _ => {},
                }
            },
            Flow::Done((Err(e), cur)) => {
                let next = Progress {
                    pairs: acc.pairs.push((vars[i].0, Seq::empty())),
                    errors: acc.errors.push(e),
                    cur,
                };
                lemma_prefix_kept(vars, i + 1, s, next);
                match values_from(vars, i + 1, s, next) {
                    Flow::Done(r) => {
                        assert(r.pairs.take(acc.pairs.len() as int) =~= r.pairs.take(
                            next.pairs.len() as int,
                        ).take(acc.pairs.len() as int));
                        assert(next.pairs.take(acc.pairs.len() as int) =~= acc.pairs);
                    },
                    _ => {},
                }
            },
        }
    } else {
        assert(acc.pairs.take(acc.pairs.len() as int) =~= acc.pairs);
    }
}

/// The inherited variables that are kept, followed by the template's own,
/// give no name two values.
proof fn lemma_gathered_one_value(
    existing: Seq<Pair>,
    vars: Seq<(Seq<char>, VarSource)>,
    own: Seq<Pair>,
)
    requires
        distinct_keys(keys_of(existing)),
        distinct_keys(keys_of(vars)),
        own.len() == vars.len(),
        forall|j: int| 0 <= j < vars.len() ==> (#[trigger] own[j]).0 == vars[j].0,
    ensures
        one_value_each(kept(existing, keys_of(vars)) + own),
{
    let k = kept(existing, keys_of(vars));
    let all = k + own;
    lemma_kept(existing, keys_of(vars));
    assert forall|i: int, j: int|
        0 <= i < all.len() && 0 <= j < all.len() && (#[trigger] all[i]).0 == (
        #[trigger] all[j]).0 implies all[i] == all[j] by {
        if i < k.len() && j < k.len() {
            assert(existing.contains(k[i]) && existing.contains(k[j]));
            let x = choose|x: int| 0 <= x < existing.len() && existing[x] == k[i];
            let y = choose|y: int| 0 <= y < existing.len() && existing[y] == k[j];
            assert(keys_of(existing)[x] == keys_of(existing)[y]);
        } else if i >= k.len() && j >= k.len() {
            let x = i - k.len();
            let y = j - k.len();
            assert(own[x].0 == vars[x].0 && own[y].0 == vars[y].0);
            assert(keys_of(vars)[x] == keys_of(vars)[y]);
        } else {
            let (inherited, mine) = if i < k.len() {
                (i, j - k.len())
            } else {
                (j, i - k.len())
            };
            assert(key_index(keys_of(vars), k[inherited].0, 0) is None);
            lemma_key_index(keys_of(vars), k[inherited].0, 0);
            assert(own[mine].0 == vars[mine].0);
            assert(keys_of(vars)[mine] == k[inherited].0);
        }
    }
}

/// Sorting by name keeps it that no name has two values.
proof fn lemma_sorted_one_value(pairs: Seq<Pair>)
    requires
        one_value_each(pairs),
    ensures
        one_value_each(sorted_by_name(pairs)),
{
    let out = sorted_by_name(pairs);
    lemma_sorted_by_name(pairs);
    out.to_multiset_ensures();
    pairs.to_multiset_ensures();
    assert forall|i: int, j: int|
        0 <= i < out.len() && 0 <= j < out.len() && (#[trigger] out[i]).0 == (
        #[trigger] out[j]).0 implies out[i] == out[j] by {
        assert(out.contains(out[i]) && out.contains(out[j]));
        assert(out.to_multiset().count(out[i]) > 0 && out.to_multiset().count(out[j]) > 0);
        assert(pairs.to_multiset().count(out[i]) > 0 && pairs.to_multiset().count(out[j]) > 0);
        assert(pairs.contains(out[i]) && pairs.contains(out[j]));
        let x = choose|x: int| 0 <= x < pairs.len() && pairs[x] == out[i];
        let y = choose|y: int| 0 <= y < pairs.len() && pairs[y] == out[j];
        assert(pairs[x].0 == pairs[y].0);
    }
}

/// The order of the inherited variables does not matter: where no
/// inherited variable is given twice and the template binds none twice,
/// resolving with the same inherited variables in another order gives the
/// same, whatever the setting and the answers of the host.
pub proof fn lemma_order_of_inherited(
    t: Template,
    s: Setting,
    existing: Seq<Pair>,
    reordered: Seq<Pair>,
    user: Option<Identity>,
    group: Option<Identity>,
    cur: Cursor,
)
    requires
        distinct_keys(keys_of(existing)),
        distinct_keys(keys_of(t.vars)),
        reordered.to_multiset() == existing.to_multiset(),
    ensures
        resolve(t, s, reordered, user, group, cur) == resolve(t, s, existing, user, group, cur),
{
    let names = keys_of(t.vars);
    let k1 = kept(existing, names);
    let k2 = kept(reordered, names);
    lemma_kept(existing, names);
    lemma_kept(reordered, names);
    assert(k1.to_multiset() =~= k2.to_multiset());
    let nothing = Progress { pairs: Seq::empty(), errors: Seq::empty(), cur };
    lemma_own_values(t.vars, 0, s, nothing, k1);
    lemma_own_values(t.vars, 0, s, nothing, k2);
    assert(k1 + nothing.pairs =~= k1);
    assert(k2 + nothing.pairs =~= k2);
    match values_from(t.vars, 0, s, nothing) {
        Flow::Need(_) => {},
        Flow::Done(v) => {
            let own = v.pairs;
            assert forall|j: int| 0 <= j < t.vars.len() implies (#[trigger] own[j]).0
                == t.vars[j].0 by {
                assert(own[nothing.pairs.len() + j - 0].0 == t.vars[j].0);
            }
            lemma_gathered_one_value(existing, t.vars, own);
            lemma_multiset_commutative(k1, own);
            lemma_multiset_commutative(k2, own);
            lemma_sorted_by_name(k1 + own);
            lemma_sorted_by_name(k2 + own);
            lemma_sorted_one_value(k1 + own);
            lemma_one_order(sorted_by_name(k1 + own), sorted_by_name(k2 + own));
        },
    }
}

} // verus!
