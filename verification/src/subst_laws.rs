//! Laws of the substitution scan: what the order of the candidates, their
//! values and names that begin alike can and cannot change.

use vstd::prelude::*;
use crate::subst::{
    advance, completes, first_complete, idle, lemma_first_complete, lemma_scan_wf, scan, scan_step,
    scan_wf, substituted, Pair, Scan,
};

verus! {

/// `a` is the end of `b`.
pub open spec fn is_suffix(a: Seq<char>, b: Seq<char>) -> bool {
    a.len() <= b.len() && b.subrange(b.len() - a.len(), b.len() as int) == a
}

/// `a` is a beginning of `b` and shorter than `b`.
pub open spec fn is_proper_prefix(a: Seq<char>, b: Seq<char>) -> bool {
    a.len() < b.len() && b.take(a.len() as int) == a
}

/// No non-empty name is the end of the name of another candidate. In
/// particular no non-empty name occurs twice.
pub open spec fn no_name_ends_another(pairs: Seq<Pair>) -> bool {
    forall|i: int, j: int|
        0 <= i < pairs.len() && 0 <= j < pairs.len() && i != j && pairs[i].0.len() > 0
            ==> !is_suffix(#[trigger] pairs[i].0, #[trigger] pairs[j].0)
}

/// Some position of `perm` holds `i`.
pub open spec fn reached(perm: Seq<int>, i: int) -> bool {
    exists|k: int| 0 <= k < perm.len() && #[trigger] perm[k] == i
}

/// `q` holds the candidates of `p` in another order: `q[k]` is `p[perm[k]]`,
/// and every candidate of `p` is reached.
pub open spec fn reordering(p: Seq<Pair>, q: Seq<Pair>, perm: Seq<int>) -> bool {
    &&& p.len() == q.len()
    &&& p.len() == perm.len()
    &&& forall|k: int|
        0 <= k < q.len() ==> 0 <= #[trigger] perm[k] < p.len() && q[k] == p[perm[k]]
    &&& forall|i: int| 0 <= i < p.len() ==> #[trigger] reached(perm, i)
}

/// The characters a candidate has matched are the most recent input.
pub proof fn lemma_matched_is_recent(pairs: Seq<Pair>, input: Seq<char>)
    ensures
        forall|i: int|
            0 <= i < pairs.len() ==> {
                let l = #[trigger] scan(pairs, input).lens[i];
                &&& l <= input.len()
                &&& l <= pairs[i].0.len()
                &&& input.subrange(input.len() - l, input.len() as int) == pairs[i].0.take(l as int)
            },
    decreases input.len(),
{
    let st = scan(pairs, input);
    if input.len() == 0 {
        assert forall|i: int| 0 <= i < pairs.len() implies {
            let l = #[trigger] st.lens[i];
            &&& l <= input.len()
            &&& l <= pairs[i].0.len()
            &&& input.subrange(input.len() - l, input.len() as int) == pairs[i].0.take(l as int)
        } by {
            assert(input.subrange(0, 0) =~= pairs[i].0.take(0));
        }
    } else {
        let head = input.drop_last();
        let c = input.last();
        let prev = scan(pairs, head);
        lemma_matched_is_recent(pairs, head);
        lemma_scan_wf(pairs, head);
        lemma_first_complete(pairs, prev.lens, c, 0);
        assert forall|i: int| 0 <= i < pairs.len() implies {
            let l = #[trigger] st.lens[i];
            &&& l <= input.len()
            &&& l <= pairs[i].0.len()
            &&& input.subrange(input.len() - l, input.len() as int) == pairs[i].0.take(l as int)
        } by {
            let l = st.lens[i];
            let name = pairs[i].0;
            let before = prev.lens[i];
            if l == 0 {
                assert(input.subrange(input.len() - 0, input.len() as int) =~= name.take(0));
            } else {
                assert(first_complete(pairs, prev.lens, c, 0) is None);
                assert(l == before + 1);
                assert(head.subrange(head.len() - before, head.len() as int) == name.take(
                    before as int,
                ));
                assert(input.subrange(input.len() - l, input.len() as int)
                    =~= head.subrange(head.len() - before, head.len() as int).push(c));
                assert(name.take(l as int) =~= name.take(before as int).push(c));
            }
        }
    }
}

/// Where no name is the end of another, one character completes at most one
/// candidate.
pub proof fn lemma_one_completer(pairs: Seq<Pair>, input: Seq<char>, c: char, i: int, j: int)
    requires
        no_name_ends_another(pairs),
        0 <= i < pairs.len(),
        0 <= j < pairs.len(),
        completes(pairs[i].0, scan(pairs, input).lens[i], c),
        completes(pairs[j].0, scan(pairs, input).lens[j], c),
    ensures
        i == j,
{
    if i != j {
        lemma_matched_is_recent(pairs, input);
        let st = scan(pairs, input);
        let a = pairs[i].0;
        let b = pairs[j].0;
        let la = st.lens[i];
        let lb = st.lens[j];
        let all = input.push(c);
        assert(a =~= a.take(la as int).push(c));
        assert(b =~= b.take(lb as int).push(c));
        assert(all.subrange(all.len() - a.len(), all.len() as int) =~= input.subrange(
            input.len() - la,
            input.len() as int,
        ).push(c));
        assert(all.subrange(all.len() - b.len(), all.len() as int) =~= input.subrange(
            input.len() - lb,
            input.len() as int,
        ).push(c));
        if a.len() <= b.len() {
            assert(b.subrange(b.len() - a.len(), b.len() as int) =~= all.subrange(
                all.len() - a.len(),
                all.len() as int,
            ));
            assert(is_suffix(a, b));
        } else {
            assert(a.subrange(a.len() - b.len(), a.len() as int) =~= all.subrange(
                all.len() - b.len(),
                all.len() as int,
            ));
            assert(is_suffix(b, a));
        }
    }
}

proof fn lemma_reordered_scan(p: Seq<Pair>, q: Seq<Pair>, perm: Seq<int>, input: Seq<char>)
    requires
        reordering(p, q, perm),
        no_name_ends_another(p),
    ensures
        scan(q, input).out == scan(p, input).out,
        scan(q, input).lens.len() == q.len(),
        forall|k: int|
            0 <= k < q.len() ==> #[trigger] scan(q, input).lens[k] == scan(p, input).lens[perm[k]],
    decreases input.len(),
{
    lemma_scan_wf(p, input);
    lemma_scan_wf(q, input);
    if input.len() > 0 {
        let head = input.drop_last();
        let c = input.last();
        let sp = scan(p, head);
        let sq = scan(q, head);
        lemma_reordered_scan(p, q, perm, head);
        lemma_scan_wf(p, head);
        lemma_scan_wf(q, head);
        lemma_first_complete(p, sp.lens, c, 0);
        lemma_first_complete(q, sq.lens, c, 0);
        match first_complete(p, sp.lens, c, 0) {
            Some(i0) => {
                assert(reached(perm, i0));
                let k0 = choose|k: int| 0 <= k < perm.len() && #[trigger] perm[k] == i0;
                assert(sq.lens[k0] == sp.lens[perm[k0]]);
                assert(completes(q[k0].0, sq.lens[k0], c));
                let k1 = first_complete(q, sq.lens, c, 0)->0;
                assert(sq.lens[k1] == sp.lens[perm[k1]]);
                lemma_one_completer(p, head, c, i0, perm[k1]);
            },
            None => {
                assert forall|k: int| 0 <= k < q.len() implies !completes(
                    #[trigger] q[k].0,
                    sq.lens[k],
                    c,
                ) by {
                    assert(sq.lens[k] == sp.lens[perm[k]]);
                    assert(!completes(p[perm[k]].0, sp.lens[perm[k]], c));
                }
                assert forall|k: int| 0 <= k < q.len() implies #[trigger] scan(q, input).lens[k]
                    == scan(p, input).lens[perm[k]] by {
                    assert(sq.lens[k] == sp.lens[perm[k]]);
                }
            },
        }
    }
}

/// The order of the candidates does not matter where no name is the end of
/// another: a text scanned with the same candidates in any other order gives
/// the same result.
pub proof fn lemma_order_independent(p: Seq<Pair>, q: Seq<Pair>, perm: Seq<int>, input: Seq<char>)
    requires
        reordering(p, q, perm),
        no_name_ends_another(p),
    ensures
        substituted(q, input) == substituted(p, input),
{
    lemma_reordered_scan(p, q, perm, input);
}

proof fn lemma_same_names_first_complete(
    p: Seq<Pair>,
    q: Seq<Pair>,
    lens: Seq<nat>,
    c: char,
    from: int,
)
    requires
        p.len() == q.len(),
        forall|i: int| 0 <= i < p.len() ==> (#[trigger] p[i]).0 == q[i].0,
    ensures
        first_complete(p, lens, c, from) == first_complete(q, lens, c, from),
    decreases p.len() - from,
{
    if 0 <= from < p.len() {
        assert(p[from].0 == q[from].0);
        lemma_same_names_first_complete(p, q, lens, c, from + 1);
    }
}

/// The values play no part in matching: two candidate lists with the same
/// names match at the same places of any text, whatever their values hold.
/// A value that contains a variable name is therefore never expanded.
pub proof fn lemma_values_do_not_steer(p: Seq<Pair>, q: Seq<Pair>, input: Seq<char>)
    requires
        p.len() == q.len(),
        forall|i: int| 0 <= i < p.len() ==> (#[trigger] p[i]).0 == q[i].0,
    ensures
        scan(p, input).lens == scan(q, input).lens,
    decreases input.len(),
{
    if input.len() > 0 {
        let head = input.drop_last();
        let c = input.last();
        lemma_values_do_not_steer(p, q, head);
        lemma_same_names_first_complete(p, q, scan(p, head).lens, c, 0);
        assert(scan(p, input).lens =~= scan(q, input).lens) by {
            assert forall|i: int| 0 <= i < p.len() implies advance(p[i].0, scan(p, head).lens[i], c)
                == advance(q[i].0, scan(q, head).lens[i], c) by {
                assert(p[i].0 == q[i].0);
            }
        }
    }
}

/// Once every candidate is idle, what was written before is out of reach:
/// the rest of the text is scanned as if it stood alone, and its result is
/// appended. This holds right after each replacement, so the inserted value
/// is not scanned and cannot join with the text that follows it.
pub proof fn lemma_idle_splits(pairs: Seq<Pair>, a: Seq<char>, b: Seq<char>)
    requires
        scan(pairs, a).lens == idle(pairs.len()),
    ensures
        scan(pairs, a + b).lens == scan(pairs, b).lens,
        substituted(pairs, a + b) == substituted(pairs, a) + substituted(pairs, b),
    decreases b.len(),
{
    if b.len() == 0 {
        assert(a + b =~= a);
        assert(scan(pairs, a).out + Seq::<char>::empty() =~= scan(pairs, a).out);
    } else {
        let head = b.drop_last();
        let c = b.last();
        lemma_idle_splits(pairs, a, head);
        assert((a + b).drop_last() =~= a + head);
        assert((a + b).last() == c);
        let whole = scan(pairs, a + head);
        let part = scan(pairs, head);
        let front = scan(pairs, a).out;
        lemma_scan_wf(pairs, head);
        lemma_first_complete(pairs, part.lens, c, 0);
        match first_complete(pairs, part.lens, c, 0) {
            Some(i) => {
                let cut = part.out.len() + 1 - pairs[i].0.len();
                assert(part.lens[i] <= part.out.len());
                assert((front + part.out).push(c).take(front.len() + cut) =~= front
                    + part.out.push(c).take(cut));
                assert(scan_step(pairs, whole, c).out =~= front + scan_step(pairs, part, c).out);
            },
            None => {
                assert(scan_step(pairs, whole, c).out =~= front + scan_step(pairs, part, c).out);
            },
        }
    }
}

/// A name scanned with its own candidate alone gives the value, whatever the
/// value holds.
pub proof fn lemma_name_gives_value(name: Seq<char>, value: Seq<char>)
    requires
        name.len() > 0,
    ensures
        substituted(seq![(name, value)], name) == value,
{
    let pairs = seq![(name, value)];
    lemma_name_matches_itself(name, value, name.len() - 1);
    let head = name.drop_last();
    let prev = scan(pairs, head);
    assert(name.take(name.len() - 1) =~= head);
    assert(completes(pairs[0].0, prev.lens[0], name.last()));
    assert(first_complete(pairs, prev.lens, name.last(), 0) == Some(0int));
    assert(prev.out.push(name.last()).take(0) + value =~= value);
}

proof fn lemma_name_matches_itself(name: Seq<char>, value: Seq<char>, k: int)
    requires
        0 <= k < name.len(),
    ensures
        scan(seq![(name, value)], name.take(k)) == (Scan { out: name.take(k), lens: seq![k as nat] }),
    decreases k,
{
    let pairs = seq![(name, value)];
    if k == 0 {
        assert(scan(pairs, name.take(0)).lens =~= seq![0nat]);
        assert(scan(pairs, name.take(0)).out =~= name.take(0));
    } else {
        lemma_name_matches_itself(name, value, k - 1);
        let prev = scan(pairs, name.take(k - 1));
        let c = name[k - 1];
        assert(name.take(k).drop_last() =~= name.take(k - 1));
        assert(name.take(k).last() == c);
        assert(!completes(pairs[0].0, prev.lens[0], c));
        assert(first_complete(pairs, prev.lens, c, 1) is None);
        assert(first_complete(pairs, prev.lens, c, 0) is None);
        let next = scan_step(pairs, prev, c);
        assert(next.lens =~= seq![k as nat]);
        assert(next.out =~= name.take(k));
    }
}

proof fn lemma_shadowed_scan(p: Seq<Pair>, i: int, j: int, input: Seq<char>)
    requires
        0 <= i < p.len(),
        0 <= j < p.len(),
        p[i].0.len() > 0,
        is_proper_prefix(p[i].0, p[j].0),
    ensures
        scan(p.remove(j), input).out == scan(p, input).out,
        scan(p.remove(j), input).lens == scan(p, input).lens.remove(j),
        scan(p, input).lens[j] == scan(p, input).lens[i],
    decreases input.len(),
{
    let q = p.remove(j);
    lemma_scan_wf(p, input);
    lemma_scan_wf(q, input);
    if input.len() == 0 {
        assert(scan(q, input).lens =~= scan(p, input).lens.remove(j));
    } else {
        let head = input.drop_last();
        let c = input.last();
        let sp = scan(p, head);
        let sq = scan(q, head);
        lemma_shadowed_scan(p, i, j, head);
        lemma_scan_wf(p, head);
        lemma_scan_wf(q, head);
        lemma_first_complete(p, sp.lens, c, 0);
        lemma_first_complete(q, sq.lens, c, 0);
        let short = p[i].0;
        let long = p[j].0;
        let l = sp.lens[i];
        assert(sp.lens[j] == l);
        assert(l == 0 || l < short.len());
        assert(l < short.len());
        assert(long.take(short.len() as int)[l as int] == long[l as int]);
        assert(!completes(long, l, c));
        assert(advance(long, l, c) == advance(short, l, c));
        assert forall|m: int| 0 <= m < q.len() implies #[trigger] q[m] == p[if m < j {
            m
        } else {
            m + 1
        }] && sq.lens[m] == sp.lens[if m < j {
            m
        } else {
            m + 1
        }] by {}
        match first_complete(p, sp.lens, c, 0) {
            Some(m) => {
                let m1 = if m < j {
                    m
                } else {
                    m - 1
                };
                assert(q[m1] == p[m]);
                assert(completes(q[m1].0, sq.lens[m1], c));
                let x = first_complete(q, sq.lens, c, 0)->0;
                let x1 = if x < j {
                    x
                } else {
                    x + 1
                };
                assert(q[x] == p[x1]);
                assert(completes(p[x1].0, sp.lens[x1], c));
                assert(x == m1);
                assert(scan(q, input).lens =~= scan(p, input).lens.remove(j));
            },
            None => {
                assert forall|m: int| 0 <= m < q.len() implies !completes(
                    #[trigger] q[m].0,
                    sq.lens[m],
                    c,
                ) by {
                    let m1 = if m < j {
                        m
                    } else {
                        m + 1
                    };
                    assert(q[m] == p[m1]);
                    assert(!completes(p[m1].0, sp.lens[m1], c));
                }
                assert(scan(q, input).lens =~= scan(p, input).lens.remove(j));
            },
        }
    }
}

/// Where one name is the beginning of a longer one, the shorter always
/// completes first and sends every candidate back to idle, so the longer name
/// is never replaced: the scan gives the same result without it.
pub proof fn lemma_longer_name_is_shadowed(p: Seq<Pair>, i: int, j: int, input: Seq<char>)
    requires
        0 <= i < p.len(),
        0 <= j < p.len(),
        p[i].0.len() > 0,
        is_proper_prefix(p[i].0, p[j].0),
    ensures
        substituted(p, input) == substituted(p.remove(j), input),
{
    lemma_shadowed_scan(p, i, j, input);
}

/// The first candidate that a character completes wins: its name is cut from
/// the end of the output, its value stands there instead, and every candidate
/// is idle afterwards.
pub proof fn lemma_first_to_complete_wins(pairs: Seq<Pair>, st: Scan, c: char, i: int)
    requires
        scan_wf(pairs, st),
        0 <= i < pairs.len(),
        completes(pairs[i].0, st.lens[i], c),
        forall|j: int| 0 <= j < i ==> !completes(#[trigger] pairs[j].0, st.lens[j], c),
    ensures
        scan_step(pairs, st, c).lens == idle(pairs.len()),
        scan_step(pairs, st, c).out == st.out.take(st.out.len() - st.lens[i]) + pairs[i].1,
{
    lemma_first_complete(pairs, st.lens, c, 0);
    assert(first_complete(pairs, st.lens, c, 0) == Some(i));
    assert(st.lens[i] <= st.out.len());
    assert(st.out.push(c).take(st.out.len() + 1 - pairs[i].0.len()) =~= st.out.take(
        st.out.len() - st.lens[i],
    ));
}

} // verus!
