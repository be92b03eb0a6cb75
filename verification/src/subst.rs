//! The substitution engine: one forward scan over a text that replaces every
//! completed variable name by its value.
//!
//! Each candidate `(name, value)` keeps the number of characters of its name
//! that the most recent input characters have matched. A candidate advances
//! on a matching character and falls back to zero on any other. When a
//! candidate has matched its whole name, the name is taken off the end of the
//! output, the value is put there instead, and every candidate starts again
//! from zero. Inserted values are never scanned.

use vstd::prelude::*;
use crate::text::{from_chars, to_chars};

verus! {

/// A candidate of the scan: a variable name and the value that replaces it.
pub type Pair = (Seq<char>, Seq<char>);

/// The state of a scan: the output so far and, for each candidate, how many
/// characters of its name are currently matched.
pub struct Scan {
    pub out: Seq<char>,
    pub lens: Seq<nat>,
}

/// The match length of a candidate after it has seen `c`.
pub open spec fn advance(name: Seq<char>, len: nat, c: char) -> nat {
    if len < name.len() && name[len as int] == c {
        len + 1
    } else {
        0
    }
}

/// Whether seeing `c` completes the candidate's name. A candidate with an
/// empty name never completes.
pub open spec fn completes(name: Seq<char>, len: nat, c: char) -> bool {
    len < name.len() && name[len as int] == c && len + 1 == name.len()
}

/// The first candidate at or after `from`, in list order, that `c` completes.
pub open spec fn first_complete(pairs: Seq<Pair>, lens: Seq<nat>, c: char, from: int) -> Option<int>
    decreases pairs.len() - from,
{
    if from < 0 || from >= pairs.len() {
        None
    } else if completes(pairs[from].0, lens[from], c) {
        Some(from)
    } else {
        first_complete(pairs, lens, c, from + 1)
    }
}

/// `n` match lengths, all zero.
pub open spec fn idle(n: nat) -> Seq<nat> {
    Seq::new(n, |i: int| 0nat)
}

/// The state before any input.
pub open spec fn scan_start(pairs: Seq<Pair>) -> Scan {
    Scan { out: Seq::empty(), lens: idle(pairs.len()) }
}

/// One step of the scan. The character goes to the output. If it completes a
/// candidate, the first such candidate in list order wins: its name leaves
/// the end of the output, its value is appended, and all candidates are idle
/// again. Otherwise every candidate advances or falls back on its own.
pub open spec fn scan_step(pairs: Seq<Pair>, st: Scan, c: char) -> Scan {
    match first_complete(pairs, st.lens, c, 0) {
        Some(i) => Scan {
            out: st.out.push(c).take(st.out.len() + 1 - pairs[i].0.len()) + pairs[i].1,
            lens: idle(pairs.len()),
        },
        None => Scan {
            out: st.out.push(c),
            lens: Seq::new(pairs.len(), |i: int| advance(pairs[i].0, st.lens[i], c)),
        },
    }
}

/// The state after scanning all of `input`, from the left.
pub open spec fn scan(pairs: Seq<Pair>, input: Seq<char>) -> Scan
    decreases input.len(),
{
    if input.len() == 0 {
        scan_start(pairs)
    } else {
        scan_step(pairs, scan(pairs, input.drop_last()), input.last())
    }
}

/// `input` with every completed variable name replaced by its value.
pub open spec fn substituted(pairs: Seq<Pair>, input: Seq<char>) -> Seq<char> {
    scan(pairs, input).out
}

/// What holds of every state that a scan reaches: one match length per
/// candidate, each short of its name and no longer than the output.
pub open spec fn scan_wf(pairs: Seq<Pair>, st: Scan) -> bool {
    &&& st.lens.len() == pairs.len()
    &&& forall|i: int|
        0 <= i < pairs.len() ==> {
            &&& #[trigger] st.lens[i] <= st.out.len()
            &&& (st.lens[i] == 0 || st.lens[i] < pairs[i].0.len())
        }
}

/// `first_complete` returns the least completing index at or after `from`.
pub proof fn lemma_first_complete(pairs: Seq<Pair>, lens: Seq<nat>, c: char, from: int)
    requires
        0 <= from,
    ensures
        match first_complete(pairs, lens, c, from) {
            Some(i) => {
                &&& from <= i < pairs.len()
                &&& completes(pairs[i].0, lens[i], c)
                &&& forall|j: int| from <= j < i ==> !completes(#[trigger] pairs[j].0, lens[j], c)
            },
            None => forall|j: int|
                from <= j < pairs.len() ==> !completes(#[trigger] pairs[j].0, lens[j], c),
        },
    decreases pairs.len() - from,
{
    if from < pairs.len() && !completes(pairs[from].0, lens[from], c) {
        lemma_first_complete(pairs, lens, c, from + 1);
    }
}

/// A step keeps a well-formed state well-formed.
pub proof fn lemma_step_wf(pairs: Seq<Pair>, st: Scan, c: char)
    requires
        scan_wf(pairs, st),
    ensures
        scan_wf(pairs, scan_step(pairs, st, c)),
{
    lemma_first_complete(pairs, st.lens, c, 0);
    let next = scan_step(pairs, st, c);
    assert forall|i: int| 0 <= i < pairs.len() implies {
        &&& #[trigger] next.lens[i] <= next.out.len()
        &&& (next.lens[i] == 0 || next.lens[i] < pairs[i].0.len())
    } by {
        assert(st.lens[i] <= st.out.len());
    }
}

/// Every state a scan reaches is well-formed.
pub proof fn lemma_scan_wf(pairs: Seq<Pair>, input: Seq<char>)
    ensures
        scan_wf(pairs, scan(pairs, input)),
    decreases input.len(),
{
    if input.len() > 0 {
        lemma_scan_wf(pairs, input.drop_last());
        lemma_step_wf(pairs, scan(pairs, input.drop_last()), input.last());
    }
}

/// The candidates as the scan sees them.
pub open spec fn pairs_view(pairs: Seq<(String, String)>) -> Seq<Pair> {
    Seq::new(pairs.len(), |i: int| (pairs[i].0@, pairs[i].1@))
}

/// Replaces, in one pass over `input`, every completed name of `pairs` by its
/// value.
pub fn substitute(pairs: &Vec<(String, String)>, input: &str) -> (out: String)
    ensures
        out@ == substituted(pairs_view(pairs@), input@),
{
    let ghost pv = pairs_view(pairs@);
    let n = pairs.len();
    let mut names: Vec<Vec<char>> = Vec::new();
    let mut values: Vec<Vec<char>> = Vec::new();
    let mut lens: Vec<usize> = Vec::new();
    let mut i: usize = 0;
    while i < n
        invariant
            i <= n,
            n == pairs.len(),
            pv == pairs_view(pairs@),
            names.len() == i,
            values.len() == i,
            lens.len() == i,
            forall|j: int|
                0 <= j < i ==> {
                    &&& (#[trigger] names@[j])@ == pv[j].0
                    &&& values@[j]@ == pv[j].1
                },
            forall|j: int| 0 <= j < i ==> #[trigger] lens@[j] == 0,
        decreases n - i,
    {
        names.push(to_chars(pairs[i].0.as_str()));
        values.push(to_chars(pairs[i].1.as_str()));
        lens.push(0);
        i += 1;
    }
    let text = to_chars(input);
    let mut out: Vec<char> = Vec::new();
    let mut k: usize = 0;
    proof {
        assert(text@.take(0).len() == 0);
        assert(scan(pv, text@.take(0)).lens =~= Seq::new(n as nat, |j: int| lens@[j] as nat));
    }
    while k < text.len()
        invariant
            k <= text.len(),
            n == pv.len(),
            names.len() == n,
            values.len() == n,
            lens.len() == n,
            forall|j: int|
                0 <= j < n ==> {
                    &&& (#[trigger] names@[j])@ == pv[j].0
                    &&& values@[j]@ == pv[j].1
                },
            out@ == scan(pv, text@.take(k as int)).out,
            scan(pv, text@.take(k as int)).lens =~= Seq::new(n as nat, |j: int| lens@[j] as nat),
        decreases text.len() - k,
    {
        let c = text[k];
        let ghost before = scan(pv, text@.take(k as int));
        proof {
            lemma_scan_wf(pv, text@.take(k as int));
            assert(text@.take(k + 1).drop_last() =~= text@.take(k as int));
            assert(text@.take(k + 1).last() == c);
            lemma_first_complete(pv, before.lens, c, 0);
        }
        out.push(c);
        let mut i: usize = 0;
        let mut fired = false;
        while i < n && !fired
            invariant
                i <= n,
                n == pv.len(),
                names.len() == n,
                values.len() == n,
                lens.len() == n,
                scan_wf(pv, before),
                forall|j: int|
                    0 <= j < n ==> {
                        &&& (#[trigger] names@[j])@ == pv[j].0
                        &&& values@[j]@ == pv[j].1
                    },
                !fired ==> out@ == before.out.push(c),
                !fired ==> forall|j: int|
                    0 <= j < i ==> !completes(#[trigger] pv[j].0, before.lens[j], c),
                !fired ==> forall|j: int|
                    0 <= j < n ==> #[trigger] lens@[j] as nat == if j < i {
                        advance(pv[j].0, before.lens[j], c)
                    } else {
                        before.lens[j]
                    },
                fired ==> out@ == scan_step(pv, before, c).out,
                fired ==> scan_step(pv, before, c).lens =~= Seq::new(
                    n as nat,
                    |j: int| lens@[j] as nat,
                ),
            decreases n - i, if fired { 0int } else { 1int },
        {
            let l = lens[i];
            assert(before.lens[i as int] == l);
            if l < names[i].len() && names[i][l] == c {
                if l + 1 == names[i].len() {
                    proof {
                        lemma_first_complete(pv, before.lens, c, 0);
                        assert(completes(pv[i as int].0, before.lens[i as int], c));
                        assert(first_complete(pv, before.lens, c, 0) == Some(i as int));
                    }
                    let keep = out.len() - names[i].len();
                    out.truncate(keep);
                    let ghost kept = out@;
                    let mut j: usize = 0;
                    while j < values[i].len()
                        invariant
                            i < n,
                            values.len() == n,
                            j <= values@[i as int].len(),
                            out@ == kept + values@[i as int]@.take(j as int),
                        decreases values@[i as int].len() - j,
                    {
                        out.push(values[i][j]);
                        j += 1;
                        assert(values@[i as int]@.take(j as int) =~= values@[i as int]@.take(j - 1).push(
                            values@[i as int]@[j - 1],
                        ));
                    }
                    assert(values@[i as int]@.take(j as int) =~= values@[i as int]@);
                    let mut j: usize = 0;
                    while j < n
                        invariant
                            j <= n,
                            lens.len() == n,
                            forall|t: int| 0 <= t < j ==> #[trigger] lens@[t] == 0,
                        decreases n - j,
                    {
                        lens.set(j, 0);
                        j += 1;
                    }
                    assert(before.out.push(c).take(keep as int) =~= before.out.push(c).subrange(
                        0,
                        keep as int,
                    ));
                    fired = true;
                } else {
                    lens.set(i, l + 1);
                    i += 1;
                }
            } else {
                lens.set(i, 0);
                i += 1;
            }
        }
        proof {
            if !fired {
                assert(first_complete(pv, before.lens, c, 0) is None);
            }
        }
        k += 1;
    }
    assert(text@.take(k as int) =~= text@);
    from_chars(&out, 0, out.len())
}

} // verus!
