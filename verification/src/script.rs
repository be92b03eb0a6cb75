//! Splitting an expression at the operator that stands first in it.

use vstd::prelude::*;
use vstd::string::StrSliceExecFns;
use crate::text::to_chars;

verus! {

/// Whether `needle` stands in `hay` at position `at`.
pub open spec fn occurs_at(hay: Seq<char>, needle: Seq<char>, at: int) -> bool {
    0 <= at && at + needle.len() <= hay.len() && hay.subrange(at, at + needle.len()) == needle
}

/// The first position at or after `from` where `needle` stands in `hay`.
pub open spec fn find_text(hay: Seq<char>, needle: Seq<char>, from: int) -> Option<int>
    decreases hay.len() + 1 - from,
{
    if from < 0 || from + needle.len() > hay.len() {
        None
    } else if occurs_at(hay, needle, from) {
        Some(from)
    } else {
        find_text(hay, needle, from + 1)
    }
}

/// `find_text` gives the least position at or after `from` where `needle`
/// stands.
pub proof fn lemma_find_text(hay: Seq<char>, needle: Seq<char>, from: int)
    requires
        0 <= from,
    ensures
        match find_text(hay, needle, from) {
            Some(i) => from <= i && occurs_at(hay, needle, i) && forall|j: int|
                from <= j < i ==> !occurs_at(hay, needle, j),
            None => forall|j: int| from <= j ==> !occurs_at(hay, needle, j),
        },
    decreases hay.len() + 1 - from,
{
    if from + needle.len() <= hay.len() && !occurs_at(hay, needle, from) {
        lemma_find_text(hay, needle, from + 1);
    }
}

fn stands_at(hay: &Vec<char>, needle: &Vec<char>, at: usize) -> (r: bool)
    requires
        at + needle.len() <= hay.len(),
    ensures
        r == occurs_at(hay@, needle@, at as int),
{
    let mut k: usize = 0;
    while k < needle.len()
        invariant
            k <= needle.len(),
            at + needle.len() <= hay.len(),
            forall|j: int| 0 <= j < k ==> hay@[at + j] == needle@[j],
        decreases needle.len() - k,
    {
        if hay[at + k] != needle[k] {
            assert(hay@.subrange(at as int, at + needle@.len())[k as int] != needle@[k as int]);
            return false;
        }
        k += 1;
    }
    assert(hay@.subrange(at as int, at + needle@.len()) =~= needle@);
    true
}

/// The first position where `needle` stands in `hay`.
pub fn find_chars(hay: &Vec<char>, needle: &Vec<char>) -> (r: Option<usize>)
    ensures
        match r {
            Some(i) => i + needle.len() <= hay.len() && find_text(hay@, needle@, 0) == Some(
                i as int,
            ),
            None => find_text(hay@, needle@, 0) is None,
        },
{
    if needle.len() > hay.len() {
        return None;
    }
    let last = hay.len() - needle.len();
    let mut i: usize = 0;
    loop
        invariant
            i <= last,
            last == hay.len() - needle.len(),
            needle.len() <= hay.len(),
            find_text(hay@, needle@, 0) == find_text(hay@, needle@, i as int),
        decreases last - i,
    {
        if stands_at(hay, needle, i) {
            return Some(i);
        }
        if i == last {
            return None;
        }
        i += 1;
    }
}

/// The texts of a list of string slices.
pub open spec fn operator_texts(operators: Seq<&str>) -> Seq<Seq<char>> {
    Seq::new(operators.len(), |k: int| operators[k]@)
}

/// Whether operator `id` stands first in `expr`, at position `at`: it occurs
/// there and not before, inside the expression, no operator occurs before
/// `at`, and no operator listed before `id` first occurs at `at` itself.
pub open spec fn stands_first(expr: Seq<char>, operators: Seq<Seq<char>>, id: int, at: int) -> bool {
    &&& 0 <= id < operators.len()
    &&& 0 <= at < expr.len()
    &&& find_text(expr, operators[id], 0) == Some(at)
    &&& forall|k: int|
        0 <= k < operators.len() ==> match #[trigger] find_text(expr, operators[k], 0) {
            Some(j) => at <= j && (k < id ==> at < j),
            None => true,
        }
}

/// Whether no operator occurs inside `expr`.
pub open spec fn no_operator(expr: Seq<char>, operators: Seq<Seq<char>>) -> bool {
    forall|k: int|
        0 <= k < operators.len() ==> match #[trigger] find_text(expr, operators[k], 0) {
            Some(j) => j >= expr.len(),
            None => true,
        }
}

/// The operator that stands first among `operators[k..]`, or `best` where
/// none of them occurs before it: the position and the operator's place.
pub open spec fn first_operator(
    expr: Seq<char>,
    operators: Seq<Seq<char>>,
    k: int,
    best: Option<(int, int)>,
) -> Option<(int, int)>
    decreases operators.len() - k,
{
    if k < 0 || k >= operators.len() {
        best
    } else {
        let bound = match best {
            Some(b) => b.0,
            None => expr.len() as int,
        };
        match find_text(expr, operators[k], 0) {
            Some(i) => if i < bound {
                first_operator(expr, operators, k + 1, Some((i, k)))
            } else {
                first_operator(expr, operators, k + 1, best)
            },
            None => first_operator(expr, operators, k + 1, best),
        }
    }
}

/// Where `expr` is split: the position of the operator that stands first in
/// it, and the operator's place in `operators`.
pub open spec fn split_point(expr: Seq<char>, operators: Seq<Seq<char>>) -> Option<(int, int)> {
    first_operator(expr, operators, 0, None)
}

proof fn lemma_first_operator(
    expr: Seq<char>,
    operators: Seq<Seq<char>>,
    k: int,
    best: Option<(int, int)>,
)
    requires
        0 <= k <= operators.len(),
        match best {
            Some((at, id)) => 0 <= id < k && stands_first(expr, operators.take(k), id, at),
            None => no_operator(expr, operators.take(k)),
        },
    ensures
        match first_operator(expr, operators, k, best) {
            Some((at, id)) => stands_first(expr, operators, id, at),
            None => no_operator(expr, operators),
        },
    decreases operators.len() - k,
{
    if k >= operators.len() {
        assert(operators.take(k) =~= operators);
    } else {
        let bound = match best {
            Some(b) => b.0,
            None => expr.len() as int,
        };
        let seen = operators.take(k);
        let more = operators.take(k + 1);
        assert forall|j: int| 0 <= j < k implies #[trigger] more[j] == seen[j] by {}
        assert(more[k] == operators[k]);
        lemma_find_text(expr, operators[k], 0);
        let next = match find_text(expr, operators[k], 0) {
            Some(i) => if i < bound {
                Some((i, k))
            } else {
                best
            },
            None => best,
        };
        match next {
            Some((at, id)) => {
                assert forall|j: int| 0 <= j < more.len() implies match #[trigger] find_text(
                    expr,
                    more[j],
                    0,
                ) {
                    Some(i) => at <= i && (j < id ==> at < i),
                    None => true,
                } by {
                    if j < k {
                        assert(more[j] == seen[j]);
                        let _ = find_text(expr, seen[j], 0);
                    }
                }
                assert(stands_first(expr, more, id, at));
            },
            None => {
                assert forall|j: int| 0 <= j < more.len() implies match #[trigger] find_text(
                    expr,
                    more[j],
                    0,
                ) {
                    Some(i) => i >= expr.len(),
                    None => true,
                } by {
                    if j < k {
                        assert(more[j] == seen[j]);
                        let _ = find_text(expr, seen[j], 0);
                    }
                }
            },
        }
        lemma_first_operator(expr, operators, k + 1, next);
    }
}

/// The split point is the operator that stands first, if any operator
/// occurs inside the expression.
pub proof fn lemma_split_point(expr: Seq<char>, operators: Seq<Seq<char>>)
    ensures
        match split_point(expr, operators) {
            Some((at, id)) => stands_first(expr, operators, id, at),
            None => no_operator(expr, operators),
        },
{
    lemma_first_operator(expr, operators, 0, None);
}

/// Splits `expr` at the operator that stands first in it and returns what
/// stands left and right of that operator and the operator's place in
/// `operators`. Of two operators that first occur at the same position, the
/// one listed first is taken. `None` where no operator occurs in `expr`.
pub fn parse_expression_split_at_operator<'a>(expr: &'a str, operators: &[&str]) -> (r: Option<
    (&'a str, &'a str, usize),
>)
    ensures
        match split_point(expr@, operator_texts(operators@)) {
            Some((at, id)) => match r {
                Some((left, right, place)) => {
                    &&& left@ == expr@.take(at)
                    &&& right@ == expr@.skip(at + operators@[id]@.len())
                    &&& place == id
                },
                None => false,
            },
            None => r is None,
        },
{
    let hay = to_chars(expr);
    let ghost ops = operator_texts(operators@);
    let mut best: Option<(usize, usize)> = None;
    let mut operator_len: usize = 0;
    let mut k: usize = 0;
    while k < operators.len()
        invariant
            k <= operators.len(),
            hay@ == expr@,
            ops == operator_texts(operators@),
            match best {
                Some((at, id)) => {
                    &&& id < k
                    &&& at + operator_len <= hay.len()
                    &&& operator_len == ops[id as int].len()
                    &&& split_point(hay@, ops) == first_operator(
                        hay@,
                        ops,
                        k as int,
                        Some((at as int, id as int)),
                    )
                },
                None => split_point(hay@, ops) == first_operator(hay@, ops, k as int, None),
            },
        decreases operators.len() - k,
    {
        let needle = to_chars(operators[k]);
        assert(needle@ == ops[k as int]);
        let bound = match best {
            Some(b) => b.0,
            None => hay.len(),
        };
        match find_chars(&hay, &needle) {
            Some(i) => {
                if i < bound {
                    best = Some((i, k));
                    operator_len = needle.len();
                }
            },
            None => {},
        }
        k += 1;
    }
    match best {
        Some((at, id)) => {
            proof {
                assert(expr@.take(at as int) =~= expr@.subrange(0, at as int));
                assert(expr@.skip(at + operator_len) =~= expr@.subrange(
                    at + operator_len,
                    expr@.len() as int,
                ));
                assert(ops[id as int] == operators@[id as int]@);
            }
            let left = expr.substring_char(0, at);
            let right = expr.substring_char(at + operator_len, hay.len());
            Some((left, right, id))
        },
        None => None,
    }
}

} // verus!
