//! Text as sequences of characters: the conversions between `str`, `String`
//! and `Vec<char>`, and the searches and splits the rest of the crate is
//! built on.

use vstd::prelude::*;

verus! {

/// Appends one character to a string.
///
/// Trusted: stands for `String::push`, which adds `c` at the end and leaves
/// the characters before it as they were.
#[verifier::external_body]
pub(crate) fn push_char(s: &mut String, c: char)
    ensures
        final(s)@ == old(s)@.push(c),
{
    s.push(c)
}

/// The characters of `s`, in order.
pub fn to_chars(s: &str) -> (out: Vec<char>)
    ensures
        out@ == s@,
{
    let mut out: Vec<char> = Vec::new();
    for c in it: s.chars()
        invariant
            it.seq() == s@,
            out@ == it.seq().take(it.index()),
    {
        out.push(c);
        assert(it.seq().take(it.index() + 1) =~= it.seq().take(it.index()).push(c));
    }
    assert(s@.take(s@.len() as int) =~= s@);
    out
}

/// The string made of the characters `v[from..to]`.
pub fn from_chars(v: &Vec<char>, from: usize, to: usize) -> (out: String)
    requires
        from <= to <= v.len(),
    ensures
        out@ == v@.subrange(from as int, to as int),
{
    let mut out = String::new();
    let mut i: usize = from;
    while i < to
        invariant
            from <= i <= to <= v.len(),
            out@ == v@.subrange(from as int, i as int),
        decreases to - i,
    {
        push_char(&mut out, v[i]);
        i += 1;
        assert(v@.subrange(from as int, i as int) =~= v@.subrange(from as int, i - 1).push(
            v@[i - 1],
        ));
    }
    out
}

/// The string made of the characters of `v`.
pub fn string_of(v: &Vec<char>) -> (out: String)
    ensures
        out@ == v@,
{
    assert(v@.subrange(0, v@.len() as int) =~= v@);
    from_chars(v, 0, v.len())
}

/// A copy of the characters `v[from..to]`.
pub fn slice_of(v: &Vec<char>, from: usize, to: usize) -> (out: Vec<char>)
    requires
        from <= to <= v.len(),
    ensures
        out@ == v@.subrange(from as int, to as int),
{
    let mut out: Vec<char> = Vec::new();
    let mut i: usize = from;
    while i < to
        invariant
            from <= i <= to <= v.len(),
            out@ == v@.subrange(from as int, i as int),
        decreases to - i,
    {
        out.push(v[i]);
        i += 1;
        assert(v@.subrange(from as int, i as int) =~= v@.subrange(from as int, i - 1).push(
            v@[i - 1],
        ));
    }
    out
}

/// Appends the characters of `tail` to `v`.
pub fn extend_chars(v: &mut Vec<char>, tail: &Vec<char>)
    ensures
        final(v)@ == old(v)@ + tail@,
{
    let mut i: usize = 0;
    while i < tail.len()
        invariant
            i <= tail.len(),
            v@ == old(v)@ + tail@.take(i as int),
        decreases tail.len() - i,
    {
        v.push(tail[i]);
        i += 1;
        assert(tail@.take(i as int) =~= tail@.take(i - 1).push(tail@[i - 1]));
    }
    assert(tail@.take(i as int) =~= tail@);
}

/// Appends the characters of the string `tail` to `v`.
pub fn extend_str(v: &mut Vec<char>, tail: &str)
    ensures
        final(v)@ == old(v)@ + tail@,
{
    let t = to_chars(tail);
    extend_chars(v, &t);
}

/// Whether two texts hold the same characters.
pub fn same_chars(a: &Vec<char>, b: &Vec<char>) -> (r: bool)
    ensures
        r == (a@ == b@),
{
    if a.len() != b.len() {
        return false;
    }
    let mut i: usize = 0;
    while i < a.len()
        invariant
            i <= a.len(),
            a.len() == b.len(),
            forall|j: int| 0 <= j < i ==> a@[j] == b@[j],
        decreases a.len() - i,
    {
        if a[i] != b[i] {
            return false;
        }
        i += 1;
    }
    assert(a@ =~= b@);
    true
}

/// Whether `a` holds exactly the characters of the string `word`.
pub fn is_word(a: &Vec<char>, word: &str) -> (r: bool)
    ensures
        r == (a@ == word@),
{
    let w = to_chars(word);
    same_chars(a, &w)
}

/// Whether `s` begins with `p`.
pub open spec fn begins_with(s: Seq<char>, p: Seq<char>) -> bool {
    p.len() <= s.len() && s.take(p.len() as int) == p
}

/// Whether `s` begins with the characters of `p`.
pub fn starts_with(s: &Vec<char>, p: &Vec<char>) -> (r: bool)
    ensures
        r == begins_with(s@, p@),
{
    if p.len() > s.len() {
        return false;
    }
    let mut i: usize = 0;
    while i < p.len()
        invariant
            i <= p.len() <= s.len(),
            forall|j: int| 0 <= j < i ==> s@[j] == p@[j],
        decreases p.len() - i,
    {
        if s[i] != p[i] {
            assert(s@.take(p@.len() as int)[i as int] != p@[i as int]);
            return false;
        }
        i += 1;
    }
    assert(s@.take(p@.len() as int) =~= p@);
    true
}

/// The first position at or after `from` where `s` holds `c`.
pub open spec fn index_from(s: Seq<char>, c: char, from: int) -> Option<int>
    decreases s.len() - from,
{
    if from < 0 || from >= s.len() {
        None
    } else if s[from] == c {
        Some(from)
    } else {
        index_from(s, c, from + 1)
    }
}

/// `index_from` gives the least position at or after `from` that holds `c`.
pub proof fn lemma_index_from(s: Seq<char>, c: char, from: int)
    requires
        0 <= from,
    ensures
        match index_from(s, c, from) {
            Some(i) => from <= i < s.len() && s[i] == c && forall|j: int|
                from <= j < i ==> s[j] != c,
            None => forall|j: int| from <= j < s.len() ==> s[j] != c,
        },
    decreases s.len() - from,
{
    if from < s.len() && s[from] != c {
        lemma_index_from(s, c, from + 1);
    }
}

/// The first position of `c` in `s`.
pub fn first_index(s: &Vec<char>, c: char) -> (r: Option<usize>)
    ensures
        match r {
            Some(i) => i < s.len() && index_from(s@, c, 0) == Some(i as int),
            None => index_from(s@, c, 0) is None,
        },
{
    let mut i: usize = 0;
    while i < s.len()
        invariant
            i <= s.len(),
            index_from(s@, c, 0) == index_from(s@, c, i as int),
        decreases s.len() - i,
    {
        if s[i] == c {
            return Some(i);
        }
        i += 1;
    }
    None
}

/// `s` split at its first `c`: what stands before it and what stands after.
pub open spec fn split_first(s: Seq<char>, c: char) -> Option<(Seq<char>, Seq<char>)> {
    match index_from(s, c, 0) {
        Some(i) => Some((s.take(i), s.skip(i + 1))),
        None => None,
    }
}

/// Splits `s` at its first `c`. `None` where `s` holds no `c`.
pub fn split_once(s: &Vec<char>, c: char) -> (r: Option<(Vec<char>, Vec<char>)>)
    ensures
        match r {
            Some((a, b)) => split_first(s@, c) == Some((a@, b@)),
            None => split_first(s@, c) is None,
        },
{
    match first_index(s, c) {
        Some(i) => {
            proof {
                lemma_index_from(s@, c, 0);
            }
            let a = slice_of(s, 0, i);
            let b = slice_of(s, i + 1, s.len());
            assert(s@.take(i as int) =~= s@.subrange(0, i as int));
            assert(s@.skip(i + 1) =~= s@.subrange(i + 1, s@.len() as int));
            Some((a, b))
        },
        None => None,
    }
}

/// Whether `s` does not hold `c`.
pub open spec fn no_char(s: Seq<char>, c: char) -> bool {
    forall|j: int| 0 <= j < s.len() ==> s[j] != c
}

/// A text without `c`, then `c`, then any text is split at that `c`.
pub proof fn lemma_split_joined(before: Seq<char>, c: char, after: Seq<char>)
    requires
        no_char(before, c),
    ensures
        split_first(before + seq![c] + after, c) == Some((before, after)),
{
    let s = before + seq![c] + after;
    lemma_index_from(s, c, 0);
    assert(s[before.len() as int] == c);
    match index_from(s, c, 0) {
        Some(i) => {
            if i < before.len() {
                assert(s[i] == before[i]);
            }
            assert(i == before.len());
            assert(s.take(i) =~= before);
            assert(s.skip(i + 1) =~= after);
        },
        None => {},
    }
}

/// A text without `c` is not split at `c`.
pub proof fn lemma_not_split(s: Seq<char>, c: char)
    requires
        no_char(s, c),
    ensures
        split_first(s, c) is None,
{
    lemma_index_from(s, c, 0);
}

/// What stands before the split of a text does not hold the character at
/// which it was split.
pub proof fn lemma_split_no_char(s: Seq<char>, c: char)
    ensures
        split_first(s, c) matches Some((a, b)) ==> no_char(a, c),
        split_first(s, c) is None ==> no_char(s, c),
{
    lemma_index_from(s, c, 0);
}

/// The word before the first space of `line`, or the whole line.
pub open spec fn head_word(line: Seq<char>) -> Seq<char> {
    match split_first(line, ' ') {
        Some((a, b)) => a,
        None => line,
    }
}

/// What follows the first space of `line`, or nothing.
pub open spec fn after_word(line: Seq<char>) -> Seq<char> {
    match split_first(line, ' ') {
        Some((a, b)) => b,
        None => Seq::empty(),
    }
}

/// Splits a line into its first word and the rest.
pub fn split_word(line: &Vec<char>) -> (r: (Vec<char>, Vec<char>))
    ensures
        r.0@ == head_word(line@),
        r.1@ == after_word(line@),
{
    match split_once(line, ' ') {
        Some((a, b)) => (a, b),
        None => {
            assert(line@.subrange(0, line@.len() as int) =~= line@);
            (slice_of(line, 0, line.len()), Vec::new())
        },
    }
}

/// Whether a character is white space.
pub open spec fn is_space(c: char) -> bool {
    ||| '\u{9}' <= c <= '\u{d}'
    ||| c == ' '
    ||| c == '\u{85}'
    ||| c == '\u{a0}'
    ||| c == '\u{1680}'
    ||| '\u{2000}' <= c <= '\u{200a}'
    ||| c == '\u{2028}'
    ||| c == '\u{2029}'
    ||| c == '\u{202f}'
    ||| c == '\u{205f}'
    ||| c == '\u{3000}'
}

/// Whether a character is white space.
pub fn is_whitespace(c: char) -> (r: bool)
    ensures
        r == is_space(c),
{
    ('\u{9}' <= c && c <= '\u{d}') || c == ' ' || c == '\u{85}' || c == '\u{a0}' || c
        == '\u{1680}' || ('\u{2000}' <= c && c <= '\u{200a}') || c == '\u{2028}' || c
        == '\u{2029}' || c == '\u{202f}' || c == '\u{205f}' || c == '\u{3000}'
}

/// `s` without the white space at its beginning.
pub open spec fn trimmed_start(s: Seq<char>) -> Seq<char>
    decreases s.len(),
{
    if s.len() > 0 && is_space(s[0]) {
        trimmed_start(s.drop_first())
    } else {
        s
    }
}

/// `s` without the white space at its end.
pub open spec fn trimmed_end(s: Seq<char>) -> Seq<char>
    decreases s.len(),
{
    if s.len() > 0 && is_space(s.last()) {
        trimmed_end(s.drop_last())
    } else {
        s
    }
}

/// `s` without the white space at its beginning and at its end.
pub open spec fn trimmed(s: Seq<char>) -> Seq<char> {
    trimmed_end(trimmed_start(s))
}

/// Removes the white space at the beginning and at the end of `s`.
pub fn trim(s: &Vec<char>) -> (out: Vec<char>)
    ensures
        out@ == trimmed(s@),
{
    let mut from: usize = 0;
    assert(s@.skip(0) =~= s@);
    while from < s.len() && is_whitespace(s[from])
        invariant
            from <= s.len(),
            trimmed_start(s@) == trimmed_start(s@.skip(from as int)),
        decreases s.len() - from,
    {
        assert(s@.skip(from as int)[0] == s@[from as int]);
        assert(s@.skip(from as int).drop_first() =~= s@.skip(from + 1));
        from += 1;
    }
    proof {
        if from < s.len() {
            assert(s@.skip(from as int)[0] == s@[from as int]);
        }
    }
    let ghost body = s@.skip(from as int);
    assert(trimmed_start(s@) == body);
    let mut to: usize = s.len();
    assert(body.take(body.len() as int) =~= body);
    while to > from && is_whitespace(s[to - 1])
        invariant
            from <= to <= s.len(),
            body == s@.skip(from as int),
            trimmed_end(body) == trimmed_end(body.take(to - from)),
        decreases to,
    {
        assert(body.take(to - from).last() == s@[to - 1]);
        assert(body.take(to - from).drop_last() =~= body.take(to - from - 1));
        to -= 1;
    }
    proof {
        if to > from {
            assert(body.take(to - from).last() == s@[to - 1]);
        }
        assert(body.take(to - from) =~= s@.subrange(from as int, to as int));
    }
    slice_of(s, from, to)
}

/// `s` without one line feed at its end.
pub open spec fn without_newline(s: Seq<char>) -> Seq<char> {
    if s.len() > 0 && s.last() == '\n' {
        s.drop_last()
    } else {
        s
    }
}

/// Removes one line feed from the end of `s`.
pub fn trim_end_newline(s: &Vec<char>) -> (out: Vec<char>)
    ensures
        out@ == without_newline(s@),
{
    if s.len() > 0 && s[s.len() - 1] == '\n' {
        assert(s@.drop_last() =~= s@.subrange(0, s@.len() - 1));
        slice_of(s, 0, s.len() - 1)
    } else {
        assert(s@ =~= s@.subrange(0, s@.len() as int));
        slice_of(s, 0, s.len())
    }
}

} // verus!
