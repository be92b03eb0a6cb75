//! Numbers in decimal notation: how they are written and how they are read.

use vstd::prelude::*;

verus! {

/// The character of the decimal digit `d`.
pub open spec fn digit_char(d: int) -> char {
    if d == 0 {
        '0'
    } else if d == 1 {
        '1'
    } else if d == 2 {
        '2'
    } else if d == 3 {
        '3'
    } else if d == 4 {
        '4'
    } else if d == 5 {
        '5'
    } else if d == 6 {
        '6'
    } else if d == 7 {
        '7'
    } else if d == 8 {
        '8'
    } else {
        '9'
    }
}

/// The value of a decimal digit, `None` for any other character.
pub open spec fn digit_value(c: char) -> Option<int> {
    if c == '0' {
        Some(0)
    } else if c == '1' {
        Some(1)
    } else if c == '2' {
        Some(2)
    } else if c == '3' {
        Some(3)
    } else if c == '4' {
        Some(4)
    } else if c == '5' {
        Some(5)
    } else if c == '6' {
        Some(6)
    } else if c == '7' {
        Some(7)
    } else if c == '8' {
        Some(8)
    } else if c == '9' {
        Some(9)
    } else {
        None
    }
}

/// `n` in decimal, without sign or leading zeros.
pub open spec fn decimal_digits(n: nat) -> Seq<char>
    decreases n,
{
    if n < 10 {
        seq![digit_char(n as int)]
    } else {
        decimal_digits(n / 10).push(digit_char((n % 10) as int))
    }
}

/// The number that a non-empty run of decimal digits denotes. `None` where
/// `s` is empty or holds anything but digits.
pub open spec fn digits_value(s: Seq<char>) -> Option<nat>
    decreases s.len(),
{
    if s.len() == 0 {
        None
    } else {
        match digit_value(s.last()) {
            None => None,
            Some(d) => if s.len() == 1 {
                Some(d as nat)
            } else {
                match digits_value(s.drop_last()) {
                    None => None,
                    Some(v) => Some(v * 10 + d as nat),
                }
            },
        }
    }
}

/// The number that `s` denotes as an unsigned integer of at most `max`: an
/// optional `+`, then one or more decimal digits. `None` for anything else
/// and for a number above `max`.
pub open spec fn number_value(s: Seq<char>, max: nat) -> Option<nat> {
    let body = if s.len() > 0 && s[0] == '+' {
        s.skip(1)
    } else {
        s
    };
    match digits_value(body) {
        Some(v) => if v <= max {
            Some(v)
        } else {
            None
        },
        None => None,
    }
}

fn digit_of(d: u8) -> (c: char)
    requires
        d < 10,
    ensures
        c == digit_char(d as int),
{
    if d == 0 {
        '0'
    } else if d == 1 {
        '1'
    } else if d == 2 {
        '2'
    } else if d == 3 {
        '3'
    } else if d == 4 {
        '4'
    } else if d == 5 {
        '5'
    } else if d == 6 {
        '6'
    } else if d == 7 {
        '7'
    } else if d == 8 {
        '8'
    } else {
        '9'
    }
}

fn value_of(c: char) -> (r: Option<u8>)
    ensures
        match r {
            Some(d) => d < 10 && digit_value(c) == Some(d as int),
            None => digit_value(c) is None,
        },
{
    if c == '0' {
        Some(0)
    } else if c == '1' {
        Some(1)
    } else if c == '2' {
        Some(2)
    } else if c == '3' {
        Some(3)
    } else if c == '4' {
        Some(4)
    } else if c == '5' {
        Some(5)
    } else if c == '6' {
        Some(6)
    } else if c == '7' {
        Some(7)
    } else if c == '8' {
        Some(8)
    } else if c == '9' {
        Some(9)
    } else {
        None
    }
}

/// Writes `n` in decimal.
pub fn decimal(n: u128) -> (out: Vec<char>)
    ensures
        out@ == decimal_digits(n as nat),
    decreases n,
{
    if n < 10 {
        let mut out: Vec<char> = Vec::new();
        out.push(digit_of(n as u8));
        assert(out@ =~= seq![digit_char(n as int)]);
        out
    } else {
        let mut out = decimal(n / 10);
        out.push(digit_of((n % 10) as u8));
        out
    }
}

/// A run of digits that holds a character which is no digit denotes nothing.
pub proof fn lemma_non_digit(s: Seq<char>, i: int)
    requires
        0 <= i < s.len(),
        digit_value(s[i]) is None,
    ensures
        digits_value(s) is None,
    decreases s.len(),
{
    if i < s.len() - 1 {
        lemma_non_digit(s.drop_last(), i);
    }
}

/// The number a run of digits denotes is at least what any non-empty
/// beginning of it denotes.
pub proof fn lemma_prefix_value(s: Seq<char>, k: int)
    requires
        1 <= k <= s.len(),
        digits_value(s) is Some,
    ensures
        digits_value(s.take(k)) is Some,
        digits_value(s.take(k))->0 <= digits_value(s)->0,
    decreases s.len(),
{
    if k == s.len() {
        assert(s.take(k) =~= s);
    } else {
        assert(s.drop_last().take(k) =~= s.take(k));
        lemma_prefix_value(s.drop_last(), k);
    }
}

/// The digits of a number hold digits alone and denote the number.
pub proof fn lemma_digits(n: nat)
    ensures
        decimal_digits(n).len() > 0,
        forall|j: int|
            0 <= j < decimal_digits(n).len() ==> digit_value(#[trigger] decimal_digits(n)[j])
                is Some,
        digits_value(decimal_digits(n)) == Some(n),
    decreases n,
{
    let s = decimal_digits(n);
    if n < 10 {
        assert(s =~= seq![digit_char(n as int)]);
        assert(s.last() == digit_char(n as int));
    } else {
        lemma_digits(n / 10);
        let head = decimal_digits(n / 10);
        assert(s.drop_last() =~= head);
        assert(s.last() == digit_char((n % 10) as int));
        assert forall|j: int| 0 <= j < s.len() implies digit_value(#[trigger] s[j]) is Some by {
            if j < head.len() {
                assert(s[j] == head[j]);
            }
        }
    }
}

/// A number written in decimal is read as that number.
pub proof fn lemma_number_round_trip(n: nat, max: nat)
    requires
        n <= max,
    ensures
        number_value(decimal_digits(n), max) == Some(n),
{
    lemma_digits(n);
    let s = decimal_digits(n);
    assert(digit_value(s[0]) is Some);
    assert(s[0] != '+');
}

/// Reads `s` as an unsigned decimal number of at most `max`.
pub fn parse_number(s: &Vec<char>, max: u128) -> (r: Option<u128>)
    ensures
        match r {
            Some(v) => number_value(s@, max as nat) == Some(v as nat),
            None => number_value(s@, max as nat) is None,
        },
{
    let start: usize = if s.len() > 0 && s[0] == '+' {
        1
    } else {
        0
    };
    let ghost body = s@.skip(start as int);
    assert(s@.skip(0) =~= s@);
    assert(body == if s@.len() > 0 && s@[0] == '+' {
        s@.skip(1)
    } else {
        s@
    });
    if start == s.len() {
        return None;
    }
    let mut acc: u128 = 0;
    let mut i: usize = start;
    while i < s.len()
        invariant
            start <= i <= s.len(),
            start < s.len(),
            body == s@.skip(start as int),
            body == if s@.len() > 0 && s@[0] == '+' {
                s@.skip(1)
            } else {
                s@
            },
            acc <= max,
            i > start ==> digits_value(body.take(i - start)) == Some(acc as nat),
            i == start ==> acc == 0,
        decreases s.len() - i,
    {
        let ghost k = i - start;
        assert(body[k] == s@[i as int]);
        match value_of(s[i]) {
            None => {
                proof {
                    lemma_non_digit(body, k);
                }
                return None;
            },
            Some(d) => {
                proof {
                    assert(body.take(k + 1).drop_last() =~= body.take(k));
                    assert(body.take(k + 1).last() == s@[i as int]);
                }
                if max < d as u128 || acc > (max - d as u128) / 10 {
                    proof {
                        if digits_value(body) is Some {
                            lemma_prefix_value(body, k + 1);
                            assert(digits_value(body.take(k + 1))->0 > max) by (nonlinear_arith)
                                requires
                                    digits_value(body.take(k + 1))->0 == (if k == 0 {
                                        d as nat
                                    } else {
                                        acc as nat * 10 + d as nat
                                    }),
                                    acc > (max - d) / 10 || max < d,
                                    k == 0 ==> acc == 0,
                                    d < 10,
                            {
                            }
                        }
                    }
                    return None;
                }
                acc = acc * 10 + d as u128;
                i += 1;
            },
        }
    }
    assert(body.take(i - start) =~= body);
    Some(acc)
}

} // verus!
