//! The authorization challenge: where the token of a run lies, which policy
//! file it takes its permissions from, and what the token must hold for the
//! run to be accepted.

use vstd::prelude::*;
use crate::number::{decimal, decimal_digits, digit_value, lemma_digits};
use crate::text::{extend_chars, extend_str, lemma_split_joined, no_char, string_of};

verus! {

/// The path of the token file of run `seq` of connection `con_id`.
pub open spec fn token_path_text(con_id: nat, seq: nat) -> Seq<char> {
    "/tmp/d26run-auth-"@ + decimal_digits(con_id) + "-"@ + decimal_digits(seq)
}

/// The path of the token file of run `seq` of connection `con_id`.
pub fn token_path(con_id: u128, seq: u64) -> (path: String)
    ensures
        path@ == token_path_text(con_id as nat, seq as nat),
{
    let mut buf: Vec<char> = Vec::new();
    extend_str(&mut buf, "/tmp/d26run-auth-");
    extend_chars(&mut buf, &decimal(con_id));
    extend_str(&mut buf, "-");
    extend_chars(&mut buf, &decimal(seq as u128));
    assert(buf@ =~= token_path_text(con_id as nat, seq as nat));
    string_of(&buf)
}

/// No two runs share a token file: the paths of two tokens are the same
/// only where the connection and the number of the run are.
pub proof fn lemma_token_paths_differ(con_a: nat, seq_a: nat, con_b: nat, seq_b: nat)
    requires
        token_path_text(con_a, seq_a) == token_path_text(con_b, seq_b),
    ensures
        con_a == con_b,
        seq_a == seq_b,
{
    let head = "/tmp/d26run-auth-"@;
    let dash = "-"@;
    reveal_strlit("-");
    assert(dash =~= seq!['-']);
    let a = decimal_digits(con_a) + dash + decimal_digits(seq_a);
    let b = decimal_digits(con_b) + dash + decimal_digits(seq_b);
    assert(token_path_text(con_a, seq_a) =~= head + a);
    assert(token_path_text(con_b, seq_b) =~= head + b);
    assert(a =~= (head + a).skip(head.len() as int));
    assert(b =~= (head + b).skip(head.len() as int));
    lemma_digits(con_a);
    lemma_digits(con_b);
    lemma_digits(seq_a);
    lemma_digits(seq_b);
    assert(no_char(decimal_digits(con_a), '-')) by {
        assert forall|j: int| 0 <= j < decimal_digits(con_a).len() implies decimal_digits(
            con_a,
        )[j] != '-' by {
            assert(digit_value(decimal_digits(con_a)[j]) is Some);
        }
    }
    assert(no_char(decimal_digits(con_b), '-')) by {
        assert forall|j: int| 0 <= j < decimal_digits(con_b).len() implies decimal_digits(
            con_b,
        )[j] != '-' by {
            assert(digit_value(decimal_digits(con_b)[j]) is Some);
        }
    }
    lemma_split_joined(decimal_digits(con_a), '-', decimal_digits(seq_a));
    lemma_split_joined(decimal_digits(con_b), '-', decimal_digits(seq_b));
}

/// The path of the policy file that a template names.
pub open spec fn policy_path_text(allow: Seq<char>) -> Seq<char> {
    "/etc/d26run/allow/"@ + allow
}

/// The path of the policy file that a template names.
pub fn policy_path(allow: &str) -> (path: String)
    ensures
        path@ == policy_path_text(allow@),
{
    let mut buf: Vec<char> = Vec::new();
    extend_str(&mut buf, "/etc/d26run/allow/");
    extend_str(&mut buf, allow);
    assert(buf@ =~= policy_path_text(allow@));
    string_of(&buf)
}

/// Whether a byte is white space: tab, line feed, vertical tab, form feed,
/// carriage return or space.
pub open spec fn is_blank(b: u8) -> bool {
    (9 <= b <= 13) || b == 32
}

/// How many bytes of a token file are read at most.
pub const TOKEN_HEAD: usize = 5;

/// The bytes of the word `auth`.
pub open spec fn auth_word() -> Seq<u8> {
    seq![97u8, 117u8, 116u8, 104u8]
}

/// Whether the content of a token file proves the client's right to run:
/// its first `TOKEN_HEAD` bytes, or all of it if it is shorter, are the word
/// `auth` with at most white space around it.
pub open spec fn proves(content: Seq<u8>) -> bool {
    let head = if content.len() > TOKEN_HEAD {
        content.take(TOKEN_HEAD as int)
    } else {
        content
    };
    ||| head == auth_word()
    ||| head.len() == 5 && is_blank(head[0]) && head.skip(1) == auth_word()
    ||| head.len() == 5 && is_blank(head[4]) && head.take(4) == auth_word()
}

/// What a client writes into the token file to prove its right to run: the
/// word `auth` and a line feed.
pub open spec fn token_text() -> Seq<u8> {
    auth_word().push(10u8)
}

/// The bytes that a client writes into the token file.
pub fn token_bytes() -> (out: Vec<u8>)
    ensures
        out@ == token_text(),
{
    let mut out: Vec<u8> = Vec::new();
    out.push(97u8);
    out.push(117u8);
    out.push(116u8);
    out.push(104u8);
    out.push(10u8);
    assert(out@ =~= token_text());
    out
}

/// What a client writes into the token file proves its right to run.
pub proof fn lemma_token_text_proves()
    ensures
        proves(token_text()),
{
    let t = token_text();
    assert(t.len() == 5);
    assert(is_blank(t[4]));
    assert(t.take(4) =~= auth_word());
}

fn blank(b: u8) -> (r: bool)
    ensures
        r == is_blank(b),
{
    (9 <= b && b <= 13) || b == 32
}

/// Whether `content` holds the word `auth` at `at`.
fn word_at(content: &Vec<u8>, at: usize) -> (r: bool)
    requires
        at + 4 <= content.len(),
    ensures
        r == (content@.subrange(at as int, at + 4) == auth_word()),
{
    let r = content[at] == 97 && content[at + 1] == 117 && content[at + 2] == 116 && content[at
        + 3] == 104;
    proof {
        let s = content@.subrange(at as int, at + 4);
        if r {
            assert(s =~= auth_word());
        } else {
            assert(s[0] == content@[at as int]);
            assert(s[1] == content@[at + 1]);
            assert(s[2] == content@[at + 2]);
            assert(s[3] == content@[at + 3]);
        }
    }
    r
}

/// Whether the content of a token file proves the client's right to run.
pub fn token_accepted(content: &Vec<u8>) -> (r: bool)
    ensures
        r == proves(content@),
{
    let n = if content.len() > 5 {
        5
    } else {
        content.len()
    };
    let ghost head = if content@.len() > 5 {
        content@.take(5)
    } else {
        content@
    };
    if n == 4 {
        assert(head =~= content@.subrange(0, 4));
        word_at(content, 0)
    } else if n == 5 {
        assert(head.skip(1) =~= content@.subrange(1, 5));
        assert(head.take(4) =~= content@.subrange(0, 4));
        assert(head[0] == content@[0] && head[4] == content@[4]);
        (blank(content[0]) && word_at(content, 1)) || (blank(content[4]) && word_at(content, 0))
    } else {
        false
    }
}

} // verus!
