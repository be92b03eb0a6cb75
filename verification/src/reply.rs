//! What the broker says to a client, and how it is written on the wire.

use vstd::prelude::*;
use crate::config::split_lines;
use crate::grammar::lines_of;
use crate::number::{decimal, decimal_digits};
use crate::resolution::ResolveError;
use crate::run::{errors_view, message_text, ToRunCmdError};
use crate::template::{opt_view, texts_view};
use crate::text::{extend_chars, extend_str, is_word, string_of, to_chars};

verus! {

/// How a run is attended to.
#[derive(Debug, Clone, Copy, PartialEq, Eq, Structural)]
pub enum RunMode {
    /// The client does not wait for the child.
    Detach,
    /// The client waits for the child; no output is forwarded.
    Wait,
    /// The child's output is forwarded to the client.
    ForwardOutput,
    /// The child's output is forwarded to the client and the client's input
    /// to the child.
    ForwardInputOutput,
}

impl RunMode {
    /// The word that names the mode on the wire.
    pub open spec fn word(self) -> Seq<char> {
        match self {
            RunMode::Detach => "detach"@,
            RunMode::Wait => "wait"@,
            RunMode::ForwardOutput => "forward-output"@,
            RunMode::ForwardInputOutput => "forward-output-input"@,
        }
    }

    /// The word that names the mode on the wire.
    pub fn name(&self) -> (out: String)
        ensures
            out@ == self.word(),
    {
        match self {
            RunMode::Detach => "detach".to_owned(),
            RunMode::Wait => "wait".to_owned(),
            RunMode::ForwardOutput => "forward-output".to_owned(),
            RunMode::ForwardInputOutput => "forward-output-input".to_owned(),
        }
    }

    /// Whether the child's output is forwarded.
    pub fn forwards_output(&self) -> (r: bool)
        ensures
            r == (*self == RunMode::ForwardOutput || *self == RunMode::ForwardInputOutput),
    {
        match self {
            RunMode::ForwardOutput => true,
            RunMode::ForwardInputOutput => true,
            _ => false,
        }
    }

    /// Whether the client's input is forwarded.
    pub fn forwards_input(&self) -> (r: bool)
        ensures
            r == (*self == RunMode::ForwardInputOutput),
    {
        match self {
            RunMode::ForwardInputOutput => true,
            _ => false,
        }
    }
}

/// The mode that a word names.
pub open spec fn mode_named(word: Seq<char>) -> Option<RunMode> {
    if word == "detach"@ {
        Some(RunMode::Detach)
    } else if word == "wait"@ {
        Some(RunMode::Wait)
    } else if word == "forward-output"@ {
        Some(RunMode::ForwardOutput)
    } else if word == "forward-output-input"@ {
        Some(RunMode::ForwardInputOutput)
    } else {
        None
    }
}

/// The mode that a word names.
pub fn mode_of(word: &Vec<char>) -> (r: Option<RunMode>)
    ensures
        r == mode_named(word@),
{
    if is_word(word, "detach") {
        Some(RunMode::Detach)
    } else if is_word(word, "wait") {
        Some(RunMode::Wait)
    } else if is_word(word, "forward-output") {
        Some(RunMode::ForwardOutput)
    } else if is_word(word, "forward-output-input") {
        Some(RunMode::ForwardInputOutput)
    } else {
        None
    }
}

/// The mode that a word on the client's command line asks for.
pub open spec fn mode_asked(word: Seq<char>) -> Option<RunMode> {
    if word == "wait"@ {
        Some(RunMode::Wait)
    } else if word == "detach"@ {
        Some(RunMode::Detach)
    } else if word == "output"@ {
        Some(RunMode::ForwardOutput)
    } else if word == "interactive"@ {
        Some(RunMode::ForwardInputOutput)
    } else {
        None
    }
}

/// The mode that a word on the client's command line asks for.
pub fn mode_from_flag(word: &str) -> (r: Option<RunMode>)
    ensures
        r == mode_asked(word@),
{
    let word = to_chars(word);
    if is_word(&word, "wait") {
        Some(RunMode::Wait)
    } else if is_word(&word, "detach") {
        Some(RunMode::Detach)
    } else if is_word(&word, "output") {
        Some(RunMode::ForwardOutput)
    } else if is_word(&word, "interactive") {
        Some(RunMode::ForwardInputOutput)
    } else {
        None
    }
}

/// What the broker says to a client.
pub enum Answer {
    /// The id of the connection, sent when it is accepted.
    Greeting(nat),
    /// The templates on offer: each name with the policy file it names.
    Listing(Seq<(Seq<char>, Option<Seq<char>>)>),
    ReloadRequested,
    /// The client is to prove itself by writing to the named token file.
    AuthWait(Seq<char>),
    AuthAccept,
    AuthDenyFailed,
    /// The token file could not be read; the text says why.
    AuthDenyError(Seq<char>),
    AuthDenyUndefinedAllow,
    AuthFailCopy,
    UnexpectedResponse,
    RunStart,
    RunUnknown,
    RunErrorInvalidArg(Seq<char>),
    RunErrorArgNoValue(Seq<char>),
    RunErrorArgValueInvalid(Seq<char>, Seq<char>),
    RunErrorInvalidConfig(Seq<ResolveError>),
}

/// `s` with every line feed written as a backslash and an `n`.
pub open spec fn escaped(s: Seq<char>) -> Seq<char>
    decreases s.len(),
{
    if s.len() == 0 {
        Seq::empty()
    } else if s.last() == '\n' {
        escaped(s.drop_last()) + seq!['\\', 'n']
    } else {
        escaped(s.drop_last()).push(s.last())
    }
}

/// Each text followed by a line feed.
pub open spec fn as_lines(texts: Seq<Seq<char>>) -> Seq<char>
    decreases texts.len(),
{
    if texts.len() == 0 {
        Seq::empty()
    } else {
        as_lines(texts.drop_last()) + texts.last() + seq!['\n']
    }
}

/// The entries of a listing: for each template a line with its name and a
/// line with the policy file it names, empty where it names none.
pub open spec fn listing_lines(entries: Seq<(Seq<char>, Option<Seq<char>>)>) -> Seq<char>
    decreases entries.len(),
{
    if entries.len() == 0 {
        Seq::empty()
    } else {
        let (name, allow) = entries.last();
        listing_lines(entries.drop_last()) + name + seq!['\n'] + match allow {
            Some(a) => a,
            None => Seq::empty(),
        } + seq!['\n']
    }
}

/// The errors of a report: for each error the number of lines of what it
/// says, then those lines.
pub open spec fn error_lines(errors: Seq<ResolveError>) -> Seq<char>
    decreases errors.len(),
{
    if errors.len() == 0 {
        Seq::empty()
    } else {
        let lines = lines_of(message_text(errors.last()));
        error_lines(errors.drop_last()) + decimal_digits(lines.len()) + seq!['\n'] + as_lines(
            lines,
        )
    }
}

/// An answer as it is written on the wire.
pub open spec fn answer_text(a: Answer) -> Seq<char> {
    match a {
        Answer::Greeting(id) => decimal_digits(id) + seq!['\n'],
        Answer::Listing(entries) => "listing configs; count: "@ + decimal_digits(entries.len())
            + seq!['\n'] + listing_lines(entries),
        Answer::ReloadRequested => "reload-configs requested\n"@,
        Answer::AuthWait(path) => "auth wait "@ + path + seq!['\n'],
        Answer::AuthAccept => "auth accept\n"@,
        Answer::AuthDenyFailed => "auth deny failed\n"@,
        Answer::AuthDenyError(why) => "auth deny error "@ + escaped(why) + seq!['\n'],
        Answer::AuthDenyUndefinedAllow => "auth deny error_undefined_allow\n"@,
        Answer::AuthFailCopy => "auth fail could_not_copy_auth_file\n"@,
        Answer::UnexpectedResponse => "unexpected_response auth done\n"@,
        Answer::RunStart => "run start\n"@,
        Answer::RunUnknown => "run unknown\n"@,
        Answer::RunErrorInvalidArg(arg) => "run error_invalid_arg "@ + arg + seq!['\n'],
        Answer::RunErrorArgNoValue(arg) => "run error_arg_no_value "@ + arg + seq!['\n'],
        Answer::RunErrorArgValueInvalid(arg, val) => "run error_arg_value_invalid "@ + arg
            + seq![' '] + val
            + " // try detach, wait, forward-output or forward-output-input. wait is default.\n"@,
        Answer::RunErrorInvalidConfig(errors) => "run error_invalid_config: "@ + decimal_digits(
            errors.len(),
        ) + seq!['\n'] + error_lines(errors),
    }
}

/// What the broker says to a client.
#[derive(Debug)]
pub enum Reply {
    Greeting(u128),
    Listing(Vec<(String, Option<String>)>),
    ReloadRequested,
    AuthWait(String),
    AuthAccept,
    AuthDenyFailed,
    AuthDenyError(String),
    AuthDenyUndefinedAllow,
    AuthFailCopy,
    UnexpectedResponse,
    RunStart,
    RunUnknown,
    RunErrorInvalidArg(String),
    RunErrorArgNoValue(String),
    RunErrorArgValueInvalid(String, String),
    RunErrorInvalidConfig(Vec<ToRunCmdError>),
}

/// The entries of a listing as the model sees them.
pub open spec fn entries_view(v: Seq<(String, Option<String>)>) -> Seq<
    (Seq<char>, Option<Seq<char>>),
> {
    Seq::new(v.len(), |i: int| (v[i].0@, opt_view(v[i].1)))
}

impl View for Reply {
    type V = Answer;

    open spec fn view(&self) -> Answer {
        match self {
            Reply::Greeting(id) => Answer::Greeting(*id as nat),
            Reply::Listing(entries) => Answer::Listing(entries_view(entries@)),
            Reply::ReloadRequested => Answer::ReloadRequested,
            Reply::AuthWait(path) => Answer::AuthWait(path@),
            Reply::AuthAccept => Answer::AuthAccept,
            Reply::AuthDenyFailed => Answer::AuthDenyFailed,
            Reply::AuthDenyError(why) => Answer::AuthDenyError(why@),
            Reply::AuthDenyUndefinedAllow => Answer::AuthDenyUndefinedAllow,
            Reply::AuthFailCopy => Answer::AuthFailCopy,
            Reply::UnexpectedResponse => Answer::UnexpectedResponse,
            Reply::RunStart => Answer::RunStart,
            Reply::RunUnknown => Answer::RunUnknown,
            Reply::RunErrorInvalidArg(arg) => Answer::RunErrorInvalidArg(arg@),
            Reply::RunErrorArgNoValue(arg) => Answer::RunErrorArgNoValue(arg@),
            Reply::RunErrorArgValueInvalid(arg, val) => Answer::RunErrorArgValueInvalid(
                arg@,
                val@,
            ),
            Reply::RunErrorInvalidConfig(errors) => Answer::RunErrorInvalidConfig(
                errors_view(errors@),
            ),
        }
    }
}

/// Appends `s` with every line feed written as a backslash and an `n`.
fn extend_escaped(buf: &mut Vec<char>, s: &str)
    ensures
        final(buf)@ == old(buf)@ + escaped(s@),
{
    let chars = to_chars(s);
    let mut i: usize = 0;
    assert(escaped(chars@.take(0)) =~= Seq::<char>::empty());
    assert(buf@ =~= old(buf)@ + escaped(chars@.take(0)));
    while i < chars.len()
        invariant
            i <= chars.len(),
            chars@ == s@,
            buf@ == old(buf)@ + escaped(chars@.take(i as int)),
        decreases chars.len() - i,
    {
        let ghost before = escaped(chars@.take(i as int));
        proof {
            assert(chars@.take(i + 1).drop_last() =~= chars@.take(i as int));
            assert(chars@.take(i + 1).last() == chars@[i as int]);
        }
        if chars[i] == '\n' {
            buf.push('\\');
            buf.push('n');
            assert(buf@ =~= old(buf)@ + (before + seq!['\\', 'n']));
        } else {
            buf.push(chars[i]);
            assert(buf@ =~= old(buf)@ + before.push(chars@[i as int]));
        }
        i += 1;
    }
    assert(chars@.take(i as int) =~= chars@);
}

/// Appends each text followed by a line feed.
fn extend_lines(buf: &mut Vec<char>, lines: &Vec<String>)
    ensures
        final(buf)@ == old(buf)@ + as_lines(texts_view(lines@)),
{
    let ghost tv = texts_view(lines@);
    let mut i: usize = 0;
    assert(as_lines(tv.take(0)) =~= Seq::<char>::empty());
    assert(buf@ =~= old(buf)@ + as_lines(tv.take(0)));
    while i < lines.len()
        invariant
            i <= lines.len(),
            tv == texts_view(lines@),
            buf@ == old(buf)@ + as_lines(tv.take(i as int)),
        decreases lines.len() - i,
    {
        let ghost before = as_lines(tv.take(i as int));
        proof {
            assert(tv.take(i + 1).drop_last() =~= tv.take(i as int));
            assert(tv.take(i + 1).last() == lines@[i as int]@);
        }
        extend_str(buf, lines[i].as_str());
        buf.push('\n');
        assert(buf@ =~= old(buf)@ + (before + lines@[i as int]@ + seq!['\n']));
        i += 1;
    }
    assert(tv.take(i as int) =~= tv);
}

impl Reply {
    /// The reply as it is written on the wire.
    pub fn text(&self) -> (out: String)
        ensures
            out@ == answer_text(self@),
    {
        let mut buf: Vec<char> = Vec::new();
        match self {
            Reply::Greeting(id) => {
                extend_chars(&mut buf, &decimal(*id));
                buf.push('\n');
            },
            Reply::Listing(entries) => {
                extend_str(&mut buf, "listing configs; count: ");
                extend_chars(&mut buf, &decimal(entries.len() as u128));
                buf.push('\n');
                let ghost head = buf@;
                let ghost ev = entries_view(entries@);
                let mut i: usize = 0;
                assert(listing_lines(ev.take(0)) =~= Seq::<char>::empty());
                assert(buf@ =~= head + listing_lines(ev.take(0)));
                while i < entries.len()
                    invariant
                        i <= entries.len(),
                        ev == entries_view(entries@),
                        buf@ == head + listing_lines(ev.take(i as int)),
                    decreases entries.len() - i,
                {
                    let ghost before = listing_lines(ev.take(i as int));
                    proof {
                        assert(ev.take(i + 1).drop_last() =~= ev.take(i as int));
                        assert(ev.take(i + 1).last() == ev[i as int]);
                    }
                    extend_str(&mut buf, entries[i].0.as_str());
                    buf.push('\n');
                    match &entries[i].1 {
                        Some(allow) => {
                            extend_str(&mut buf, allow.as_str());
                        },
                        None => {},
                    }
                    buf.push('\n');
                    assert(buf@ =~= head + (before + ev[i as int].0 + seq!['\n'] + match ev[i as int].1 {
                        Some(a) => a,
                        None => Seq::empty(),
                    } + seq!['\n']));
                    i += 1;
                }
                assert(ev.take(i as int) =~= ev);
            },
            Reply::ReloadRequested => {
                extend_str(&mut buf, "reload-configs requested\n");
            },
            Reply::AuthWait(path) => {
                extend_str(&mut buf, "auth wait ");
                extend_str(&mut buf, path.as_str());
                buf.push('\n');
            },
            Reply::AuthAccept => {
                extend_str(&mut buf, "auth accept\n");
            },
            Reply::AuthDenyFailed => {
                extend_str(&mut buf, "auth deny failed\n");
            },
            Reply::AuthDenyError(why) => {
                extend_str(&mut buf, "auth deny error ");
                extend_escaped(&mut buf, why.as_str());
                buf.push('\n');
            },
            Reply::AuthDenyUndefinedAllow => {
                extend_str(&mut buf, "auth deny error_undefined_allow\n");
            },
            Reply::AuthFailCopy => {
                extend_str(&mut buf, "auth fail could_not_copy_auth_file\n");
            },
            Reply::UnexpectedResponse => {
                extend_str(&mut buf, "unexpected_response auth done\n");
            },
            Reply::RunStart => {
                extend_str(&mut buf, "run start\n");
            },
            Reply::RunUnknown => {
                extend_str(&mut buf, "run unknown\n");
            },
            Reply::RunErrorInvalidArg(arg) => {
                extend_str(&mut buf, "run error_invalid_arg ");
                extend_str(&mut buf, arg.as_str());
                buf.push('\n');
            },
            Reply::RunErrorArgNoValue(arg) => {
                extend_str(&mut buf, "run error_arg_no_value ");
                extend_str(&mut buf, arg.as_str());
                buf.push('\n');
            },
            Reply::RunErrorArgValueInvalid(arg, val) => {
                extend_str(&mut buf, "run error_arg_value_invalid ");
                extend_str(&mut buf, arg.as_str());
                buf.push(' ');
                extend_str(&mut buf, val.as_str());
                extend_str(
                    &mut buf,
                    " // try detach, wait, forward-output or forward-output-input. wait is default.\n",
                );
            },
            Reply::RunErrorInvalidConfig(errors) => {
                extend_str(&mut buf, "run error_invalid_config: ");
                extend_chars(&mut buf, &decimal(errors.len() as u128));
                buf.push('\n');
                let ghost head = buf@;
                let ghost ev = errors_view(errors@);
                let mut i: usize = 0;
                assert(error_lines(ev.take(0)) =~= Seq::<char>::empty());
                assert(buf@ =~= head + error_lines(ev.take(0)));
                while i < errors.len()
                    invariant
                        i <= errors.len(),
                        ev == errors_view(errors@),
                        buf@ == head + error_lines(ev.take(i as int)),
                    decreases errors.len() - i,
                {
                    let ghost before = error_lines(ev.take(i as int));
                    proof {
                        assert(ev.take(i + 1).drop_last() =~= ev.take(i as int));
                        assert(ev.take(i + 1).last() == ev[i as int]);
                    }
                    let message = errors[i].message();
                    let lines = split_lines(message.as_str());
                    let ghost lv = texts_view(lines@);
                    extend_chars(&mut buf, &decimal(lines.len() as u128));
                    buf.push('\n');
                    extend_lines(&mut buf, &lines);
                    assert(buf@ =~= head + (before + decimal_digits(lv.len()) + seq!['\n']
                        + as_lines(lv)));
                    i += 1;
                }
                assert(ev.take(i as int) =~= ev);
            },
        }
        assert(buf@ =~= answer_text(self@));
        string_of(&buf)
    }
}

} // verus!
