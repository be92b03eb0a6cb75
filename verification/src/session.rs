//! The conversation with one client, as a machine: what state it is in, and
//! what each event makes of that state.
//!
//! A connection is idle between commands. A `run` command leads it through
//! the authorization challenge, the resolution of the template and the run
//! itself, and back to idle. Whatever the outcome of a run, the variables
//! that the client has set are forgotten when it ends.

use vstd::prelude::*;
use crate::auth::{policy_path_text, proves, token_path_text};
use crate::model::{
    distinct_keys, keys_of, lemma_upsert_distinct, lookup, upsert, Invocation, Template,
};
use crate::reply::{mode_named, Answer, RunMode};
use crate::resolution::{resolve_top, Answers, Flow, Request, ResolveError, Setting};
use crate::subst::Pair;
use crate::text::{after_word, head_word, split_first, trimmed, without_newline};

verus! {

/// Where a connection stands.
pub enum Stage {
    /// Between commands.
    Idle,
    /// A run of the named template was asked for; its token file is being
    /// prepared.
    TokenFile(Seq<char>, RunMode),
    /// The client was told where the token lies; its answer is awaited.
    AuthLine(Seq<char>, RunMode),
    /// The client says it has proven itself; the token is being read.
    Token(Seq<char>, RunMode),
    /// The client has proven itself; the template is being resolved against
    /// the answers of the host so far.
    Resolving(Seq<char>, RunMode, Answers),
    /// The invocation runs.
    Running,
}

/// A connection: the templates on offer when it was accepted, its id, the
/// variables that the client has set, the number of its last token, and
/// where it stands.
pub struct Session {
    pub registry: Seq<(Seq<char>, Template)>,
    pub id: nat,
    pub vars: Seq<Pair>,
    pub auth_id: nat,
    pub stage: Stage,
}

/// Something for the host of the connection to do.
pub enum Deed {
    /// Send the answer to the client.
    Say(Answer),
    /// Send the byte that ends the output stream.
    End,
    /// Create the token file, with the mode and the owner of the policy
    /// file.
    PrepareToken(Seq<char>, Seq<char>),
    /// Read the client's next line as its answer to the challenge.
    AwaitAuth,
    /// Read the beginning of the token file.
    ReadToken(Seq<char>),
    /// Do what the resolution of the template needs.
    Host(Request),
    /// Spawn the invocation and attend to it as the mode says.
    Start(Invocation, RunMode),
    /// Ask for the templates to be loaded anew.
    RequestReload,
}

/// What an event makes of a connection: its new state, and what is to be
/// done.
pub struct Turn {
    pub session: Session,
    pub deeds: Seq<Deed>,
}

/// The connection back between commands, the client's variables forgotten.
pub open spec fn at_rest(s: Session) -> Session {
    Session { vars: Seq::empty(), stage: Stage::Idle, ..s }
}

/// The event changes nothing.
pub open spec fn unmoved(s: Session) -> Turn {
    Turn { session: s, deeds: Seq::empty() }
}

/// The run ends before it began, with an answer.
pub open spec fn refused(s: Session, a: Answer) -> Turn {
    Turn { session: at_rest(s), deeds: seq![Deed::Say(a)] }
}

/// The number of the token after number `n`.
pub open spec fn next_token(n: nat) -> nat {
    if n < 0xffff_ffff_ffff_ffff {
        n + 1
    } else {
        0
    }
}

/// The mode that a list of options asks for: options separated by commas,
/// each a key or a key, `=` and a value. The only key is `mode`. The first
/// option that is not understood ends the reading with the answer that says
/// so.
pub open spec fn options_mode(options: Seq<char>, mode: RunMode) -> Result<RunMode, Answer>
    decreases options.len(),
{
    let item = match split_first(options, ',') {
        Some((first, rest)) => first,
        None => options,
    };
    let key = match split_first(item, '=') {
        Some((k, v)) => k,
        None => item,
    };
    if key != "mode"@ {
        Err(Answer::RunErrorInvalidArg(key))
    } else {
        match split_first(item, '=') {
            None => Err(Answer::RunErrorArgNoValue(key)),
            Some((k, value)) => match mode_named(value) {
                None => Err(Answer::RunErrorArgValueInvalid(key, value)),
                Some(m) => match split_first(options, ',') {
                    Some((first, rest)) => if rest.len() < options.len() {
                        options_mode(rest, m)
                    } else {
                        Ok(m)
                    },
                    None => Ok(m),
                },
            },
        }
    }
}

/// The templates on offer, each with the policy file it names.
pub open spec fn listing(registry: Seq<(Seq<char>, Template)>) -> Seq<
    (Seq<char>, Option<Seq<char>>),
> {
    Seq::new(registry.len(), |i: int| (registry[i].0, registry[i].1.allow))
}

/// What the text after `run` asks for: options and a name, or a name alone.
pub open spec fn run_asked(rest: Seq<char>) -> (Result<RunMode, Answer>, Seq<char>) {
    match split_first(rest, ' ') {
        Some((options, name)) => (options_mode(options, RunMode::Wait), name),
        None => (Ok(RunMode::Wait), rest),
    }
}

/// A `run` command: the options are read, the template is found, and the
/// challenge begins with the preparation of a new token file. A command that
/// is not understood, a name that is not on offer and a template that names
/// no policy file end the run with an answer.
pub open spec fn on_run(s: Session, rest: Seq<char>) -> Turn {
    let (mode, name) = run_asked(rest);
    match mode {
        Err(a) => refused(s, a),
        Ok(m) => match lookup(s.registry, name) {
            None => refused(s, Answer::RunUnknown),
            Some(t) => match t.allow {
                None => refused(s, Answer::AuthDenyUndefinedAllow),
                Some(allow) => Turn {
                    session: Session {
                        auth_id: next_token(s.auth_id),
                        stage: Stage::TokenFile(name, m),
                        ..s
                    },
                    deeds: seq![
                        Deed::PrepareToken(
                            policy_path_text(allow),
                            token_path_text(s.id, next_token(s.auth_id)),
                        ),
                    ],
                },
            },
        },
    }
}

/// The command word of a line: what stands before the first space, without
/// the white space around it.
pub open spec fn command_of(line: Seq<char>) -> Seq<char> {
    trimmed(head_word(line))
}

/// What follows the command word of a line, without the line feed at its
/// end.
pub open spec fn argument_of(line: Seq<char>) -> Seq<char> {
    without_newline(after_word(line))
}

/// A line of the client while the connection is idle.
pub open spec fn on_line(s: Session, line: Seq<char>) -> Turn {
    let command = command_of(line);
    let rest = argument_of(line);
    if !(s.stage is Idle) {
        unmoved(s)
    } else if command == "list-configs"@ {
        Turn { session: s, deeds: seq![Deed::Say(Answer::Listing(listing(s.registry)))] }
    } else if command == "reload-configs"@ {
        Turn { session: s, deeds: seq![Deed::RequestReload, Deed::Say(Answer::ReloadRequested)] }
    } else if command == "set-var"@ {
        match split_first(rest, ' ') {
            Some((name, value)) => Turn {
                session: Session { vars: upsert(s.vars, name, value), ..s },
                deeds: Seq::empty(),
            },
            None => unmoved(s),
        }
    } else if command == "run"@ {
        on_run(s, rest)
    } else {
        unmoved(s)
    }
}

/// The token file is prepared, or could not be.
pub open spec fn on_token_prepared(s: Session, ok: bool) -> Turn {
    match s.stage {
        Stage::TokenFile(name, mode) => if ok {
            Turn {
                session: Session { stage: Stage::AuthLine(name, mode), ..s },
                deeds: seq![
                    Deed::Say(Answer::AuthWait(token_path_text(s.id, s.auth_id))),
                    Deed::AwaitAuth,
                ],
            }
        } else {
            refused(s, Answer::AuthFailCopy)
        },
        _ => unmoved(s),
    }
}

/// The client's answer to the challenge.
pub open spec fn on_auth_line(s: Session, line: Seq<char>) -> Turn {
    match s.stage {
        Stage::AuthLine(name, mode) => if without_newline(line) == "auth done"@ {
            Turn {
                session: Session { stage: Stage::Token(name, mode), ..s },
                deeds: seq![Deed::ReadToken(token_path_text(s.id, s.auth_id))],
            }
        } else {
            refused(s, Answer::UnexpectedResponse)
        },
        _ => unmoved(s),
    }
}

/// The answers of a host that has not been asked anything.
pub open spec fn no_answers() -> Answers {
    Answers { captured: Seq::empty(), preps_run: 0, ids: Seq::empty() }
}

/// The beginning of the token file was read, or could not be. The client is
/// accepted if and only if the token proves its right.
pub open spec fn on_token(s: Session, content: Result<Seq<u8>, Seq<char>>) -> Turn {
    match s.stage {
        Stage::Token(name, mode) => match content {
            Err(why) => refused(s, Answer::AuthDenyError(why)),
            Ok(bytes) => if proves(bytes) {
                Turn {
                    session: Session { stage: Stage::Resolving(name, mode, no_answers()), ..s },
                    deeds: seq![Deed::Say(Answer::AuthAccept)],
                }
            } else {
                refused(s, Answer::AuthDenyFailed)
            },
        },
        _ => unmoved(s),
    }
}

/// What the resolution of a run is set in.
pub open spec fn run_setting(s: Session, answers: Answers) -> Setting {
    Setting { inputs: s.vars, con_id: s.id, check: false, answers }
}

/// The resolution of the template has come to a stop: it needs the host, or
/// it has ended with an invocation, which is started, or with errors, which
/// are reported.
pub open spec fn on_resolved(
    s: Session,
    answers: Answers,
    r: Flow<Result<Invocation, Seq<ResolveError>>>,
) -> Turn {
    match s.stage {
        Stage::Resolving(name, mode, _) => match r {
            Flow::Need(q) => Turn {
                session: Session { stage: Stage::Resolving(name, mode, answers), ..s },
                deeds: seq![Deed::Host(q)],
            },
            Flow::Done(Ok(cmd)) => Turn {
                session: Session { stage: Stage::Running, ..s },
                deeds: seq![Deed::Say(Answer::RunStart), Deed::Start(cmd, mode)],
            },
            Flow::Done(Err(errors)) => refused(s, Answer::RunErrorInvalidConfig(errors)),
        },
        _ => unmoved(s),
    }
}

/// The template is resolved as far as the answers reach.
pub open spec fn advanced(s: Session, answers: Answers) -> Turn {
    match s.stage {
        Stage::Resolving(name, mode, _) => match lookup(s.registry, name) {
            None => refused(s, Answer::RunUnknown),
            Some(t) => on_resolved(
                s,
                answers,
                resolve_top(t, run_setting(s, answers), Seq::empty()),
            ),
        },
        _ => unmoved(s),
    }
}

/// The invocation has run its course, or was left to itself.
pub open spec fn on_run_ended(s: Session) -> Turn {
    match s.stage {
        Stage::Running => Turn { session: at_rest(s), deeds: seq![Deed::End] },
        _ => unmoved(s),
    }
}

/// Whether a turn ends with the connection waiting for the id of a user or
/// group.
pub open spec fn waits_for_lookup(t: Turn) -> bool {
    t.deeds.len() > 0 && (t.deeds.last() matches Deed::Host(q) && (q is FindUser
        || q is FindGroup))
}

/// How many ids the host has given to a connection that resolves a
/// template; none to any other.
pub open spec fn ids_given(stage: Stage) -> nat {
    match stage {
        Stage::Resolving(_, _, answers) => answers.ids.len(),
        _ => 0,
    }
}

/// Whether the deeds say that the client is accepted.
pub open spec fn accepts(deeds: Seq<Deed>) -> bool {
    exists|i: int| 0 <= i < deeds.len() && #[trigger] deeds[i] == Deed::Say(Answer::AuthAccept)
}

/// Options that are not understood are answered with a `run error`.
pub proof fn lemma_options_error(options: Seq<char>, mode: RunMode)
    ensures
        options_mode(options, mode) matches Err(a) ==> a is RunErrorInvalidArg
            || a is RunErrorArgNoValue || a is RunErrorArgValueInvalid,
    decreases options.len(),
{
    let item = match split_first(options, ',') {
        Some((first, rest)) => first,
        None => options,
    };
    match split_first(item, '=') {
        Some((k, value)) => match mode_named(value) {
            Some(m) => match split_first(options, ',') {
                Some((first, rest)) => if rest.len() < options.len() {
                    lemma_options_error(rest, m);
                },
                None => {},
            },
            None => {},
        },
        None => {},
    }
}

/// The client is accepted only in answer to a token, and only to one whose
/// content proves its right: no other event of a connection says so.
pub proof fn lemma_accept_needs_proof(
    s: Session,
    line: Seq<char>,
    ok: bool,
    content: Result<Seq<u8>, Seq<char>>,
    answers: Answers,
)
    ensures
        !accepts(on_line(s, line).deeds),
        !accepts(on_token_prepared(s, ok).deeds),
        !accepts(on_auth_line(s, line).deeds),
        !accepts(advanced(s, answers).deeds),
        !accepts(on_run_ended(s).deeds),
        accepts(on_token(s, content).deeds) <==> s.stage is Token && content is Ok && proves(
            content->Ok_0,
        ),
{
    let t = on_token(s, content);
    if s.stage is Token && content is Ok && proves(content->Ok_0) {
        assert(t.deeds[0] == Deed::Say(Answer::AuthAccept));
    }
    let rest = argument_of(line);
    match split_first(rest, ' ') {
        Some((options, name)) => {
            lemma_options_error(options, RunMode::Wait);
        },
        None => {},
    }
}

/// Whether a session holds no variable twice.
pub open spec fn names_differ(s: Session) -> bool {
    distinct_keys(keys_of(s.vars))
}

/// No event makes a session hold a variable twice: a session that holds no
/// variable twice holds none twice after a line, a token, an answer of the
/// host or the end of a run.
pub proof fn lemma_names_differ(
    s: Session,
    line: Seq<char>,
    ok: bool,
    content: Result<Seq<u8>, Seq<char>>,
    answers: Answers,
    r: Flow<Result<Invocation, Seq<ResolveError>>>,
)
    requires
        names_differ(s),
    ensures
        names_differ(on_line(s, line).session),
        names_differ(on_token_prepared(s, ok).session),
        names_differ(on_auth_line(s, line).session),
        names_differ(on_token(s, content).session),
        names_differ(on_resolved(s, answers, r).session),
        names_differ(advanced(s, answers).session),
        names_differ(on_run_ended(s).session),
{
    assert(keys_of(Seq::<Pair>::empty()) =~= Seq::<Seq<char>>::empty());
    assert(names_differ(at_rest(s)));
    match split_first(argument_of(line), ' ') {
        Some((name, value)) => {
            lemma_upsert_distinct(s.vars, name, value);
        },
        None => {},
    }
}

/// Whether a line is a `run` command.
pub open spec fn asks_run(line: Seq<char>) -> bool {
    command_of(line) == "run"@
}

/// When a run is over, whatever its outcome, the variables that the client
/// had set are forgotten: every event that takes a connection out of a run
/// and back between commands leaves it without variables, and so does a
/// `run` command that ends at once.
pub proof fn lemma_vars_forgotten(
    s: Session,
    line: Seq<char>,
    ok: bool,
    content: Result<Seq<u8>, Seq<char>>,
    answers: Answers,
)
    ensures
        s.stage is Idle && asks_run(line) && on_line(s, line).session.stage is Idle ==> on_line(
            s,
            line,
        ).session.vars.len() == 0,
        !(s.stage is Idle) && on_token_prepared(s, ok).session.stage is Idle
            ==> on_token_prepared(s, ok).session.vars.len() == 0,
        !(s.stage is Idle) && on_auth_line(s, line).session.stage is Idle ==> on_auth_line(
            s,
            line,
        ).session.vars.len() == 0,
        !(s.stage is Idle) && on_token(s, content).session.stage is Idle ==> on_token(
            s,
            content,
        ).session.vars.len() == 0,
        !(s.stage is Idle) && advanced(s, answers).session.stage is Idle ==> advanced(
            s,
            answers,
        ).session.vars.len() == 0,
        !(s.stage is Idle) && on_run_ended(s).session.stage is Idle ==> on_run_ended(
            s,
        ).session.vars.len() == 0,
{
    reveal_strlit("run");
    reveal_strlit("list-configs");
    reveal_strlit("reload-configs");
    reveal_strlit("set-var");
    if asks_run(line) {
        assert("run"@.len() == 3);
        assert(command_of(line) != "list-configs"@);
        assert(command_of(line) != "reload-configs"@);
        assert(command_of(line) != "set-var"@);
    }
}

/// No event changes the templates that a connection was accepted with.
pub proof fn lemma_registry_kept(
    s: Session,
    line: Seq<char>,
    ok: bool,
    content: Result<Seq<u8>, Seq<char>>,
    answers: Answers,
)
    ensures
        on_line(s, line).session.registry == s.registry,
        on_token_prepared(s, ok).session.registry == s.registry,
        on_auth_line(s, line).session.registry == s.registry,
        on_token(s, content).session.registry == s.registry,
        advanced(s, answers).session.registry == s.registry,
        on_run_ended(s).session.registry == s.registry,
{
}

} // verus!
