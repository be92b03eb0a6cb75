//! The broker's side of a connection: the state it keeps and the events
//! that move it. The host reads and writes; every decision is made here.

use std::sync::Arc;
use vstd::prelude::*;
use crate::auth::{policy_path, token_accepted, token_path};
use crate::config::{lemma_builder_model, Config};
use crate::model::{distinct_keys, find_name, keys_of, lemma_upsert_distinct, names_of};
use crate::reply::{entries_view, mode_of, Answer, Reply, RunMode};
use crate::resolution::Answers;
use crate::resolve::setting_of;
use crate::run::{grown_by_ids, HostLog, HostRequest, Resolution, LOOKUPS_PER_CALL};
use crate::session::{
    accepts, advanced, at_rest, ids_given, lemma_accept_needs_proof, listing, names_differ,
    no_answers, on_auth_line, on_line, on_resolved, on_run, on_run_ended, on_token, on_token_prepared,
    options_mode, run_setting, waits_for_lookup, Deed, Session, Stage, Turn,
};
use crate::subst::{pairs_view, Pair};
use crate::template::{opt_view, RunCmd, ToRunCmdInfo};
use crate::text::{
    is_word, lemma_index_from, slice_of, split_once, split_word, string_of, to_chars, trim,
    trim_end_newline,
};

verus! {

/// Where a connection stands.
#[derive(Debug)]
pub enum Phase {
    Idle,
    TokenFile(String, RunMode),
    AuthLine(String, RunMode),
    Token(String, RunMode),
    Resolving(String, RunMode, HostLog),
    Running,
}

impl View for Phase {
    type V = Stage;

    open spec fn view(&self) -> Stage {
        match self {
            Phase::Idle => Stage::Idle,
            Phase::TokenFile(name, mode) => Stage::TokenFile(name@, *mode),
            Phase::AuthLine(name, mode) => Stage::AuthLine(name@, *mode),
            Phase::Token(name, mode) => Stage::Token(name@, *mode),
            Phase::Resolving(name, mode, log) => Stage::Resolving(name@, *mode, log@),
            Phase::Running => Stage::Running,
        }
    }
}

/// One connection of a client.
#[derive(Debug)]
pub struct Connection {
    /// The templates on offer when the connection was accepted.
    pub config: Arc<Config>,
    /// The id of the connection.
    pub id: u128,
    /// The variables that the client has set. In a well-formed connection
    /// (`wf`) no name occurs twice.
    pub vars: Vec<(String, String)>,
    /// The number of the last token.
    pub auth_id: u64,
    /// Where the connection stands.
    pub phase: Phase,
}

impl Connection {
    /// What holds of every connection: it holds no variable twice.
    pub open spec fn wf(&self) -> bool {
        names_differ(self@)
    }
}

impl View for Connection {
    type V = Session;

    open spec fn view(&self) -> Session {
        Session {
            registry: self.config@,
            id: self.id as nat,
            vars: pairs_view(self.vars@),
            auth_id: self.auth_id as nat,
            stage: self.phase@,
        }
    }
}

/// Something for the host of the connection to do.
#[derive(Debug)]
pub enum Action {
    /// Send the reply to the client.
    Say(Reply),
    /// Send the byte that ends the output stream, and flush.
    End,
    /// Create the token file at the second path, with the mode and the
    /// owner of the policy file at the first, and report with
    /// `on_token_prepared`.
    PrepareToken(String, String),
    /// Read the client's next line and report it with `on_auth_line`.
    AwaitAuth,
    /// Read up to five bytes from the beginning of the token file and report
    /// them with `on_token`.
    ReadToken(String),
    /// Do what the resolution of the template needs and report with
    /// `on_captured` or `on_prep_ran`.
    Host(HostRequest),
    /// Spawn the invocation, attend to it as the mode says, and report with
    /// `on_run_ended`.
    Start(RunCmd, RunMode),
    /// Ask for the templates to be loaded anew.
    RequestReload,
}

impl View for Action {
    type V = Deed;

    open spec fn view(&self) -> Deed {
        match self {
            Action::Say(reply) => Deed::Say(reply@),
            Action::End => Deed::End,
            Action::PrepareToken(policy, token) => Deed::PrepareToken(policy@, token@),
            Action::AwaitAuth => Deed::AwaitAuth,
            Action::ReadToken(path) => Deed::ReadToken(path@),
            Action::Host(q) => Deed::Host(q@),
            Action::Start(cmd, mode) => Deed::Start(cmd@, *mode),
            Action::RequestReload => Deed::RequestReload,
        }
    }
}

/// The actions of a list as the model sees them.
pub open spec fn deeds_view(v: Seq<Action>) -> Seq<Deed> {
    Seq::new(v.len(), |i: int| v[i]@)
}

/// A connection and what is to be done, as the model sees them.
pub open spec fn turn_view(r: (Connection, Vec<Action>)) -> Turn {
    Turn { session: r.0@, deeds: deeds_view(r.1@) }
}

/// One turn after another: the state of the second, the deeds of both.
pub open spec fn and_then(first: Turn, second: Turn) -> Turn {
    Turn { session: second.session, deeds: first.deeds + second.deeds }
}

/// No actions.
fn nothing() -> (v: Vec<Action>)
    ensures
        deeds_view(v@) == Seq::<Deed>::empty(),
{
    let v: Vec<Action> = Vec::new();
    assert(deeds_view(v@) =~= Seq::<Deed>::empty());
    v
}

/// One action.
fn only(a: Action) -> (v: Vec<Action>)
    ensures
        deeds_view(v@) == seq![a@],
{
    let mut v: Vec<Action> = Vec::new();
    v.push(a);
    assert(deeds_view(v@) =~= seq![a@]);
    v
}

/// Two actions.
fn both(a: Action, b: Action) -> (v: Vec<Action>)
    ensures
        deeds_view(v@) == seq![a@, b@],
{
    let mut v: Vec<Action> = Vec::new();
    v.push(a);
    v.push(b);
    assert(deeds_view(v@) =~= seq![a@, b@]);
    v
}

/// What was read of a token file, as the model sees it.
pub open spec fn content_view(content: Result<Vec<u8>, String>) -> Result<Seq<u8>, Seq<char>> {
    match content {
        Ok(bytes) => Ok(bytes@),
        Err(why) => Err(why@),
    }
}

/// One more than `n`, as far as the count reaches.
pub open spec fn next_count(n: nat) -> nat {
    if n < usize::MAX {
        n + 1
    } else {
        n
    }
}

/// Reads the options of a `run` command.
pub fn read_options(options: &Vec<char>, mode: RunMode) -> (r: Result<RunMode, Reply>)
    ensures
        match options_mode(options@, mode) {
            Ok(m) => r == Ok::<RunMode, Reply>(m),
            Err(a) => r matches Err(reply) && reply@ == a,
        },
    decreases options.len(),
{
    let split = split_once(options, ',');
    let (item, rest) = match split {
        Some((first, rest)) => (first, Some(rest)),
        None => {
            assert(options@ =~= options@.subrange(0, options@.len() as int));
            (slice_of(options, 0, options.len()), None)
        },
    };
    match split_once(&item, '=') {
        None => {
            if is_word(&item, "mode") {
                Err(Reply::RunErrorArgNoValue(string_of(&item)))
            } else {
                Err(Reply::RunErrorInvalidArg(string_of(&item)))
            }
        },
        Some((key, value)) => {
            if !is_word(&key, "mode") {
                Err(Reply::RunErrorInvalidArg(string_of(&key)))
            } else {
                match mode_of(&value) {
                    None => Err(
                        Reply::RunErrorArgValueInvalid(string_of(&key), string_of(&value)),
                    ),
                    Some(m) => match rest {
                        Some(more) => {
                            proof {
                                lemma_index_from(options@, ',', 0);
                            }
                            read_options(&more, m)
                        },
                        None => Ok(m),
                    },
                }
            }
        },
    }
}

impl Connection {
    /// The connection back between commands, the client's variables
    /// forgotten.
    fn rest(self) -> (c: Connection)
        ensures
            c@ == at_rest(self@),
    {
        let vars: Vec<(String, String)> = Vec::new();
        assert(pairs_view(vars@) =~= Seq::<Pair>::empty());
        Connection {
            config: self.config,
            id: self.id,
            vars,
            auth_id: self.auth_id,
            phase: Phase::Idle,
        }
    }

    /// The templates on offer, each with the policy file it names.
    fn list(&self) -> (entries: Vec<(String, Option<String>)>)
        ensures
            entries_view(entries@) == listing(self@.registry),
    {
        let mut entries: Vec<(String, Option<String>)> = Vec::new();
        let mut i: usize = 0;
        while i < self.config.run_cmds.len()
            invariant
                i <= self.config.run_cmds.len(),
                entries.len() == i,
                forall|j: int|
                    0 <= j < i ==> {
                        &&& (#[trigger] entries@[j]).0@ == self.config.run_cmds@[j].0@
                        &&& opt_view(entries@[j].1)
                            == self.config.run_cmds@[j].1@.allow
                    },
            decreases self.config.run_cmds.len() - i,
        {
            let (name, template) = &self.config.run_cmds[i];
            proof {
                lemma_builder_model(*template);
            }
            let allow = match &template.allow {
                Some(a) => Some(a.clone()),
                None => None,
            };
            entries.push((name.clone(), allow));
            i += 1;
        }
        assert(entries_view(entries@) =~= listing(self@.registry));
        entries
    }

    /// A `run` command.
    fn run(self, rest: &Vec<char>) -> (r: (Connection, Vec<Action>))
        ensures
            self.wf() ==> r.0.wf(),
            turn_view(r) == on_run(self@, rest@),
    {
        let (mode, name) = match split_once(rest, ' ') {
            Some((options, name)) => (read_options(&options, RunMode::Wait), name),
            None => {
                assert(rest@ =~= rest@.subrange(0, rest@.len() as int));
                (Ok(RunMode::Wait), slice_of(rest, 0, rest.len()))
            },
        };
        match mode {
            Err(reply) => {
                let c = self.rest();
                (c, only(Action::Say(reply)))
            },
            Ok(m) => {
                let name = string_of(&name);
                let policy = match self.config.get(name.as_str()) {
                    None => None,
                    Some(template) => {
                        proof {
                            lemma_builder_model(*template);
                        }
                        match &template.allow {
                            None => Some(None),
                            Some(allow) => Some(Some(policy_path(allow.as_str()))),
                        }
                    },
                };
                match policy {
                    None => {
                        let c = self.rest();
                        (c, only(Action::Say(Reply::RunUnknown)))
                    },
                    Some(None) => {
                        let c = self.rest();
                        (c, only(Action::Say(Reply::AuthDenyUndefinedAllow)))
                    },
                    Some(Some(policy)) => {
                        let seq = if self.auth_id < u64::MAX {
                            self.auth_id + 1
                        } else {
                            0
                        };
                        let token = token_path(self.id, seq);
                        let c = Connection {
                            config: self.config,
                            id: self.id,
                            vars: self.vars,
                            auth_id: seq,
                            phase: Phase::TokenFile(name, m),
                        };
                        (c, only(Action::PrepareToken(policy, token)))
                    },
                }
            },
        }
    }

    /// A line of the client while the connection is idle. Lines that come
    /// at any other time, and lines that are not understood, change nothing.
    pub fn on_line(self, line: &str) -> (r: (Connection, Vec<Action>))
        ensures
            self.wf() ==> r.0.wf(),
            turn_view(r) == on_line(self@, line@),
    {
        match &self.phase {
            Phase::Idle => {},
            _ => {
                return (self, nothing());
            },
        }
        let chars = to_chars(line);
        let (word, args) = split_word(&chars);
        let command = trim(&word);
        let rest = trim_end_newline(&args);
        if is_word(&command, "list-configs") {
            let entries = self.list();
            (self, only(Action::Say(Reply::Listing(entries))))
        } else if is_word(&command, "reload-configs") {
            (self, both(Action::RequestReload, Action::Say(Reply::ReloadRequested)))
        } else if is_word(&command, "set-var") {
            match split_once(&rest, ' ') {
                Some((name, value)) => {
                    let mut c = self;
                    let ghost before = pairs_view(c.vars@);
                    assert(keys_of(before) =~= names_of(c.vars@));
                    proof {
                        if distinct_keys(keys_of(before)) {
                            lemma_upsert_distinct(before, name@, value@);
                        }
                    }
                    match find_name(&c.vars, &name) {
                        Some(i) => {
                            c.vars.set(i, (string_of(&name), string_of(&value)));
                            assert(pairs_view(c.vars@) =~= before.update(
                                i as int,
                                (name@, value@),
                            ));
                        },
                        None => {
                            c.vars.push((string_of(&name), string_of(&value)));
                            assert(pairs_view(c.vars@) =~= before.push((name@, value@)));
                        },
                    }
                    (c, nothing())
                },
                None => (self, nothing()),
            }
        } else if is_word(&command, "run") {
            self.run(&rest)
        } else {
            (self, nothing())
        }
    }

    /// The token file is prepared, or could not be.
    pub fn on_token_prepared(self, ok: bool) -> (r: (Connection, Vec<Action>))
        ensures
            self.wf() ==> r.0.wf(),
            turn_view(r) == on_token_prepared(self@, ok),
    {
        let Connection { config, id, vars, auth_id, phase } = self;
        match phase {
            Phase::TokenFile(name, mode) => {
                if ok {
                    let path = token_path(id, auth_id);
                    let c = Connection {
                        config,
                        id,
                        vars,
                        auth_id,
                        phase: Phase::AuthLine(name, mode),
                    };
                    (c, both(Action::Say(Reply::AuthWait(path)), Action::AwaitAuth))
                } else {
                    let c = Connection {
                        config,
                        id,
                        vars,
                        auth_id,
                        phase: Phase::TokenFile(name, mode),
                    }.rest();
                    (c, only(Action::Say(Reply::AuthFailCopy)))
                }
            },
            other => (Connection { config, id, vars, auth_id, phase: other }, nothing()),
        }
    }

    /// The client's answer to the challenge.
    pub fn on_auth_line(self, line: &str) -> (r: (Connection, Vec<Action>))
        ensures
            self.wf() ==> r.0.wf(),
            turn_view(r) == on_auth_line(self@, line@),
    {
        let Connection { config, id, vars, auth_id, phase } = self;
        match phase {
            Phase::AuthLine(name, mode) => {
                let said = trim_end_newline(&to_chars(line));
                if is_word(&said, "auth done") {
                    let path = token_path(id, auth_id);
                    let c = Connection {
                        config,
                        id,
                        vars,
                        auth_id,
                        phase: Phase::Token(name, mode),
                    };
                    (c, only(Action::ReadToken(path)))
                } else {
                    let c = Connection {
                        config,
                        id,
                        vars,
                        auth_id,
                        phase: Phase::AuthLine(name, mode),
                    }.rest();
                    (c, only(Action::Say(Reply::UnexpectedResponse)))
                }
            },
            other => (Connection { config, id, vars, auth_id, phase: other }, nothing()),
        }
    }

    /// What becomes of a connection once the resolution of its template has
    /// come to a stop with `r`, the host's answers being `log`.
    pub fn on_resolved(self, log: HostLog, r: Resolution) -> (out: (Connection, Vec<Action>))
        ensures
            self.wf() ==> out.0.wf(),
            turn_view(out) == on_resolved(self@, log@, r@),
    {
        let Connection { config, id, vars, auth_id, phase } = self;
        match phase {
            Phase::Resolving(name, mode, old_log) => match r {
                Resolution::Pending(q) => {
                    let c = Connection {
                        config,
                        id,
                        vars,
                        auth_id,
                        phase: Phase::Resolving(name, mode, log),
                    };
                    (c, only(Action::Host(q)))
                },
                Resolution::Finished(Ok(cmd)) => {
                    let c = Connection { config, id, vars, auth_id, phase: Phase::Running };
                    (c, both(Action::Say(Reply::RunStart), Action::Start(cmd, mode)))
                },
                Resolution::Finished(Err(errors)) => {
                    let c = Connection {
                        config,
                        id,
                        vars,
                        auth_id,
                        phase: Phase::Resolving(name, mode, old_log),
                    }.rest();
                    (c, only(Action::Say(Reply::RunErrorInvalidConfig(errors))))
                },
            },
            other => (Connection { config, id, vars, auth_id, phase: other }, nothing()),
        }
    }

    /// Resolves the template of the run as far as the answers of the host
    /// reach. The ids of users and groups are looked up on the way; whatever
    /// they turn out to be, the connection moves as `advanced` says for the
    /// answers with those ids added.
    pub fn advance(self) -> (r: (Connection, Vec<Action>))
        ensures
            self.wf() ==> r.0.wf(),
            match self@.stage {
                Stage::Resolving(_, _, answers) => exists|a: Answers|
                    grown_by_ids(answers, a) && turn_view(r) == #[trigger] advanced(self@, a),
                _ => turn_view(r) == Turn { session: self@, deeds: Seq::empty() },
            },
            waits_for_lookup(turn_view(r)) ==> ids_given(r.0@.stage) >= ids_given(self@.stage)
                + LOOKUPS_PER_CALL,
    {
        let Connection { config, id, vars, auth_id, phase } = self;
        match phase {
            Phase::Resolving(name, mode, log) => {
                let mut log = log;
                let ghost before = log@;
                let info = ToRunCmdInfo { con_id: id };
                match config.get(name.as_str()) {
                    None => {
                        assert(before.ids.take(before.ids.len() as int) =~= before.ids);
                        let c = Connection {
                            config,
                            id,
                            vars,
                            auth_id,
                            phase: Phase::Resolving(name, mode, log),
                        }.rest();
                        let out = (c, only(Action::Say(Reply::RunUnknown)));
                        assert(turn_view(out) == advanced(self@, before));
                        out
                    },
                    Some(template) => {
                        let r = template.to_runcmd(&vars, &info, &mut log);
                        let ghost after = log@;
                        assert(setting_of(vars@, info, false, log) == run_setting(
                            self@,
                            after,
                        ));
                        let c = Connection {
                            config,
                            id,
                            vars,
                            auth_id,
                            phase: Phase::Resolving(name, mode, HostLog::new()),
                        };
                        let out = c.on_resolved(log, r);
                        assert(turn_view(out) == advanced(self@, after));
                        out
                    },
                }
            },
            other => (Connection { config, id, vars, auth_id, phase: other }, nothing()),
        }
    }

    /// The beginning of the token file was read, or could not be: `content`
    /// holds up to five bytes, or says why there are none. A client whose
    /// token proves its right is accepted, and the resolution of the
    /// template begins; any other is denied.
    pub fn on_token(self, content: Result<Vec<u8>, String>) -> (r: (Connection, Vec<Action>))
        ensures
            self.wf() ==> r.0.wf(),
            !accepts(on_token(self@, content_view(content)).deeds) ==> turn_view(r)
                == on_token(self@, content_view(content)),
            accepts(on_token(self@, content_view(content)).deeds) ==> exists|
                a: Answers,
            |
                grown_by_ids(no_answers(), a) && turn_view(r) == and_then(
                    on_token(self@, content_view(content)),
                    #[trigger] advanced(on_token(self@, content_view(content)).session, a),
                ),
            waits_for_lookup(turn_view(r)) ==> ids_given(r.0@.stage) >= LOOKUPS_PER_CALL,
    {
        proof {
            lemma_accept_needs_proof(
                self@,
                Seq::empty(),
                true,
                content_view(content),
                no_answers(),
            );
        }
        let Connection { config, id, vars, auth_id, phase } = self;
        match phase {
            Phase::Token(name, mode) => match content {
                Err(why) => {
                    let c = Connection {
                        config,
                        id,
                        vars,
                        auth_id,
                        phase: Phase::Token(name, mode),
                    }.rest();
                    (c, only(Action::Say(Reply::AuthDenyError(why))))
                },
                Ok(bytes) => {
                    if token_accepted(&bytes) {
                        let c = Connection {
                            config,
                            id,
                            vars,
                            auth_id,
                            phase: Phase::Resolving(name, mode, HostLog::new()),
                        };
                        let ghost first = on_token(self@, content_view(content));
                        assert(c@ == first.session);
                        let moved = c.advance();
                        let ghost a = choose|a: Answers|
                            grown_by_ids(no_answers(), a) && turn_view(moved) == #[trigger] advanced(
                                first.session,
                                a,
                            );
                        let (c, more) = moved;
                        let mut actions = only(Action::Say(Reply::AuthAccept));
                        let ghost said = deeds_view(actions@);
                        let ghost rest = deeds_view(more@);
                        let mut more = more;
                        actions.append(&mut more);
                        assert(deeds_view(actions@) =~= said + rest);
                        assert(turn_view((c, actions)) == and_then(
                            first,
                            advanced(first.session, a),
                        ));
                        (c, actions)
                    } else {
                        let c = Connection {
                            config,
                            id,
                            vars,
                            auth_id,
                            phase: Phase::Token(name, mode),
                        }.rest();
                        (c, only(Action::Say(Reply::AuthDenyFailed)))
                    }
                },
            },
            other => (Connection { config, id, vars, auth_id, phase: other }, nothing()),
        }
    }

    /// The host has run the program that the resolution asked for:
    /// `output` is what it wrote to its standard output, or `None` where it
    /// could not be run.
    pub fn on_captured(self, output: Option<String>) -> (r: (Connection, Vec<Action>))
        ensures
            self.wf() ==> r.0.wf(),
            match self@.stage {
                Stage::Resolving(_, _, answers) => exists|a: Answers|
                    grown_by_ids(
                        Answers {
                            captured: answers.captured.push(opt_view(output)),
                            ..answers
                        },
                        a,
                    ) && turn_view(r) == #[trigger] advanced(self@, a),
                _ => turn_view(r) == Turn { session: self@, deeds: Seq::empty() },
            },
            waits_for_lookup(turn_view(r)) ==> ids_given(r.0@.stage) >= ids_given(self@.stage)
                + LOOKUPS_PER_CALL,
    {
        let Connection { config, id, vars, auth_id, phase } = self;
        match phase {
            Phase::Resolving(name, mode, log) => {
                let mut log = log;
                let ghost before = log@;
                log.captured.push(output);
                assert(log@.captured =~= before.captured.push(opt_view(output)));
                let c = Connection {
                    config,
                    id,
                    vars,
                    auth_id,
                    phase: Phase::Resolving(name, mode, log),
                };
                let ghost now = c@;
                let out = c.advance();
                proof {
                    let a = choose|a: Answers|
                        grown_by_ids(log@, a) && turn_view(out) == #[trigger] advanced(now, a);
                    assert(advanced(now, a) == advanced(self@, a));
                }
                out
            },
            other => (Connection { config, id, vars, auth_id, phase: other }, nothing()),
        }
    }

    /// The host has run the prep invocation that the resolution asked for.
    pub fn on_prep_ran(self) -> (r: (Connection, Vec<Action>))
        ensures
            self.wf() ==> r.0.wf(),
            match self@.stage {
                Stage::Resolving(_, _, answers) => exists|a: Answers|
                    grown_by_ids(Answers { preps_run: next_count(answers.preps_run), ..answers }, a)
                        && turn_view(r) == #[trigger] advanced(self@, a),
                _ => turn_view(r) == Turn { session: self@, deeds: Seq::empty() },
            },
            waits_for_lookup(turn_view(r)) ==> ids_given(r.0@.stage) >= ids_given(self@.stage)
                + LOOKUPS_PER_CALL,
    {
        let Connection { config, id, vars, auth_id, phase } = self;
        match phase {
            Phase::Resolving(name, mode, log) => {
                let mut log = log;
                if log.preps_run < usize::MAX {
                    log.preps_run = log.preps_run + 1;
                }
                let c = Connection {
                    config,
                    id,
                    vars,
                    auth_id,
                    phase: Phase::Resolving(name, mode, log),
                };
                let ghost now = c@;
                let out = c.advance();
                proof {
                    let a = choose|a: Answers|
                        grown_by_ids(log@, a) && turn_view(out) == #[trigger] advanced(now, a);
                    assert(advanced(now, a) == advanced(self@, a));
                }
                out
            },
            other => (Connection { config, id, vars, auth_id, phase: other }, nothing()),
        }
    }

    /// The invocation has run its course, or was left to itself.
    pub fn on_run_ended(self) -> (r: (Connection, Vec<Action>))
        ensures
            self.wf() ==> r.0.wf(),
            turn_view(r) == on_run_ended(self@),
    {
        match &self.phase {
            Phase::Running => {
                let c = self.rest();
                (c, only(Action::End))
            },
            _ => (self, nothing()),
        }
    }
}

/// Accepts a connection: it is idle, has no variables, and greets the
/// client with its id.
pub fn handle_con(config: Arc<Config>, id: u128) -> (r: (Connection, Vec<Action>))
    ensures
        r.0@ == (Session {
            registry: config@,
            id: id as nat,
            vars: Seq::empty(),
            auth_id: 0,
            stage: Stage::Idle,
        }),
        r.0.wf(),
        deeds_view(r.1@) == seq![Deed::Say(Answer::Greeting(id as nat))],
{
    let vars: Vec<(String, String)> = Vec::new();
    assert(pairs_view(vars@) =~= Seq::<Pair>::empty());
    let c = Connection { config, id, vars, auth_id: 0, phase: Phase::Idle };
    (c, only(Action::Say(Reply::Greeting(id))))
}

} // verus!
