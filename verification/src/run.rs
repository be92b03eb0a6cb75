//! Resolving run templates into invocations, with the host's help.

use vstd::prelude::*;
use crate::config::lemma_builder_model;
use crate::fitness::{fit, lemma_check};
use crate::model::{Identity, Invocation, Template};
use crate::resolution::{
    cleans_from, effective, fields_of, lemma_verdict_has_errors, preps_from, resolve, resolve_top,
    Answers, Cleaned, Cursor, Fields, Flow, Prepared, Request, ResolveError, Resolved, Setting,
};
use crate::resolve::{
    copy_texts, effective_identity, gather, keep_existing, resolve_fields, setting_of, sort_pairs,
    FieldSet, Gathered,
};
use crate::subst::{pairs_view, Pair};
use crate::template::{
    env_view, invocations_view, opt_identity_view, opt_view, templates_view, texts_view, RunCmd,
    RunCmdBuilder, ToRunCmdInfo,
};
use crate::text::{extend_str, string_of};

verus! {

/// Why a template could not be resolved.
#[derive(Debug)]
pub enum ToRunCmdError {
    MissingFieldCommand,
    MissingFieldUser,
    MissingFieldGroup,
    /// The program that a variable is taken from could not be run.
    VarFailedToRun(String, Vec<String>),
    /// The client did not supply the named variable.
    VarMissingInput(String),
    UnknownUser(String),
    UnknownGroup(String),
}

impl View for ToRunCmdError {
    type V = ResolveError;

    open spec fn view(&self) -> ResolveError {
        match self {
            ToRunCmdError::MissingFieldCommand => ResolveError::MissingFieldCommand,
            ToRunCmdError::MissingFieldUser => ResolveError::MissingFieldUser,
            ToRunCmdError::MissingFieldGroup => ResolveError::MissingFieldGroup,
            ToRunCmdError::VarFailedToRun(p, a) => ResolveError::VarFailedToRun(
                p@,
                texts_view(a@),
            ),
            ToRunCmdError::VarMissingInput(n) => ResolveError::VarMissingInput(n@),
            ToRunCmdError::UnknownUser(n) => ResolveError::UnknownUser(n@),
            ToRunCmdError::UnknownGroup(n) => ResolveError::UnknownGroup(n@),
        }
    }
}

/// The errors of a list as the model sees them.
pub open spec fn errors_view(v: Seq<ToRunCmdError>) -> Seq<ResolveError> {
    Seq::new(v.len(), |i: int| v[i]@)
}

/// Something that only the host can do.
#[derive(Debug)]
pub enum HostRequest {
    /// Run the program with the arguments, in the broker's own environment
    /// and under its own identity, and capture its standard output.
    Capture(String, Vec<String>),
    /// Run a prep invocation to its end.
    RunPrep(RunCmd),
    /// Look up the id of the named user.
    FindUser(String),
    /// Look up the id of the named group.
    FindGroup(String),
}

impl View for HostRequest {
    type V = Request;

    open spec fn view(&self) -> Request {
        match self {
            HostRequest::Capture(p, a) => Request::Capture(p@, texts_view(a@)),
            HostRequest::RunPrep(c) => Request::RunPrep(c@),
            HostRequest::FindUser(n) => Request::FindUser(n@),
            HostRequest::FindGroup(n) => Request::FindGroup(n@),
        }
    }
}

/// What the host has answered so far, in the order in which it was asked.
#[derive(Debug)]
pub struct HostLog {
    /// The captured outputs; `None` where the program could not be run.
    pub captured: Vec<Option<String>>,
    /// How many prep invocations were run.
    pub preps_run: usize,
    /// The ids that were looked up; `None` where the name is unknown.
    pub ids: Vec<Option<u32>>,
}

/// The captured outputs as the model sees them.
pub open spec fn captured_view(v: Seq<Option<String>>) -> Seq<Option<Seq<char>>> {
    Seq::new(v.len(), |i: int| opt_view(v[i]))
}

impl View for HostLog {
    type V = Answers;

    open spec fn view(&self) -> Answers {
        Answers {
            captured: captured_view(self.captured@),
            preps_run: self.preps_run as nat,
            ids: self.ids@,
        }
    }
}

impl HostLog {
    /// The log before anything was asked.
    pub fn new() -> (log: HostLog)
        ensures
            log@ == (Answers { captured: Seq::empty(), preps_run: 0, ids: Seq::empty() }),
    {
        let log = HostLog { captured: Vec::new(), preps_run: 0, ids: Vec::new() };
        assert(captured_view(log.captured@) =~= Seq::empty());
        log
    }

    /// Records what the program that was asked for wrote to its standard
    /// output, or `None` where it could not be run.
    pub fn record_captured(&mut self, output: Option<String>)
        ensures
            final(self)@ == (Answers {
                captured: old(self)@.captured.push(opt_view(output)),
                ..old(self)@
            }),
    {
        let ghost before = self@;
        self.captured.push(output);
        assert(self@.captured =~= before.captured.push(opt_view(output)));
    }

    /// Records that the prep invocation that was asked for has been run.
    /// The count stays where it is once it cannot grow.
    pub fn record_prep_run(&mut self)
        ensures
            final(self)@ == (Answers {
                preps_run: if old(self).preps_run < usize::MAX {
                    old(self)@.preps_run + 1
                } else {
                    old(self)@.preps_run
                },
                ..old(self)@
            }),
    {
        if self.preps_run < usize::MAX {
            self.preps_run = self.preps_run + 1;
        }
    }
}

/// How many answers of each kind have been used.
pub struct Position {
    pub captured: usize,
    pub preps: usize,
    pub ids: usize,
}

impl View for Position {
    type V = Cursor;

    open spec fn view(&self) -> Cursor {
        Cursor { captured: self.captured as nat, preps: self.preps as nat, ids: self.ids as nat }
    }
}

/// What the formatter of debug output prints for a string: the string in
/// double quotes, with the characters that need it escaped.
pub uninterp spec fn debug_text(s: Seq<char>) -> Seq<char>;

/// The debug form of a string.
///
/// Trusted: stands for the `{:?}` format of `str`, whose output depends on
/// the characters of the string alone.
#[verifier::external_body]
fn debug_string(s: &str) -> (out: String)
    ensures
        out@ == debug_text(s@),
{
    format!("{:?}", s)
}

/// The debug forms of the texts, separated by a comma and a space.
pub open spec fn debug_items(texts: Seq<Seq<char>>) -> Seq<char>
    decreases texts.len(),
{
    if texts.len() == 0 {
        Seq::empty()
    } else if texts.len() == 1 {
        debug_text(texts[0])
    } else {
        debug_items(texts.drop_last()) + ", "@ + debug_text(texts.last())
    }
}

/// What an error says.
pub open spec fn message_text(e: ResolveError) -> Seq<char> {
    match e {
        ResolveError::MissingFieldCommand => "missing field 'command'"@,
        ResolveError::MissingFieldUser => "missing field 'user'"@,
        ResolveError::MissingFieldGroup => "missing field 'group'"@,
        ResolveError::VarFailedToRun(program, args) => "var: failed to run command "@ + debug_text(
            program,
        ) + " with args ["@ + debug_items(args) + "]"@,
        ResolveError::VarMissingInput(name) => "var: missing input '"@ + name + "'"@,
        ResolveError::UnknownUser(name) => "unknown user '"@ + name + "' (couldn't find uid)!"@,
        ResolveError::UnknownGroup(name) => "unknown group '"@ + name
            + "' (couldn't find gid)!"@,
    }
}

impl ToRunCmdError {
    /// What the error says, as one text.
    pub fn message(&self) -> (out: String)
        ensures
            out@ == message_text(self@),
    {
        let mut buf: Vec<char> = Vec::new();
        match self {
            ToRunCmdError::MissingFieldCommand => {
                extend_str(&mut buf, "missing field 'command'");
            },
            ToRunCmdError::MissingFieldUser => {
                extend_str(&mut buf, "missing field 'user'");
            },
            ToRunCmdError::MissingFieldGroup => {
                extend_str(&mut buf, "missing field 'group'");
            },
            ToRunCmdError::VarFailedToRun(program, args) => {
                extend_str(&mut buf, "var: failed to run command ");
                let quoted = debug_string(program.as_str());
                extend_str(&mut buf, quoted.as_str());
                extend_str(&mut buf, " with args [");
                let ghost head = buf@;
                let ghost items = texts_view(args@);
                let mut i: usize = 0;
                while i < args.len()
                    invariant
                        i <= args.len(),
                        items == texts_view(args@),
                        buf@ == head + debug_items(items.take(i as int)),
                    decreases args.len() - i,
                {
                    let ghost before = buf@;
                    if i > 0 {
                        extend_str(&mut buf, ", ");
                    }
                    let quoted = debug_string(args[i].as_str());
                    extend_str(&mut buf, quoted.as_str());
                    proof {
                        assert(items.take(i + 1).drop_last() =~= items.take(i as int));
                        assert(items.take(i + 1).last() == args@[i as int]@);
                        if i > 0 {
                            assert(buf@ =~= head + (debug_items(items.take(i as int)) + ", "@
                                + debug_text(items[i as int])));
                        } else {
                            assert(debug_items(items.take(0)) =~= Seq::<char>::empty());
                            assert(buf@ =~= head + debug_text(items[0]));
                        }
                    }
                    i += 1;
                }
                assert(items.take(i as int) =~= items);
                extend_str(&mut buf, "]");
                assert(buf@ =~= message_text(self@));
            },
            ToRunCmdError::VarMissingInput(name) => {
                extend_str(&mut buf, "var: missing input '");
                extend_str(&mut buf, name.as_str());
                extend_str(&mut buf, "'");
            },
            ToRunCmdError::UnknownUser(name) => {
                extend_str(&mut buf, "unknown user '");
                extend_str(&mut buf, name.as_str());
                extend_str(&mut buf, "' (couldn't find uid)!");
            },
            ToRunCmdError::UnknownGroup(name) => {
                extend_str(&mut buf, "unknown group '");
                extend_str(&mut buf, name.as_str());
                extend_str(&mut buf, "' (couldn't find gid)!");
            },
        }
        assert(buf@ =~= message_text(self@));
        string_of(&buf)
    }
}

/// What resolving a template gave: the invocation unless resolving was given
/// up, the errors met, and the answers used.
pub struct Outcome {
    pub cmd: Option<RunCmd>,
    pub errors: Vec<ToRunCmdError>,
    pub pos: Position,
}

/// An optional invocation as the model sees it.
pub open spec fn opt_cmd_view(cmd: Option<RunCmd>) -> Option<Invocation> {
    match cmd {
        Some(c) => Some(c@),
        None => None,
    }
}

impl View for Outcome {
    type V = Resolved;

    open spec fn view(&self) -> Resolved {
        Resolved { cmd: opt_cmd_view(self.cmd), errors: errors_view(self.errors@), cur: self.pos@ }
    }
}

/// The invocation of a value, field by field.
pub proof fn lemma_cmd_model(c: RunCmd)
    ensures
        c@ == (Invocation {
            command: c.command@,
            args: texts_view(c.args@),
            user: c.user,
            group: c.group,
            groups: c.groups@,
            env: env_view(c.env@),
            working_dir: opt_view(c.working_dir),
            clean: invocations_view(c.command_clean@),
        }),
{
    assert(c@.clean =~= invocations_view(c.command_clean@));
}

/// The invocation made of the fields and the clean invocations, once the
/// clean templates are resolved.
pub open spec fn finished(f: Fields, c: Flow<Cleaned>) -> Flow<Resolved> {
    match c {
        Flow::Need(r) => Flow::Need(r),
        Flow::Done(c) => Flow::Done(
            Resolved {
                cmd: Some(
                    Invocation {
                        command: f.command,
                        args: f.args,
                        user: f.user,
                        group: f.group,
                        groups: f.groups,
                        env: f.env,
                        working_dir: f.working_dir,
                        clean: c.cmds,
                    },
                ),
                errors: c.errors,
                cur: c.cur,
            },
        ),
    }
}

/// What a resolution gives once the prep templates are through.
pub open spec fn after_preps(
    t: Template,
    s: Setting,
    pairs: Seq<Pair>,
    user: Option<Identity>,
    group: Option<Identity>,
    p: Flow<Prepared>,
) -> Flow<Resolved> {
    match p {
        Flow::Need(r) => Flow::Need(r),
        Flow::Done(p) => if p.given_up {
            Flow::Done(Resolved { cmd: None, errors: p.errors, cur: p.cur })
        } else {
            match fields_of(t, user, group, pairs, s.answers, p.errors, p.cur) {
                Flow::Need(r) => Flow::Need(r),
                Flow::Done(f) => finished(
                    f,
                    cleans_from(
                        t,
                        0,
                        s,
                        pairs,
                        user,
                        group,
                        Cleaned { cmds: Seq::empty(), errors: f.errors, cur: f.cur },
                    ),
                ),
            }
        },
    }
}

impl RunCmdBuilder {
    /// Resolves the template against the answers of `log` from `pos` on.
    /// `existing_vars` are the variables of the template around this one,
    /// `user` and `group` the identities it inherits.
    pub fn to_runcmd_(
        &self,
        vars: &Vec<(String, String)>,
        existing_vars: &Vec<(String, String)>,
        info: &ToRunCmdInfo,
        just_check: bool,
        log: &HostLog,
        user: &Option<Result<u32, String>>,
        group: &Option<Result<u32, String>>,
        at: Position,
    ) -> (r: Result<Outcome, HostRequest>)
        ensures
            match resolve(
                self@,
                setting_of(vars@, *info, just_check, *log),
                pairs_view(existing_vars@),
                opt_identity_view(*user),
                opt_identity_view(*group),
                at@,
            ) {
                Flow::Need(q) => r matches Err(e) && e@ == q,
                Flow::Done(d) => r matches Ok(o) && o@ == d,
            },
        decreases self,
    {
        let ghost t = self@;
        let ghost s = setting_of(vars@, *info, just_check, *log);
        let ghost uv = opt_identity_view(*user);
        let ghost gv = opt_identity_view(*group);
        let ghost goal = resolve(t, s, pairs_view(existing_vars@), uv, gv, at@);
        proof {
            lemma_builder_model(*self);
        }
        let start = Gathered {
            pairs: keep_existing(existing_vars, &self.vars),
            errors: Vec::new(),
            pos: at,
        };
        assert(errors_view(start.errors@) =~= Seq::empty());
        let v = match gather(&self.vars, vars, info, just_check, log, start) {
            Err(q) => {
                return Err(q);
            },
            Ok(v) => v,
        };
        let pairs = sort_pairs(&v.pairs);
        let ghost pv = pairs_view(pairs@);
        let own_user = effective_identity(&self.user, user);
        let own_group = effective_identity(&self.group, group);
        let mut errors = v.errors;
        let mut pos = v.pos;
        let ghost goal_p = preps_from(
            t,
            0,
            s,
            pv,
            uv,
            gv,
            Prepared { given_up: false, errors: errors_view(errors@), cur: pos@ },
        );
        assert(goal == after_preps(t, s, pv, uv, gv, goal_p));
        let mut i: usize = 0;
        while i < self.command_prep.len()
            invariant
                i <= self.command_prep.len(),
                t == self@,
                t.prep == templates_view(self.command_prep@),
                s == setting_of(vars@, *info, just_check, *log),
                pv == pairs_view(pairs@),
                uv == opt_identity_view(*user),
                gv == opt_identity_view(*group),
                opt_identity_view(own_user) == effective(t.user, uv),
                opt_identity_view(own_group) == effective(t.group, gv),
                goal == after_preps(t, s, pv, uv, gv, goal_p),
                goal == resolve(t, s, pairs_view(existing_vars@), uv, gv, at@),
                preps_from(
                    t,
                    i as int,
                    s,
                    pv,
                    uv,
                    gv,
                    Prepared { given_up: false, errors: errors_view(errors@), cur: pos@ },
                ) == goal_p,
            decreases self.command_prep.len() - i,
        {
            let ghost before = errors_view(errors@);
            match self.command_prep[i].to_runcmd_(
                vars,
                &pairs,
                info,
                just_check,
                log,
                &own_user,
                &own_group,
                pos,
            ) {
                Err(q) => {
                    return Err(q);
                },
                Ok(child) => {
                    let Outcome { cmd, errors: mut child_errors, pos: child_pos } = child;
                    match cmd {
                        Some(c) if child_errors.len() == 0 => {
                            if just_check {
                                pos = child_pos;
                            } else if child_pos.preps < log.preps_run {
                                pos =
                                Position {
                                    captured: child_pos.captured,
                                    preps: child_pos.preps + 1,
                                    ids: child_pos.ids,
                                };
                            } else {
                                return Err(HostRequest::RunPrep(c));
                            }
                        },
                        _ => {
                            let ghost more = errors_view(child_errors@);
                            errors.append(&mut child_errors);
                            assert(errors_view(errors@) =~= before + more);
                            pos = child_pos;
                            if !just_check {
                                return Ok(Outcome { cmd: None, errors, pos });
                            }
                        },
                    }
                },
            }
            i += 1;
        }
        let f = match resolve_fields(self, user, group, &pairs, log, errors, pos) {
            Err(q) => {
                return Err(q);
            },
            Ok(f) => f,
        };
        let FieldSet {
            command,
            args,
            user: user_id,
            group: group_id,
            groups,
            env,
            working_dir,
            errors: mut errors,
            pos: mut pos,
        } = f;
        let ghost fv = f@;
        let mut cleans: Vec<RunCmd> = Vec::new();
        let ghost goal_c = cleans_from(
            t,
            0,
            s,
            pv,
            uv,
            gv,
            Cleaned { cmds: Seq::empty(), errors: fv.errors, cur: fv.cur },
        );
        assert(invocations_view(cleans@) =~= Seq::empty());
        assert(goal == finished(fv, goal_c));
        let mut i: usize = 0;
        while i < self.command_clean.len()
            invariant
                i <= self.command_clean.len(),
                t == self@,
                t.clean == templates_view(self.command_clean@),
                s == setting_of(vars@, *info, just_check, *log),
                pv == pairs_view(pairs@),
                uv == opt_identity_view(*user),
                gv == opt_identity_view(*group),
                opt_identity_view(own_user) == effective(t.user, uv),
                opt_identity_view(own_group) == effective(t.group, gv),
                goal == finished(fv, goal_c),
                goal == resolve(t, s, pairs_view(existing_vars@), uv, gv, at@),
                cleans_from(
                    t,
                    i as int,
                    s,
                    pv,
                    uv,
                    gv,
                    Cleaned {
                        cmds: invocations_view(cleans@),
                        errors: errors_view(errors@),
                        cur: pos@,
                    },
                ) == goal_c,
            decreases self.command_clean.len() - i,
        {
            let ghost before = errors_view(errors@);
            let ghost cmds = invocations_view(cleans@);
            match self.command_clean[i].to_runcmd_(
                vars,
                &pairs,
                info,
                just_check,
                log,
                &own_user,
                &own_group,
                pos,
            ) {
                Err(q) => {
                    return Err(q);
                },
                Ok(child) => {
                    let Outcome { cmd, errors: mut child_errors, pos: child_pos } = child;
                    match cmd {
                        Some(c) if child_errors.len() == 0 => {
                            cleans.push(c);
                            assert(invocations_view(cleans@) =~= cmds.push(c@));
                        },
                        _ => {
                            let ghost more = errors_view(child_errors@);
                            errors.append(&mut child_errors);
                            assert(errors_view(errors@) =~= before + more);
                        },
                    }
                    pos = child_pos;
                },
            }
            i += 1;
        }
        let cmd = RunCmd {
            command,
            args,
            user: user_id,
            group: group_id,
            groups,
            env,
            working_dir,
            command_clean: cleans,
        };
        proof {
            lemma_cmd_model(cmd);
        }
        Ok(Outcome { cmd: Some(cmd), errors, pos })
    }
}

/// Where a resolution stands: it waits for the host, or it has ended with an
/// invocation or with the errors that were met.
#[derive(Debug)]
pub enum Resolution {
    Pending(HostRequest),
    Finished(Result<RunCmd, Vec<ToRunCmdError>>),
}

/// A result of resolving as the model sees it.
pub open spec fn verdict_view(r: Result<RunCmd, Vec<ToRunCmdError>>) -> Result<
    Invocation,
    Seq<ResolveError>,
> {
    match r {
        Ok(c) => Ok(c@),
        Err(es) => Err(errors_view(es@)),
    }
}

impl View for Resolution {
    type V = Flow<Result<Invocation, Seq<ResolveError>>>;

    open spec fn view(&self) -> Flow<Result<Invocation, Seq<ResolveError>>> {
        match self {
            Resolution::Pending(q) => Flow::Need(q@),
            Resolution::Finished(r) => Flow::Done(verdict_view(*r)),
        }
    }
}

/// The id of the named user in the host's user database.
///
/// Trusted: calls `users::get_user_by_name` and hands out the uid of the
/// user it found. Nothing is promised of the result: it depends on the
/// host's user database at the time of the call.
#[verifier::external_body]
fn find_user(name: &str) -> Option<u32> {
    users::get_user_by_name(name).map(|u| u.uid())
}

/// The id of the named group in the host's group database.
///
/// Trusted: calls `users::get_group_by_name` and hands out the gid of the
/// group it found. Nothing is promised of the result: it depends on the
/// host's group database at the time of the call.
#[verifier::external_body]
fn find_group(name: &str) -> Option<u32> {
    users::get_group_by_name(name).map(|g| g.gid())
}

/// Whether a request asks for the id of a user or group.
pub open spec fn is_lookup(q: Request) -> bool {
    q is FindUser || q is FindGroup
}

/// `log` with one more id at its end and nothing else changed.
pub open spec fn with_id(log: Answers, id: Option<u32>) -> Answers {
    Answers { ids: log.ids.push(id), ..log }
}

/// How a log has grown: by ids alone.
pub open spec fn grown_by_ids(before: Answers, after: Answers) -> bool {
    &&& after.captured == before.captured
    &&& after.preps_run == before.preps_run
    &&& before.ids.len() <= after.ids.len()
    &&& after.ids.take(before.ids.len() as int) == before.ids
}

/// Whether a resolution waits for the id of a user or group.
pub open spec fn needs_lookup<T>(f: Flow<T>) -> bool {
    f matches Flow::Need(q) && is_lookup(q)
}

/// How a call that looks ids up leaves the log: grown by ids alone, and by
/// as many as one call looks up if it still waits for one.
pub open spec fn looked_up(before: Answers, after: Answers, waits: bool) -> bool {
    &&& grown_by_ids(before, after)
    &&& waits ==> after.ids.len() >= before.ids.len() + LOOKUPS_PER_CALL
}

/// Records the id that was looked up.
pub fn record_id(log: &mut HostLog, id: Option<u32>)
    ensures
        final(log)@ == with_id(old(log)@, id),
{
    log.ids.push(id);
}

/// Looks the name up in the host's user or group database and records the
/// id in `log`.
pub fn answer_lookup(log: &mut HostLog, name: &str, group: bool)
    ensures
        exists|id: Option<u32>| final(log)@ == #[trigger] with_id(old(log)@, id),
{
    let id = if group {
        find_group(name)
    } else {
        find_user(name)
    };
    record_id(log, id);
}

/// How many lookups one call answers before it hands a lookup back.
pub const LOOKUPS_PER_CALL: usize = 256;

impl RunCmdBuilder {
    /// Resolves a template that stands on its own against the answers of
    /// `log`, from the first answer on.
    pub fn to_runcmd_wrapper(
        &self,
        vars: &Vec<(String, String)>,
        info: &ToRunCmdInfo,
        existing_vars: &Vec<(String, String)>,
        just_check: bool,
        log: &HostLog,
    ) -> (r: Resolution)
        ensures
            r@ == resolve_top(
                self@,
                setting_of(vars@, *info, just_check, *log),
                pairs_view(existing_vars@),
            ),
            r matches Resolution::Finished(Err(errors)) ==> errors.len() > 0,
    {
        proof {
            lemma_verdict_has_errors(
                self@,
                setting_of(vars@, *info, just_check, *log),
                pairs_view(existing_vars@),
            );
        }
        let none: Option<Result<u32, String>> = None;
        let start = Position { captured: 0, preps: 0, ids: 0 };
        match self.to_runcmd_(vars, existing_vars, info, just_check, log, &none, &none, start) {
            Err(q) => Resolution::Pending(q),
            Ok(o) => {
                let Outcome { cmd, errors, pos } = o;
                match cmd {
                    Some(c) if errors.len() == 0 => Resolution::Finished(Ok(c)),
                    _ => Resolution::Finished(Err(errors)),
                }
            },
        }
    }

    /// Resolves a template as far as the answers of `log` reach and the
    /// user and group databases of the host can take it. The ids that have
    /// to be looked up are looked up here and recorded in `log`, up to
    /// `LOOKUPS_PER_CALL` of them. The result is that of `to_runcmd_wrapper`
    /// on the log as it is left.
    pub fn to_runcmd_with_lookups(
        &self,
        vars: &Vec<(String, String)>,
        info: &ToRunCmdInfo,
        existing_vars: &Vec<(String, String)>,
        just_check: bool,
        log: &mut HostLog,
    ) -> (r: Resolution)
        ensures
            looked_up(old(log)@, final(log)@, needs_lookup(r@)),
            r matches Resolution::Finished(Err(errors)) ==> errors.len() > 0,
            r@ == resolve_top(
                self@,
                setting_of(vars@, *info, just_check, *final(log)),
                pairs_view(existing_vars@),
            ),
    {
        let mut budget: usize = LOOKUPS_PER_CALL;
        assert(log@.ids.take(log@.ids.len() as int) =~= log@.ids);
        loop
            invariant
                grown_by_ids(old(log)@, log@),
                budget <= LOOKUPS_PER_CALL,
                log@.ids.len() == old(log)@.ids.len() + (LOOKUPS_PER_CALL - budget),
            decreases budget,
        {
            let r = self.to_runcmd_wrapper(vars, info, existing_vars, just_check, log);
            if budget == 0 {
                return r;
            }
            budget -= 1;
            let ghost before = log@;
            match r {
                Resolution::Pending(HostRequest::FindUser(name)) => {
                    answer_lookup(log, name.as_str(), false);
                },
                Resolution::Pending(HostRequest::FindGroup(name)) => {
                    answer_lookup(log, name.as_str(), true);
                },
                other => {
                    return other;
                },
            }
            assert(log@.ids.take(old(log)@.ids.len() as int) =~= before.ids.take(
                old(log)@.ids.len() as int,
            ));
        }
    }

    /// Resolves the template for a run: prep invocations are run.
    pub fn to_runcmd(
        &self,
        vars: &Vec<(String, String)>,
        info: &ToRunCmdInfo,
        log: &mut HostLog,
    ) -> (r: Resolution)
        ensures
            looked_up(old(log)@, final(log)@, needs_lookup(r@)),
            r matches Resolution::Finished(Err(errors)) ==> errors.len() > 0,
            r@ == resolve_top(self@, setting_of(vars@, *info, false, *final(log)), Seq::empty()),
    {
        let none: Vec<(String, String)> = Vec::new();
        assert(pairs_view(none@) =~= Seq::empty());
        self.to_runcmd_with_lookups(vars, info, &none, false, log)
    }

    /// Resolves the template as a check: prep invocations are resolved but
    /// not run.
    pub fn to_runcmd_check(
        &self,
        vars: &Vec<(String, String)>,
        info: &ToRunCmdInfo,
        log: &mut HostLog,
    ) -> (r: Resolution)
        ensures
            looked_up(old(log)@, final(log)@, needs_lookup(r@)),
            r matches Resolution::Finished(Err(errors)) ==> errors.len() > 0,
            r@ == resolve_top(self@, setting_of(vars@, *info, true, *final(log)), Seq::empty()),
    {
        let none: Vec<(String, String)> = Vec::new();
        assert(pairs_view(none@) =~= Seq::empty());
        self.to_runcmd_with_lookups(vars, info, &none, true, log)
    }

    /// Resolves the template for a run, with the variables of the template
    /// around it.
    pub fn to_runcmd_with_existing_vars(
        &self,
        vars: &Vec<(String, String)>,
        info: &ToRunCmdInfo,
        existing_vars: &Vec<(String, String)>,
        log: &mut HostLog,
    ) -> (r: Resolution)
        ensures
            looked_up(old(log)@, final(log)@, needs_lookup(r@)),
            r matches Resolution::Finished(Err(errors)) ==> errors.len() > 0,
            r@ == resolve_top(
                self@,
                setting_of(vars@, *info, false, *final(log)),
                pairs_view(existing_vars@),
            ),
    {
        self.to_runcmd_with_lookups(vars, info, existing_vars, false, log)
    }

    /// Checks the template against empty input. The errors that may go away
    /// by the time of a run come first; the others, if there are any, make
    /// the template unfit to be kept.
    pub fn verify(&self, info: &ToRunCmdInfo, log: &mut HostLog) -> (r: Verification)
        ensures
            looked_up(old(log)@, final(log)@, needs_lookup(r@)),
            r@ == checked(
                resolve_top(
                    self@,
                    setting_of(Seq::empty(), *info, true, *final(log)),
                    Seq::empty(),
                ),
            ),
            r matches Verification::Pending(q) ==> !(q@ is RunPrep),
            r matches Verification::Finished(_, fatal) ==> (fatal is Ok <==> fit(
                self@,
                None,
                None,
            )),
    {
        let none: Vec<(String, String)> = Vec::new();
        assert(pairs_view(none@) =~= pairs_view(Seq::empty()));
        let r = self.to_runcmd_check(&none, info, log);
        proof {
            lemma_check(
                self@,
                setting_of(Seq::empty(), *info, true, *log),
                Seq::empty(),
                None,
                None,
                Cursor::start(),
            );
            assert(those(Seq::<ResolveError>::empty(), true) =~= Seq::<ResolveError>::empty());
        }
        match r {
            Resolution::Pending(q) => Verification::Pending(q),
            Resolution::Finished(Ok(_)) => {
                let nf: Vec<ToRunCmdError> = Vec::new();
                assert(errors_view(nf@) =~= Seq::empty());
                Verification::Finished(nf, Ok(()))
            },
            Resolution::Finished(Err(errors)) => {
                let (nf, fatal) = sort_errors(&errors);
                if fatal.len() == 0 {
                    Verification::Finished(nf, Ok(()))
                } else {
                    Verification::Finished(nf, Err(fatal))
                }
            },
        }
    }
}

/// Whether an error makes a template unfit to be kept: a missing command,
/// user or group. The other errors may go away by the time of a run.
pub open spec fn is_fatal(e: ResolveError) -> bool {
    e is MissingFieldCommand || e is MissingFieldUser || e is MissingFieldGroup
}

/// The fatal errors of a list, or the others, in their order.
pub open spec fn those(errors: Seq<ResolveError>, fatal: bool) -> Seq<ResolveError>
    decreases errors.len(),
{
    if errors.len() == 0 {
        Seq::empty()
    } else {
        let before = those(errors.drop_last(), fatal);
        if is_fatal(errors.last()) == fatal {
            before.push(errors.last())
        } else {
            before
        }
    }
}

/// What a check gives: the errors that are not fatal and, where some are,
/// the fatal ones.
pub open spec fn checked(f: Flow<Result<Invocation, Seq<ResolveError>>>) -> Flow<
    (Seq<ResolveError>, Result<(), Seq<ResolveError>>),
> {
    match f {
        Flow::Need(q) => Flow::Need(q),
        Flow::Done(Ok(_)) => Flow::Done((Seq::empty(), Ok(()))),
        Flow::Done(Err(errors)) => Flow::Done(
            (
                those(errors, false),
                if those(errors, true).len() == 0 {
                    Ok(())
                } else {
                    Err(those(errors, true))
                },
            ),
        ),
    }
}

/// Where a check stands: it waits for the host, or it has ended.
#[derive(Debug)]
pub enum Verification {
    Pending(HostRequest),
    Finished(Vec<ToRunCmdError>, Result<(), Vec<ToRunCmdError>>),
}

impl View for Verification {
    type V = Flow<(Seq<ResolveError>, Result<(), Seq<ResolveError>>)>;

    open spec fn view(&self) -> Flow<(Seq<ResolveError>, Result<(), Seq<ResolveError>>)> {
        match self {
            Verification::Pending(q) => Flow::Need(q@),
            Verification::Finished(nf, Ok(_)) => Flow::Done((errors_view(nf@), Ok(()))),
            Verification::Finished(nf, Err(fatal)) => Flow::Done(
                (errors_view(nf@), Err(errors_view(fatal@))),
            ),
        }
    }
}

/// A copy of an error.
pub fn copy_error(e: &ToRunCmdError) -> (out: ToRunCmdError)
    ensures
        out@ == e@,
{
    match e {
        ToRunCmdError::MissingFieldCommand => ToRunCmdError::MissingFieldCommand,
        ToRunCmdError::MissingFieldUser => ToRunCmdError::MissingFieldUser,
        ToRunCmdError::MissingFieldGroup => ToRunCmdError::MissingFieldGroup,
        ToRunCmdError::VarFailedToRun(p, a) => ToRunCmdError::VarFailedToRun(
            p.clone(),
            copy_texts(a),
        ),
        ToRunCmdError::VarMissingInput(n) => ToRunCmdError::VarMissingInput(n.clone()),
        ToRunCmdError::UnknownUser(n) => ToRunCmdError::UnknownUser(n.clone()),
        ToRunCmdError::UnknownGroup(n) => ToRunCmdError::UnknownGroup(n.clone()),
    }
}

/// Whether an error makes a template unfit to be kept.
pub fn fatal(e: &ToRunCmdError) -> (r: bool)
    ensures
        r == is_fatal(e@),
{
    match e {
        ToRunCmdError::MissingFieldCommand => true,
        ToRunCmdError::MissingFieldUser => true,
        ToRunCmdError::MissingFieldGroup => true,
        _ => false,
    }
}

/// Parts a list of errors into those that are not fatal and those that are.
pub fn sort_errors(errors: &Vec<ToRunCmdError>) -> (r: (Vec<ToRunCmdError>, Vec<ToRunCmdError>))
    ensures
        errors_view(r.0@) == those(errors_view(errors@), false),
        errors_view(r.1@) == those(errors_view(errors@), true),
{
    let ghost ev = errors_view(errors@);
    let mut nf: Vec<ToRunCmdError> = Vec::new();
    let mut bad: Vec<ToRunCmdError> = Vec::new();
    let mut i: usize = 0;
    assert(ev.take(0) =~= Seq::<ResolveError>::empty());
    assert(errors_view(nf@) =~= Seq::empty());
    assert(errors_view(bad@) =~= Seq::empty());
    while i < errors.len()
        invariant
            i <= errors.len(),
            ev == errors_view(errors@),
            errors_view(nf@) == those(ev.take(i as int), false),
            errors_view(bad@) == those(ev.take(i as int), true),
        decreases errors.len() - i,
    {
        let ghost nf0 = errors_view(nf@);
        let ghost bad0 = errors_view(bad@);
        proof {
            assert(ev.take(i + 1).drop_last() =~= ev.take(i as int));
            assert(ev.take(i + 1).last() == ev[i as int]);
        }
        let e = copy_error(&errors[i]);
        if fatal(&e) {
            bad.push(e);
            assert(errors_view(bad@) =~= bad0.push(ev[i as int]));
        } else {
            nf.push(e);
            assert(errors_view(nf@) =~= nf0.push(ev[i as int]));
        }
        i += 1;
    }
    assert(ev.take(i as int) =~= ev);
    (nf, bad)
}

} // verus!
