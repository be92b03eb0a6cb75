//! What a template resolves to.
//!
//! Resolving a template needs things that only the host can give: the output
//! of the programs that variables are taken from, the running of prep
//! invocations, and the ids of users and groups. The resolution is therefore
//! stated against the answers given so far: it either ends, or names the
//! next thing it needs. Asked again with that answer added, it goes on from
//! there.

use vstd::prelude::*;
use crate::model::{
    key_index, keys_of, lookup, EnvSource, Identity, Invocation, Template, VarSource,
};
use crate::number::decimal_digits;
use crate::subst::{substituted, Pair};

verus! {

/// Why a template could not be resolved.
pub enum ResolveError {
    MissingFieldCommand,
    MissingFieldUser,
    MissingFieldGroup,
    /// The program that a variable is taken from could not be run.
    VarFailedToRun(Seq<char>, Seq<Seq<char>>),
    /// The client did not supply the named variable.
    VarMissingInput(Seq<char>),
    UnknownUser(Seq<char>),
    UnknownGroup(Seq<char>),
}

/// Something that only the host can do.
pub enum Request {
    /// Run the program with the arguments and capture its standard output.
    Capture(Seq<char>, Seq<Seq<char>>),
    /// Run a prep invocation to its end.
    RunPrep(Invocation),
    /// Look up the id of the named user.
    FindUser(Seq<char>),
    /// Look up the id of the named group.
    FindGroup(Seq<char>),
}

/// What the host has answered so far, in the order in which it was asked:
/// the captured outputs (`None` where the program could not be run), the
/// number of prep invocations that were run, and the ids that were looked up
/// (`None` where the name is unknown).
pub struct Answers {
    pub captured: Seq<Option<Seq<char>>>,
    pub preps_run: nat,
    pub ids: Seq<Option<u32>>,
}

/// How many answers of each kind have been used.
pub struct Cursor {
    pub captured: nat,
    pub preps: nat,
    pub ids: nat,
}

impl Cursor {
    pub open spec fn start() -> Cursor {
        Cursor { captured: 0, preps: 0, ids: 0 }
    }
}

/// What stays the same throughout a resolution: the client's variables, the
/// id of the connection, whether this is only a check, and the answers.
pub struct Setting {
    pub inputs: Seq<Pair>,
    pub con_id: nat,
    pub check: bool,
    pub answers: Answers,
}

/// A step of a resolution: it needs something from the host, or it is done.
pub enum Flow<T> {
    Need(Request),
    Done(T),
}

/// The variables resolved so far, the errors met, and the answers used.
pub struct Progress {
    pub pairs: Seq<Pair>,
    pub errors: Seq<ResolveError>,
    pub cur: Cursor,
}

/// The value of one variable source, or the error it gives.
pub open spec fn source_value(source: VarSource, s: Setting, cur: Cursor) -> Flow<
    (Result<Seq<char>, ResolveError>, Cursor),
>
    decreases source,
{
    match source {
        VarSource::Literal(v) => Flow::Done((Ok(v), cur)),
        VarSource::CommandOutput(program, args) => if cur.captured < s.answers.captured.len() {
            let next = Cursor { captured: cur.captured + 1, ..cur };
            match s.answers.captured[cur.captured as int] {
                Some(out) => Flow::Done((Ok(out), next)),
                None => Flow::Done((Err(ResolveError::VarFailedToRun(program, args)), next)),
            }
        } else {
            Flow::Need(Request::Capture(program, args))
        },
        VarSource::Input(name) => match lookup(s.inputs, name) {
            Some(v) => Flow::Done((Ok(v), cur)),
            None => Flow::Done((Err(ResolveError::VarMissingInput(name)), cur)),
        },
        VarSource::InputOrDefault(name, default) => match lookup(s.inputs, name) {
            Some(v) => Flow::Done((Ok(v), cur)),
            None => source_value(*default, s, cur),
        },
        VarSource::ConnectionId => Flow::Done((Ok(decimal_digits(s.con_id)), cur)),
    }
}

/// The variables `vars[i..]` resolved in order and added to `acc`. A source
/// that gives an error leaves its variable with an empty value.
pub open spec fn values_from(
    vars: Seq<(Seq<char>, VarSource)>,
    i: int,
    s: Setting,
    acc: Progress,
) -> Flow<Progress>
    decreases vars.len() - i,
{
    if i < 0 || i >= vars.len() {
        Flow::Done(acc)
    } else {
        match source_value(vars[i].1, s, acc.cur) {
            Flow::Need(r) => Flow::Need(r),
            Flow::Done((Ok(v), cur)) => values_from(
                vars,
                i + 1,
                s,
                Progress { pairs: acc.pairs.push((vars[i].0, v)), errors: acc.errors, cur },
            ),
            Flow::Done((Err(e), cur)) => values_from(
                vars,
                i + 1,
                s,
                Progress {
                    pairs: acc.pairs.push((vars[i].0, Seq::empty())),
                    errors: acc.errors.push(e),
                    cur,
                },
            ),
        }
    }
}

/// The pairs of `existing` whose names are not among `own`, in order.
pub open spec fn kept(existing: Seq<Pair>, own: Seq<Seq<char>>) -> Seq<Pair>
    decreases existing.len(),
{
    if existing.len() == 0 {
        Seq::empty()
    } else {
        let before = kept(existing.drop_last(), own);
        if key_index(own, existing.last().0, 0) is None {
            before.push(existing.last())
        } else {
            before
        }
    }
}

/// Whether `a` comes before `b` in the order of strings: character by
/// character, a text before every longer text that it begins.
pub open spec fn text_before(a: Seq<char>, b: Seq<char>) -> bool
    decreases a.len(),
{
    if b.len() == 0 {
        false
    } else if a.len() == 0 {
        true
    } else if a[0] != b[0] {
        a[0] < b[0]
    } else {
        text_before(a.drop_first(), b.drop_first())
    }
}

/// The first position at or after `from` whose name comes after `name`.
pub open spec fn place_after(sorted: Seq<Pair>, name: Seq<char>, from: int) -> int
    decreases sorted.len() - from,
{
    if from < 0 || from >= sorted.len() {
        sorted.len() as int
    } else if text_before(name, sorted[from].0) {
        from
    } else {
        place_after(sorted, name, from + 1)
    }
}

/// `pairs` in the order of their names; pairs of one name keep their order.
pub open spec fn sorted_by_name(pairs: Seq<Pair>) -> Seq<Pair>
    decreases pairs.len(),
{
    if pairs.len() == 0 {
        Seq::empty()
    } else {
        let before = sorted_by_name(pairs.drop_last());
        before.insert(place_after(before, pairs.last().0, 0), pairs.last())
    }
}

/// The texts of a list with the variables replaced in each.
pub open spec fn substituted_all(pairs: Seq<Pair>, texts: Seq<Seq<char>>) -> Seq<Seq<char>> {
    Seq::new(texts.len(), |i: int| substituted(pairs, texts[i]))
}

/// An optional text with the variables replaced.
pub open spec fn substituted_opt(pairs: Seq<Pair>, text: Option<Seq<char>>) -> Option<Seq<char>> {
    match text {
        Some(t) => Some(substituted(pairs, t)),
        None => None,
    }
}

/// The value of an environment entry with the variables replaced.
pub open spec fn substituted_source(pairs: Seq<Pair>, source: EnvSource) -> EnvSource {
    match source {
        Ok(v) => Ok(substituted(pairs, v)),
        Err(None) => Err(None),
        Err(Some(d)) => Err(Some(substituted(pairs, d))),
    }
}

/// An environment with the variables replaced in names, values and defaults.
pub open spec fn substituted_env(pairs: Seq<Pair>, env: Seq<(Seq<char>, EnvSource)>) -> Seq<
    (Seq<char>, EnvSource),
> {
    Seq::new(
        env.len(),
        |i: int| (substituted(pairs, env[i].0), substituted_source(pairs, env[i].1)),
    )
}

/// An id, the errors met, and the answers used.
pub struct Numbered {
    pub id: u32,
    pub errors: Seq<ResolveError>,
    pub cur: Cursor,
}

/// The id of a user or group. A numeric id stands for itself. A name has its
/// variables replaced and is then looked up; an unknown name is an error and
/// gives id 0.
pub open spec fn identity_id(
    identity: Identity,
    group: bool,
    pairs: Seq<Pair>,
    answers: Answers,
    errors: Seq<ResolveError>,
    cur: Cursor,
) -> Flow<Numbered> {
    match identity {
        Ok(id) => Flow::Done(Numbered { id, errors, cur }),
        Err(name) => {
            let full = substituted(pairs, name);
            if cur.ids < answers.ids.len() {
                let next = Cursor { ids: cur.ids + 1, ..cur };
                match answers.ids[cur.ids as int] {
                    Some(id) => Flow::Done(Numbered { id, errors, cur: next }),
                    None => Flow::Done(
                        Numbered {
                            id: 0,
                            errors: errors.push(
                                if group {
                                    ResolveError::UnknownGroup(full)
                                } else {
                                    ResolveError::UnknownUser(full)
                                },
                            ),
                            cur: next,
                        },
                    ),
                }
            } else if group {
                Flow::Need(Request::FindGroup(full))
            } else {
                Flow::Need(Request::FindUser(full))
            }
        },
    }
}

/// The id of the user or group of a template: its own, or else the one it
/// inherits. Where there is neither, that is an error and the id is 0.
pub open spec fn owner_id(
    own: Option<Identity>,
    inherited: Option<Identity>,
    group: bool,
    pairs: Seq<Pair>,
    answers: Answers,
    errors: Seq<ResolveError>,
    cur: Cursor,
) -> Flow<Numbered> {
    match effective(own, inherited) {
        Some(identity) => identity_id(identity, group, pairs, answers, errors, cur),
        None => Flow::Done(
            Numbered {
                id: 0,
                errors: errors.push(
                    if group {
                        ResolveError::MissingFieldGroup
                    } else {
                        ResolveError::MissingFieldUser
                    },
                ),
                cur,
            },
        ),
    }
}

/// A template's own user or group, or else the inherited one.
pub open spec fn effective(own: Option<Identity>, inherited: Option<Identity>) -> Option<Identity> {
    match own {
        Some(identity) => Some(identity),
        None => inherited,
    }
}

/// Ids, the errors met, and the answers used.
pub struct NumberedAll {
    pub ids: Seq<u32>,
    pub errors: Seq<ResolveError>,
    pub cur: Cursor,
}

/// The ids of the supplementary groups `groups[i..]`, added to `acc`.
pub open spec fn group_ids_from(
    groups: Seq<Identity>,
    i: int,
    pairs: Seq<Pair>,
    answers: Answers,
    acc: NumberedAll,
) -> Flow<NumberedAll>
    decreases groups.len() - i,
{
    if i < 0 || i >= groups.len() {
        Flow::Done(acc)
    } else {
        match identity_id(groups[i], true, pairs, answers, acc.errors, acc.cur) {
            Flow::Need(r) => Flow::Need(r),
            Flow::Done(n) => group_ids_from(
                groups,
                i + 1,
                pairs,
                answers,
                NumberedAll { ids: acc.ids.push(n.id), errors: n.errors, cur: n.cur },
            ),
        }
    }
}

/// An invocation without its clean invocations, the errors met so far, and
/// the answers used.
pub struct Fields {
    pub command: Seq<char>,
    pub args: Seq<Seq<char>>,
    pub user: u32,
    pub group: u32,
    pub groups: Seq<u32>,
    pub env: Seq<(Seq<char>, EnvSource)>,
    pub working_dir: Option<Seq<char>>,
    pub errors: Seq<ResolveError>,
    pub cur: Cursor,
}

/// The fields of the invocation: every text with the variables replaced,
/// every identity as an id. A missing command is an error and gives an empty
/// command. Errors come in the order command, user, group, groups.
pub open spec fn fields_of(
    t: Template,
    user: Option<Identity>,
    group: Option<Identity>,
    pairs: Seq<Pair>,
    answers: Answers,
    errors: Seq<ResolveError>,
    cur: Cursor,
) -> Flow<Fields> {
    let errors1 = if t.command is None {
        errors.push(ResolveError::MissingFieldCommand)
    } else {
        errors
    };
    match owner_id(t.user, user, false, pairs, answers, errors1, cur) {
        Flow::Need(r) => Flow::Need(r),
        Flow::Done(u) => match owner_id(t.group, group, true, pairs, answers, u.errors, u.cur) {
            Flow::Need(r) => Flow::Need(r),
            Flow::Done(g) => match group_ids_from(
                t.groups,
                0,
                pairs,
                answers,
                NumberedAll { ids: Seq::empty(), errors: g.errors, cur: g.cur },
            ) {
                Flow::Need(r) => Flow::Need(r),
                Flow::Done(gs) => Flow::Done(
                    Fields {
                        command: match t.command {
                            Some(c) => substituted(pairs, c),
                            None => Seq::empty(),
                        },
                        args: substituted_all(pairs, t.args),
                        user: u.id,
                        group: g.id,
                        groups: gs.ids,
                        env: substituted_env(pairs, t.env),
                        working_dir: substituted_opt(pairs, t.working_dir),
                        errors: gs.errors,
                        cur: gs.cur,
                    },
                ),
            },
        },
    }
}

/// What resolving a template gave: the invocation unless resolving was given
/// up, the errors met, and the answers used.
pub struct Resolved {
    pub cmd: Option<Invocation>,
    pub errors: Seq<ResolveError>,
    pub cur: Cursor,
}

impl Resolved {
    /// Whether the template resolved to an invocation without any error.
    pub open spec fn good(self) -> bool {
        self.cmd is Some && self.errors.len() == 0
    }
}

/// How far the prep templates have come: whether resolving was given up,
/// the errors met, and the answers used.
pub struct Prepared {
    pub given_up: bool,
    pub errors: Seq<ResolveError>,
    pub cur: Cursor,
}

/// The clean invocations so far, the errors met, and the answers used.
pub struct Cleaned {
    pub cmds: Seq<Invocation>,
    pub errors: Seq<ResolveError>,
    pub cur: Cursor,
}

/// Resolves a template.
///
/// Its variables are the pairs of `existing` that it does not bind itself,
/// followed by its own, sorted by name. Each prep template is resolved with
/// these variables in turn, and run unless this is a check. A prep template
/// that does not resolve ends the resolution with its errors; in a check the
/// errors are kept and resolving goes on. Then come the fields and, one by
/// one, the clean templates; one that does not resolve adds its errors and is
/// left out. Nested templates inherit the user and group of this one.
pub open spec fn resolve(
    t: Template,
    s: Setting,
    existing: Seq<Pair>,
    user: Option<Identity>,
    group: Option<Identity>,
    cur: Cursor,
) -> Flow<Resolved>
    decreases t, 1int, 0int,
{
    let start = Progress { pairs: kept(existing, keys_of(t.vars)), errors: Seq::empty(), cur };
    match values_from(t.vars, 0, s, start) {
        Flow::Need(r) => Flow::Need(r),
        Flow::Done(v) => {
            let pairs = sorted_by_name(v.pairs);
            match preps_from(
                t,
                0,
                s,
                pairs,
                user,
                group,
                Prepared { given_up: false, errors: v.errors, cur: v.cur },
            ) {
                Flow::Need(r) => Flow::Need(r),
                Flow::Done(p) => if p.given_up {
                    Flow::Done(Resolved { cmd: None, errors: p.errors, cur: p.cur })
                } else {
                    match fields_of(t, user, group, pairs, s.answers, p.errors, p.cur) {
                        Flow::Need(r) => Flow::Need(r),
                        Flow::Done(f) => match cleans_from(
                            t,
                            0,
                            s,
                            pairs,
                            user,
                            group,
                            Cleaned { cmds: Seq::empty(), errors: f.errors, cur: f.cur },
                        ) {
                            Flow::Need(r) => Flow::Need(r),
                            Flow::Done(c) => Flow::Done(
                                Resolved {
                                    cmd: Some(
                                        Invocation {
                                            command: f.command,
                                            args: f.args,
                                            user: f.user,
                                            group: f.group,
                                            groups: f.groups,
                                            env: f.env,
                                            working_dir: f.working_dir,
                                            clean: c.cmds,
                                        },
                                    ),
                                    errors: c.errors,
                                    cur: c.cur,
                                },
                            ),
                        },
                    }
                },
            }
        },
    }
}

/// Resolves and runs the prep templates `t.prep[i..]` in turn.
pub open spec fn preps_from(
    t: Template,
    i: int,
    s: Setting,
    pairs: Seq<Pair>,
    user: Option<Identity>,
    group: Option<Identity>,
    acc: Prepared,
) -> Flow<Prepared>
    decreases t, 0int, t.prep.len() - i,
{
    if i < 0 || i >= t.prep.len() {
        Flow::Done(acc)
    } else {
        match resolve(
            t.prep[i],
            s,
            pairs,
            effective(t.user, user),
            effective(t.group, group),
            acc.cur,
        ) {
            Flow::Need(r) => Flow::Need(r),
            Flow::Done(child) => if child.good() {
                if s.check {
                    preps_from(t, i + 1, s, pairs, user, group, Prepared { cur: child.cur, ..acc })
                } else if child.cur.preps < s.answers.preps_run {
                    preps_from(
                        t,
                        i + 1,
                        s,
                        pairs,
                        user,
                        group,
                        Prepared {
                            cur: Cursor { preps: child.cur.preps + 1, ..child.cur },
                            ..acc
                        },
                    )
                } else {
                    Flow::Need(Request::RunPrep(child.cmd->0))
                }
            } else if s.check {
                preps_from(
                    t,
                    i + 1,
                    s,
                    pairs,
                    user,
                    group,
                    Prepared {
                        given_up: false,
                        errors: acc.errors + child.errors,
                        cur: child.cur,
                    },
                )
            } else {
                Flow::Done(
                    Prepared {
                        given_up: true,
                        errors: acc.errors + child.errors,
                        cur: child.cur,
                    },
                )
            },
        }
    }
}

/// Resolves the clean templates `t.clean[i..]` in turn.
pub open spec fn cleans_from(
    t: Template,
    i: int,
    s: Setting,
    pairs: Seq<Pair>,
    user: Option<Identity>,
    group: Option<Identity>,
    acc: Cleaned,
) -> Flow<Cleaned>
    decreases t, 0int, t.clean.len() - i,
{
    if i < 0 || i >= t.clean.len() {
        Flow::Done(acc)
    } else {
        match resolve(
            t.clean[i],
            s,
            pairs,
            effective(t.user, user),
            effective(t.group, group),
            acc.cur,
        ) {
            Flow::Need(r) => Flow::Need(r),
            Flow::Done(child) => if child.good() {
                cleans_from(
                    t,
                    i + 1,
                    s,
                    pairs,
                    user,
                    group,
                    Cleaned {
                        cmds: acc.cmds.push(child.cmd->0),
                        errors: acc.errors,
                        cur: child.cur,
                    },
                )
            } else {
                cleans_from(
                    t,
                    i + 1,
                    s,
                    pairs,
                    user,
                    group,
                    Cleaned {
                        cmds: acc.cmds,
                        errors: acc.errors + child.errors,
                        cur: child.cur,
                    },
                )
            },
        }
    }
}

/// The result of a resolution that is done: the invocation where there is
/// one and no error was met, the errors otherwise.
pub open spec fn verdict(r: Resolved) -> Result<Invocation, Seq<ResolveError>> {
    if r.good() {
        Ok(r.cmd->0)
    } else {
        Err(r.errors)
    }
}

/// A resolution that gives no invocation has met an error.
pub proof fn lemma_no_invocation_has_errors(
    t: Template,
    s: Setting,
    existing: Seq<Pair>,
    user: Option<Identity>,
    group: Option<Identity>,
    cur: Cursor,
)
    ensures
        resolve(t, s, existing, user, group, cur) matches Flow::Done(r) ==> (r.cmd is None
            ==> r.errors.len() > 0),
    decreases t, 1int, 0int,
{
    let start = Progress { pairs: kept(existing, keys_of(t.vars)), errors: Seq::empty(), cur };
    match values_from(t.vars, 0, s, start) {
        Flow::Need(_) => {},
        Flow::Done(v) => {
            lemma_given_up_has_errors(
                t,
                0,
                s,
                sorted_by_name(v.pairs),
                user,
                group,
                Prepared { given_up: false, errors: v.errors, cur: v.cur },
            );
        },
    }
}

/// Where the prep templates are given up, an error was met.
pub proof fn lemma_given_up_has_errors(
    t: Template,
    i: int,
    s: Setting,
    pairs: Seq<Pair>,
    user: Option<Identity>,
    group: Option<Identity>,
    acc: Prepared,
)
    ensures
        preps_from(t, i, s, pairs, user, group, acc) matches Flow::Done(p) ==> (p.given_up
            ==> acc.given_up || p.errors.len() > 0),
    decreases t, 0int, t.prep.len() - i,
{
    if 0 <= i < t.prep.len() {
        let inner_user = effective(t.user, user);
        let inner_group = effective(t.group, group);
        lemma_no_invocation_has_errors(t.prep[i], s, pairs, inner_user, inner_group, acc.cur);
        match resolve(t.prep[i], s, pairs, inner_user, inner_group, acc.cur) {
            Flow::Need(_) => {},
            Flow::Done(child) => {
                if child.good() {
                    if s.check {
                        lemma_given_up_has_errors(
                            t,
                            i + 1,
                            s,
                            pairs,
                            user,
                            group,
                            Prepared { cur: child.cur, ..acc },
                        );
                    } else if child.cur.preps < s.answers.preps_run {
                        lemma_given_up_has_errors(
                            t,
                            i + 1,
                            s,
                            pairs,
                            user,
                            group,
                            Prepared {
                                cur: Cursor { preps: child.cur.preps + 1, ..child.cur },
                                ..acc
                            },
                        );
                    }
                } else if s.check {
                    lemma_given_up_has_errors(
                        t,
                        i + 1,
                        s,
                        pairs,
                        user,
                        group,
                        Prepared {
                            given_up: false,
                            errors: acc.errors + child.errors,
                            cur: child.cur,
                        },
                    );
                }
            },
        }
    }
}

/// A verdict against a template names at least one error.
pub proof fn lemma_verdict_has_errors(t: Template, s: Setting, existing: Seq<Pair>)
    ensures
        resolve_top(t, s, existing) matches Flow::Done(Err(errors)) ==> errors.len() > 0,
{
    lemma_no_invocation_has_errors(t, s, existing, None, None, Cursor::start());
}

/// Resolves a template that stands on its own, from the first answer on.
pub open spec fn resolve_top(t: Template, s: Setting, existing: Seq<Pair>) -> Flow<
    Result<Invocation, Seq<ResolveError>>,
> {
    match resolve(t, s, existing, None, None, Cursor::start()) {
        Flow::Need(r) => Flow::Need(r),
        Flow::Done(r) => Flow::Done(verdict(r)),
    }
}

} // verus!
