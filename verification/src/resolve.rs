//! The steps of a resolution: the values of the variables, their order, the
//! ids of users and groups, and the fields of the invocation.

use vstd::prelude::*;
use crate::config::lemma_builder_model;
use crate::model::{find_name, keys_of, lookup, names_of};
use crate::number::decimal;
use crate::resolution::{
    effective, fields_of, group_ids_from, identity_id, kept, owner_id, place_after, sorted_by_name,
    source_value, substituted_all, substituted_env, substituted_opt, substituted_source,
    text_before, values_from, Fields, Flow, Numbered, NumberedAll, Progress, ResolveError, Setting,
};
use crate::run::{errors_view, HostLog, HostRequest, Position, ToRunCmdError};
use crate::subst::{pairs_view, substitute, substituted, Pair};
use crate::template::{
    env_source_view, env_view, identities_view, identity_view, opt_identity_view, opt_view,
    texts_view, vars_view, RunCmdBuilder, ToRunCmdInfo, VarValue,
};
use crate::text::{string_of, to_chars};

verus! {

/// What stays the same throughout a resolution.
pub open spec fn setting_of(
    inputs: Seq<(String, String)>,
    info: ToRunCmdInfo,
    check: bool,
    log: HostLog,
) -> Setting {
    Setting { inputs: pairs_view(inputs), con_id: info.con_id as nat, check, answers: log@ }
}

/// A copy of a list of strings.
pub fn copy_texts(v: &Vec<String>) -> (out: Vec<String>)
    ensures
        texts_view(out@) == texts_view(v@),
{
    let mut out: Vec<String> = Vec::new();
    let mut i: usize = 0;
    while i < v.len()
        invariant
            i <= v.len(),
            out.len() == i,
            forall|j: int| 0 <= j < i ==> (#[trigger] out@[j])@ == v@[j]@,
        decreases v.len() - i,
    {
        out.push(v[i].clone());
        i += 1;
    }
    assert(texts_view(out@) =~= texts_view(v@));
    out
}

/// A copy of a user or group.
pub fn copy_identity(identity: &Result<u32, String>) -> (out: Result<u32, String>)
    ensures
        identity_view(out) == identity_view(*identity),
{
    match identity {
        Ok(id) => Ok(*id),
        Err(name) => Err(name.clone()),
    }
}

/// A template's own user or group, or else the inherited one.
pub fn effective_identity(
    own: &Option<Result<u32, String>>,
    inherited: &Option<Result<u32, String>>,
) -> (out: Option<Result<u32, String>>)
    ensures
        opt_identity_view(out) == effective(opt_identity_view(*own), opt_identity_view(*inherited)),
{
    match own {
        Some(identity) => Some(copy_identity(identity)),
        None => match inherited {
            Some(identity) => Some(copy_identity(identity)),
            None => None,
        },
    }
}

/// The value that the client supplied under `name`.
pub fn input_value(inputs: &Vec<(String, String)>, name: &str) -> (r: Option<String>)
    ensures
        opt_view(r) == lookup(pairs_view(inputs@), name@),
{
    let key = to_chars(name);
    assert(keys_of(pairs_view(inputs@)) =~= names_of(inputs@));
    match find_name(inputs, &key) {
        Some(i) => Some(inputs[i].1.clone()),
        None => None,
    }
}

/// A value or an error as the model sees it.
pub open spec fn value_view(r: Result<String, ToRunCmdError>) -> Result<Seq<char>, ResolveError> {
    match r {
        Ok(v) => Ok(v@),
        Err(e) => Err(e@),
    }
}

/// The value of one variable source, or the request for what it needs.
pub fn var_value(
    source: &VarValue,
    inputs: &Vec<(String, String)>,
    info: &ToRunCmdInfo,
    check: bool,
    log: &HostLog,
    pos: Position,
) -> (r: Result<(Result<String, ToRunCmdError>, Position), HostRequest>)
    ensures
        match source_value(source@, setting_of(inputs@, *info, check, *log), pos@) {
            Flow::Need(q) => r matches Err(e) && e@ == q,
            Flow::Done((v, cur)) => r matches Ok((x, p)) && value_view(x) == v && p@ == cur,
        },
    decreases source,
{
    match source {
        VarValue::Val(v) => Ok((Ok(v.clone()), pos)),
        VarValue::OutputOf(program, args) => {
            if pos.captured < log.captured.len() {
                let next = Position { captured: pos.captured + 1, preps: pos.preps, ids: pos.ids };
                match &log.captured[pos.captured] {
                    Some(out) => Ok((Ok(out.clone()), next)),
                    None => Ok(
                        (
                            Err(ToRunCmdError::VarFailedToRun(program.clone(), copy_texts(args))),
                            next,
                        ),
                    ),
                }
            } else {
                Err(HostRequest::Capture(program.clone(), copy_texts(args)))
            }
        },
        VarValue::Input(name) => match input_value(inputs, name.as_str()) {
            Some(v) => Ok((Ok(v), pos)),
            None => Ok((Err(ToRunCmdError::VarMissingInput(name.clone())), pos)),
        },
        VarValue::InputOrDefault(name, default) => match input_value(inputs, name.as_str()) {
            Some(v) => Ok((Ok(v), pos)),
            None => var_value(default, inputs, info, check, log, pos),
        },
        VarValue::ConId => Ok((Ok(string_of(&decimal(info.con_id))), pos)),
    }
}

/// The variables resolved so far, the errors met, and the answers used.
pub struct Gathered {
    pub pairs: Vec<(String, String)>,
    pub errors: Vec<ToRunCmdError>,
    pub pos: Position,
}

impl View for Gathered {
    type V = Progress;

    open spec fn view(&self) -> Progress {
        Progress { pairs: pairs_view(self.pairs@), errors: errors_view(self.errors@), cur: self.pos@ }
    }
}

/// Resolves the variables of a template in order, after those in `start`.
pub fn gather(
    vars: &Vec<(String, VarValue)>,
    inputs: &Vec<(String, String)>,
    info: &ToRunCmdInfo,
    check: bool,
    log: &HostLog,
    start: Gathered,
) -> (r: Result<Gathered, HostRequest>)
    ensures
        match values_from(vars_view(vars@), 0, setting_of(inputs@, *info, check, *log), start@) {
            Flow::Need(q) => r matches Err(e) && e@ == q,
            Flow::Done(p) => r matches Ok(g) && g@ == p,
        },
{
    let ghost vv = vars_view(vars@);
    let ghost s = setting_of(inputs@, *info, check, *log);
    let ghost goal = values_from(vv, 0, s, start@);
    let mut acc = start;
    let mut i: usize = 0;
    while i < vars.len()
        invariant
            i <= vars.len(),
            vv == vars_view(vars@),
            s == setting_of(inputs@, *info, check, *log),
            goal == values_from(vv, 0, s, start@),
            values_from(vv, i as int, s, acc@) == goal,
        decreases vars.len() - i,
    {
        let ghost before = acc@;
        match var_value(&vars[i].1, inputs, info, check, log, acc.pos) {
            Err(q) => {
                return Err(q);
            },
            Ok((Ok(v), pos)) => {
                acc.pairs.push((vars[i].0.clone(), v));
                acc.pos = pos;
                assert(pairs_view(acc.pairs@) =~= before.pairs.push((vv[i as int].0, v@)));
            },
            Ok((Err(e), pos)) => {
                acc.pairs.push((vars[i].0.clone(), String::new()));
                acc.errors.push(e);
                acc.pos = pos;
                assert(pairs_view(acc.pairs@) =~= before.pairs.push(
                    (vv[i as int].0, Seq::empty()),
                ));
                assert(errors_view(acc.errors@) =~= before.errors.push(e@));
            },
        }
        i += 1;
    }
    Ok(acc)
}

/// The pairs of `existing` whose names the template does not bind itself.
pub fn keep_existing(existing: &Vec<(String, String)>, own: &Vec<(String, VarValue)>) -> (out:
    Vec<(String, String)>)
    ensures
        pairs_view(out@) == kept(pairs_view(existing@), keys_of(vars_view(own@))),
{
    let ghost ev = pairs_view(existing@);
    let ghost keys = keys_of(vars_view(own@));
    assert(keys =~= names_of(own@));
    let mut out: Vec<(String, String)> = Vec::new();
    let mut i: usize = 0;
    assert(ev.take(0) =~= Seq::<Pair>::empty());
    assert(pairs_view(out@) =~= Seq::<Pair>::empty());
    while i < existing.len()
        invariant
            i <= existing.len(),
            ev == pairs_view(existing@),
            keys == names_of(own@),
            pairs_view(out@) == kept(ev.take(i as int), keys),
        decreases existing.len() - i,
    {
        let ghost before = pairs_view(out@);
        let name = to_chars(existing[i].0.as_str());
        proof {
            assert(ev.take(i + 1).drop_last() =~= ev.take(i as int));
            assert(ev.take(i + 1).last() == ev[i as int]);
        }
        if find_name(own, &name).is_none() {
            out.push((existing[i].0.clone(), existing[i].1.clone()));
            assert(pairs_view(out@) =~= before.push(ev[i as int]));
        }
        i += 1;
    }
    assert(ev.take(i as int) =~= ev);
    out
}

/// Whether `a` comes before `b` in the order of strings.
pub fn text_less(a: &Vec<char>, b: &Vec<char>) -> (r: bool)
    ensures
        r == text_before(a@, b@),
{
    let mut i: usize = 0;
    assert(a@.skip(0) =~= a@ && b@.skip(0) =~= b@);
    while i < a.len() && i < b.len()
        invariant
            i <= a.len(),
            i <= b.len(),
            text_before(a@, b@) == text_before(a@.skip(i as int), b@.skip(i as int)),
        decreases a.len() - i,
    {
        let ghost x = a@.skip(i as int);
        let ghost y = b@.skip(i as int);
        assert(x[0] == a@[i as int] && y[0] == b@[i as int]);
        if a[i] != b[i] {
            return a[i] < b[i];
        }
        assert(x.drop_first() =~= a@.skip(i + 1));
        assert(y.drop_first() =~= b@.skip(i + 1));
        i += 1;
    }
    i < b.len()
}

/// The pairs in the order of their names; pairs of one name keep their
/// order.
pub fn sort_pairs(pairs: &Vec<(String, String)>) -> (out: Vec<(String, String)>)
    ensures
        pairs_view(out@) == sorted_by_name(pairs_view(pairs@)),
{
    let ghost pv = pairs_view(pairs@);
    let mut out: Vec<(String, String)> = Vec::new();
    let mut names: Vec<Vec<char>> = Vec::new();
    let mut i: usize = 0;
    assert(pv.take(0) =~= Seq::<Pair>::empty());
    assert(pairs_view(out@) =~= Seq::<Pair>::empty());
    while i < pairs.len()
        invariant
            i <= pairs.len(),
            pv == pairs_view(pairs@),
            names.len() == out.len(),
            forall|j: int| 0 <= j < out.len() ==> (#[trigger] names@[j])@ == out@[j].0@,
            pairs_view(out@) == sorted_by_name(pv.take(i as int)),
        decreases pairs.len() - i,
    {
        let ghost before = pairs_view(out@);
        let name = to_chars(pairs[i].0.as_str());
        proof {
            assert(pv.take(i + 1).drop_last() =~= pv.take(i as int));
            assert(pv.take(i + 1).last() == pv[i as int]);
        }
        let mut place: usize = 0;
        while place < out.len() && !text_less(&name, &names[place])
            invariant
                place <= out.len(),
                names.len() == out.len(),
                before == pairs_view(out@),
                forall|j: int| 0 <= j < out.len() ==> (#[trigger] names@[j])@ == out@[j].0@,
                place_after(before, name@, 0) == place_after(before, name@, place as int),
            decreases out.len() - place,
        {
            assert(names@[place as int]@ == before[place as int].0);
            place += 1;
        }
        proof {
            if place < out.len() {
                assert(names@[place as int]@ == before[place as int].0);
            }
        }
        out.insert(place, (pairs[i].0.clone(), pairs[i].1.clone()));
        names.insert(place, name);
        assert(pairs_view(out@) =~= before.insert(place as int, pv[i as int]));
        i += 1;
    }
    assert(pv.take(i as int) =~= pv);
    out
}

/// An id, the errors met, and the answers used.
pub struct Counted {
    pub id: u32,
    pub errors: Vec<ToRunCmdError>,
    pub pos: Position,
}

impl View for Counted {
    type V = Numbered;

    open spec fn view(&self) -> Numbered {
        Numbered { id: self.id, errors: errors_view(self.errors@), cur: self.pos@ }
    }
}

/// Ids, the errors met, and the answers used.
pub struct CountedAll {
    pub ids: Vec<u32>,
    pub errors: Vec<ToRunCmdError>,
    pub pos: Position,
}

impl View for CountedAll {
    type V = NumberedAll;

    open spec fn view(&self) -> NumberedAll {
        NumberedAll { ids: self.ids@, errors: errors_view(self.errors@), cur: self.pos@ }
    }
}

/// The id of a user or group, or the request to look its name up.
pub fn identity_number(
    identity: &Result<u32, String>,
    group: bool,
    pairs: &Vec<(String, String)>,
    log: &HostLog,
    errors: Vec<ToRunCmdError>,
    pos: Position,
) -> (r: Result<Counted, HostRequest>)
    ensures
        match identity_id(
            identity_view(*identity),
            group,
            pairs_view(pairs@),
            log@,
            errors_view(errors@),
            pos@,
        ) {
            Flow::Need(q) => r matches Err(e) && e@ == q,
            Flow::Done(n) => r matches Ok(c) && c@ == n,
        },
{
    match identity {
        Ok(id) => Ok(Counted { id: *id, errors, pos }),
        Err(name) => {
            let full = substitute(pairs, name.as_str());
            if pos.ids < log.ids.len() {
                let next = Position { captured: pos.captured, preps: pos.preps, ids: pos.ids + 1 };
                match log.ids[pos.ids] {
                    Some(id) => Ok(Counted { id, errors, pos: next }),
                    None => {
                        let mut errors = errors;
                        let ghost before = errors_view(errors@);
                        if group {
                            errors.push(ToRunCmdError::UnknownGroup(full));
                        } else {
                            errors.push(ToRunCmdError::UnknownUser(full));
                        }
                        assert(errors_view(errors@) =~= before.push(errors@.last()@));
                        Ok(Counted { id: 0, errors, pos: next })
                    },
                }
            } else if group {
                Err(HostRequest::FindGroup(full))
            } else {
                Err(HostRequest::FindUser(full))
            }
        },
    }
}

/// The id of the user or group of a template: its own, or else the one it
/// inherits.
pub fn owner_number(
    own: &Option<Result<u32, String>>,
    inherited: &Option<Result<u32, String>>,
    group: bool,
    pairs: &Vec<(String, String)>,
    log: &HostLog,
    errors: Vec<ToRunCmdError>,
    pos: Position,
) -> (r: Result<Counted, HostRequest>)
    ensures
        match owner_id(
            opt_identity_view(*own),
            opt_identity_view(*inherited),
            group,
            pairs_view(pairs@),
            log@,
            errors_view(errors@),
            pos@,
        ) {
            Flow::Need(q) => r matches Err(e) && e@ == q,
            Flow::Done(n) => r matches Ok(c) && c@ == n,
        },
{
    match effective_identity(own, inherited) {
        Some(identity) => identity_number(&identity, group, pairs, log, errors, pos),
        None => {
            let mut errors = errors;
            let ghost before = errors_view(errors@);
            if group {
                errors.push(ToRunCmdError::MissingFieldGroup);
            } else {
                errors.push(ToRunCmdError::MissingFieldUser);
            }
            assert(errors_view(errors@) =~= before.push(errors@.last()@));
            Ok(Counted { id: 0, errors, pos })
        },
    }
}

/// The ids of the supplementary groups.
pub fn group_numbers(
    groups: &Vec<Result<u32, String>>,
    pairs: &Vec<(String, String)>,
    log: &HostLog,
    errors: Vec<ToRunCmdError>,
    pos: Position,
) -> (r: Result<CountedAll, HostRequest>)
    ensures
        match group_ids_from(
            identities_view(groups@),
            0,
            pairs_view(pairs@),
            log@,
            NumberedAll { ids: Seq::empty(), errors: errors_view(errors@), cur: pos@ },
        ) {
            Flow::Need(q) => r matches Err(e) && e@ == q,
            Flow::Done(n) => r matches Ok(c) && c@ == n,
        },
{
    let ghost gv = identities_view(groups@);
    let ghost pv = pairs_view(pairs@);
    let ghost goal = group_ids_from(
        gv,
        0,
        pv,
        log@,
        NumberedAll { ids: Seq::empty(), errors: errors_view(errors@), cur: pos@ },
    );
    let mut acc = CountedAll { ids: Vec::new(), errors, pos };
    let mut i: usize = 0;
    while i < groups.len()
        invariant
            i <= groups.len(),
            gv == identities_view(groups@),
            pv == pairs_view(pairs@),
            group_ids_from(gv, i as int, pv, log@, acc@) == goal,
            goal == group_ids_from(
                gv,
                0,
                pv,
                log@,
                NumberedAll { ids: Seq::empty(), errors: errors_view(errors@), cur: pos@ },
            ),
        decreases groups.len() - i,
    {
        match identity_number(&groups[i], true, pairs, log, acc.errors, acc.pos) {
            Err(q) => {
                return Err(q);
            },
            Ok(n) => {
                let mut ids = acc.ids;
                ids.push(n.id);
                acc = CountedAll { ids, errors: n.errors, pos: n.pos };
            },
        }
        i += 1;
    }
    Ok(acc)
}

/// The texts with the variables replaced in each.
pub fn substitute_all(pairs: &Vec<(String, String)>, texts: &Vec<String>) -> (out: Vec<String>)
    ensures
        texts_view(out@) == substituted_all(pairs_view(pairs@), texts_view(texts@)),
{
    let mut out: Vec<String> = Vec::new();
    let mut i: usize = 0;
    while i < texts.len()
        invariant
            i <= texts.len(),
            out.len() == i,
            forall|j: int|
                0 <= j < i ==> (#[trigger] out@[j])@ == substituted(pairs_view(pairs@), texts@[j]@),
        decreases texts.len() - i,
    {
        out.push(substitute(pairs, texts[i].as_str()));
        i += 1;
    }
    assert(texts_view(out@) =~= substituted_all(pairs_view(pairs@), texts_view(texts@)));
    out
}

/// An optional text with the variables replaced.
pub fn substitute_opt(pairs: &Vec<(String, String)>, text: &Option<String>) -> (out: Option<
    String,
>)
    ensures
        opt_view(out) == substituted_opt(pairs_view(pairs@), opt_view(*text)),
{
    match text {
        Some(t) => Some(substitute(pairs, t.as_str())),
        None => None,
    }
}

/// An environment with the variables replaced in names, values and defaults.
pub fn substitute_env(
    pairs: &Vec<(String, String)>,
    env: &Vec<(String, Result<String, Option<String>>)>,
) -> (out: Vec<(String, Result<String, Option<String>>)>)
    ensures
        env_view(out@) == substituted_env(pairs_view(pairs@), env_view(env@)),
{
    let ghost pv = pairs_view(pairs@);
    let mut out: Vec<(String, Result<String, Option<String>>)> = Vec::new();
    let mut i: usize = 0;
    while i < env.len()
        invariant
            i <= env.len(),
            out.len() == i,
            pv == pairs_view(pairs@),
            forall|j: int|
                0 <= j < i ==> {
                    &&& (#[trigger] out@[j]).0@ == substituted(pv, env@[j].0@)
                    &&& env_source_view(out@[j].1) == substituted_source(
                        pv,
                        env_source_view(env@[j].1),
                    )
                },
        decreases env.len() - i,
    {
        let name = substitute(pairs, env[i].0.as_str());
        let value = match &env[i].1 {
            Ok(v) => Ok(substitute(pairs, v.as_str())),
            Err(None) => Err(None),
            Err(Some(d)) => Err(Some(substitute(pairs, d.as_str()))),
        };
        out.push((name, value));
        i += 1;
    }
    assert(env_view(out@) =~= substituted_env(pv, env_view(env@)));
    out
}

/// An invocation without its clean invocations, the errors met so far, and
/// the answers used.
pub struct FieldSet {
    pub command: String,
    pub args: Vec<String>,
    pub user: u32,
    pub group: u32,
    pub groups: Vec<u32>,
    pub env: Vec<(String, Result<String, Option<String>>)>,
    pub working_dir: Option<String>,
    pub errors: Vec<ToRunCmdError>,
    pub pos: Position,
}

impl View for FieldSet {
    type V = Fields;

    open spec fn view(&self) -> Fields {
        Fields {
            command: self.command@,
            args: texts_view(self.args@),
            user: self.user,
            group: self.group,
            groups: self.groups@,
            env: env_view(self.env@),
            working_dir: opt_view(self.working_dir),
            errors: errors_view(self.errors@),
            cur: self.pos@,
        }
    }
}

/// The fields of the invocation of a template.
pub fn resolve_fields(
    t: &RunCmdBuilder,
    user: &Option<Result<u32, String>>,
    group: &Option<Result<u32, String>>,
    pairs: &Vec<(String, String)>,
    log: &HostLog,
    errors: Vec<ToRunCmdError>,
    pos: Position,
) -> (r: Result<FieldSet, HostRequest>)
    ensures
        match fields_of(
            t@,
            opt_identity_view(*user),
            opt_identity_view(*group),
            pairs_view(pairs@),
            log@,
            errors_view(errors@),
            pos@,
        ) {
            Flow::Need(q) => r matches Err(e) && e@ == q,
            Flow::Done(f) => r matches Ok(x) && x@ == f,
        },
{
    proof {
        lemma_builder_model(*t);
    }
    let mut errors = errors;
    let ghost before = errors_view(errors@);
    let command = match &t.command {
        Some(c) => substitute(pairs, c.as_str()),
        None => {
            errors.push(ToRunCmdError::MissingFieldCommand);
            assert(errors_view(errors@) =~= before.push(ResolveError::MissingFieldCommand));
            String::new()
        },
    };
    let args = substitute_all(pairs, &t.args);
    let u = match owner_number(&t.user, user, false, pairs, log, errors, pos) {
        Err(q) => {
            return Err(q);
        },
        Ok(u) => u,
    };
    let g = match owner_number(&t.group, group, true, pairs, log, u.errors, u.pos) {
        Err(q) => {
            return Err(q);
        },
        Ok(g) => g,
    };
    let gs = match group_numbers(&t.groups, pairs, log, g.errors, g.pos) {
        Err(q) => {
            return Err(q);
        },
        Ok(gs) => gs,
    };
    let env = substitute_env(pairs, &t.env);
    let working_dir = substitute_opt(pairs, &t.working_dir);
    Ok(
        FieldSet {
            command,
            args,
            user: u.id,
            group: g.id,
            groups: gs.ids,
            env,
            working_dir,
            errors: gs.errors,
            pos: gs.pos,
        },
    )
}

} // verus!
