//! Which templates are fit to be offered: those that name a command and
//! have a user and a group, their own or inherited, and whose prep and clean
//! templates are fit in turn. A check finds this out whatever the host
//! answers, and it never asks for a prep invocation to be run.

use vstd::prelude::*;
use crate::model::{keys_of, Identity, Template, VarSource};
use crate::resolution::{
    cleans_from, effective, fields_of, group_ids_from, identity_id, kept, owner_id, preps_from,
    resolve, sorted_by_name, source_value, values_from, Answers, Cleaned, Cursor, Flow,
    NumberedAll, Prepared, Progress, ResolveError, Setting,
};
use crate::run::{is_fatal, those};
use crate::subst::Pair;

verus! {

/// Whether a template is fit to be offered, given the user and the group
/// that it inherits.
pub open spec fn fit(t: Template, user: Option<Identity>, group: Option<Identity>) -> bool
    decreases t,
{
    &&& t.command is Some
    &&& effective(t.user, user) is Some
    &&& effective(t.group, group) is Some
    &&& forall|i: int|
        0 <= i < t.prep.len() ==> fit(
            #[trigger] t.prep[i],
            effective(t.user, user),
            effective(t.group, group),
        )
    &&& forall|i: int|
        0 <= i < t.clean.len() ==> fit(
            #[trigger] t.clean[i],
            effective(t.user, user),
            effective(t.group, group),
        )
}

/// How many of the errors are fatal.
pub open spec fn fatal_count(errors: Seq<ResolveError>) -> nat {
    those(errors, true).len()
}

/// The fatal errors of two lists, one after the other.
pub proof fn lemma_those_both(a: Seq<ResolveError>, b: Seq<ResolveError>, fatal: bool)
    ensures
        those(a + b, fatal) == those(a, fatal) + those(b, fatal),
    decreases b.len(),
{
    if b.len() == 0 {
        assert(a + b =~= a);
        assert(those(a, fatal) + those(b, fatal) =~= those(a, fatal));
    } else {
        assert((a + b).drop_last() =~= a + b.drop_last());
        assert((a + b).last() == b.last());
        lemma_those_both(a, b.drop_last(), fatal);
        if is_fatal(b.last()) == fatal {
            assert(those(a, fatal) + those(b.drop_last(), fatal).push(b.last()) =~= (those(a, fatal)
                + those(b.drop_last(), fatal)).push(b.last()));
        }
    }
}

/// One more error.
pub proof fn lemma_those_push(a: Seq<ResolveError>, e: ResolveError)
    ensures
        fatal_count(a.push(e)) == fatal_count(a) + if is_fatal(e) {
            1nat
        } else {
            0nat
        },
{
    assert(a.push(e).drop_last() =~= a);
}

/// No source gives a fatal error, and none asks for a prep invocation.
pub proof fn lemma_source_not_fatal(source: VarSource, s: Setting, cur: Cursor)
    ensures
        match source_value(source, s, cur) {
            Flow::Need(q) => !(q is RunPrep),
            Flow::Done((Ok(_), _)) => true,
            Flow::Done((Err(e), _)) => !is_fatal(e),
        },
    decreases source,
{
    match source {
        VarSource::InputOrDefault(name, default) => {
            lemma_source_not_fatal(*default, s, cur);
        },
        _ => {},
    }
}

/// The variables add no fatal error.
pub proof fn lemma_values_not_fatal(
    vars: Seq<(Seq<char>, VarSource)>,
    i: int,
    s: Setting,
    acc: Progress,
)
    requires
        0 <= i,
    ensures
        match values_from(vars, i, s, acc) {
            Flow::Need(q) => !(q is RunPrep),
            Flow::Done(p) => fatal_count(p.errors) == fatal_count(acc.errors),
        },
    decreases vars.len() - i,
{
    if i < vars.len() {
        lemma_source_not_fatal(vars[i].1, s, acc.cur);
        match source_value(vars[i].1, s, acc.cur) {
            Flow::Need(r) => {},
            Flow::Done((Ok(v), cur)) => {
                lemma_values_not_fatal(
                    vars,
                    i + 1,
                    s,
                    Progress { pairs: acc.pairs.push((vars[i].0, v)), errors: acc.errors, cur },
                );
            },
            Flow::Done((Err(e), cur)) => {
                lemma_those_push(acc.errors, e);
                lemma_values_not_fatal(
                    vars,
                    i + 1,
                    s,
                    Progress {
                        pairs: acc.pairs.push((vars[i].0, Seq::empty())),
                        errors: acc.errors.push(e),
                        cur,
                    },
                );
            },
        }
    }
}

/// A user or group that is named adds no fatal error.
pub proof fn lemma_identity_not_fatal(
    identity: Identity,
    group: bool,
    pairs: Seq<Pair>,
    answers: Answers,
    errors: Seq<ResolveError>,
    cur: Cursor,
)
    ensures
        match identity_id(identity, group, pairs, answers, errors, cur) {
            Flow::Need(q) => !(q is RunPrep),
            Flow::Done(n) => fatal_count(n.errors) == fatal_count(errors),
        },
{
    match identity_id(identity, group, pairs, answers, errors, cur) {
        Flow::Done(n) => {
            if n.errors != errors {
                lemma_those_push(errors, n.errors.last());
                assert(n.errors.drop_last() =~= errors);
            }
        },
        _ => {},
    }
}

/// The user or the group of a template adds one fatal error where there is
/// none, its own or inherited, and no fatal error otherwise.
pub proof fn lemma_owner_fatal(
    own: Option<Identity>,
    inherited: Option<Identity>,
    group: bool,
    pairs: Seq<Pair>,
    answers: Answers,
    errors: Seq<ResolveError>,
    cur: Cursor,
)
    ensures
        match owner_id(own, inherited, group, pairs, answers, errors, cur) {
            Flow::Need(q) => !(q is RunPrep),
            Flow::Done(n) => fatal_count(n.errors) == fatal_count(errors) + if effective(
                own,
                inherited,
            ) is Some {
                0nat
            } else {
                1nat
            },
        },
{
    match effective(own, inherited) {
        Some(identity) => {
            lemma_identity_not_fatal(identity, group, pairs, answers, errors, cur);
        },
        None => {
            if group {
                lemma_those_push(errors, ResolveError::MissingFieldGroup);
            } else {
                lemma_those_push(errors, ResolveError::MissingFieldUser);
            }
        },
    }
}

/// The supplementary groups add no fatal error.
pub proof fn lemma_groups_not_fatal(
    groups: Seq<Identity>,
    i: int,
    pairs: Seq<Pair>,
    answers: Answers,
    acc: NumberedAll,
)
    requires
        0 <= i,
    ensures
        match group_ids_from(groups, i, pairs, answers, acc) {
            Flow::Need(q) => !(q is RunPrep),
            Flow::Done(n) => fatal_count(n.errors) == fatal_count(acc.errors),
        },
    decreases groups.len() - i,
{
    if i < groups.len() {
        lemma_identity_not_fatal(groups[i], true, pairs, answers, acc.errors, acc.cur);
        match identity_id(groups[i], true, pairs, answers, acc.errors, acc.cur) {
            Flow::Need(r) => {},
            Flow::Done(n) => {
                lemma_groups_not_fatal(
                    groups,
                    i + 1,
                    pairs,
                    answers,
                    NumberedAll { ids: acc.ids.push(n.id), errors: n.errors, cur: n.cur },
                );
            },
        }
    }
}

/// How many of command, user and group a template lacks.
pub open spec fn lacking(t: Template, user: Option<Identity>, group: Option<Identity>) -> nat {
    (if t.command is None {
        1nat
    } else {
        0nat
    }) + (if effective(t.user, user) is None {
        1nat
    } else {
        0nat
    }) + (if effective(t.group, group) is None {
        1nat
    } else {
        0nat
    })
}

/// The fields add one fatal error for each of command, user and group that
/// the template lacks.
pub proof fn lemma_fields_fatal(
    t: Template,
    user: Option<Identity>,
    group: Option<Identity>,
    pairs: Seq<Pair>,
    answers: Answers,
    errors: Seq<ResolveError>,
    cur: Cursor,
)
    ensures
        match fields_of(t, user, group, pairs, answers, errors, cur) {
            Flow::Need(q) => !(q is RunPrep),
            Flow::Done(f) => fatal_count(f.errors) == fatal_count(errors) + lacking(t, user, group),
        },
{
    let first = if t.command is None {
        errors.push(ResolveError::MissingFieldCommand)
    } else {
        errors
    };
    if t.command is None {
        lemma_those_push(errors, ResolveError::MissingFieldCommand);
    }
    lemma_owner_fatal(t.user, user, false, pairs, answers, first, cur);
    match owner_id(t.user, user, false, pairs, answers, first, cur) {
        Flow::Need(r) => {},
        Flow::Done(u) => {
            lemma_owner_fatal(t.group, group, true, pairs, answers, u.errors, u.cur);
            match owner_id(t.group, group, true, pairs, answers, u.errors, u.cur) {
                Flow::Need(r) => {},
                Flow::Done(g) => {
                    lemma_groups_not_fatal(
                        t.groups,
                        0,
                        pairs,
                        answers,
                        NumberedAll { ids: Seq::empty(), errors: g.errors, cur: g.cur },
                    );
                },
            }
        },
    }
}

/// Whether the blocks `blocks[i..]` are all fit.
pub open spec fn fit_from(
    blocks: Seq<Template>,
    i: int,
    user: Option<Identity>,
    group: Option<Identity>,
) -> bool {
    forall|j: int| i <= j < blocks.len() ==> fit(#[trigger] blocks[j], user, group)
}

/// In a check, the prep templates are never given up and never run, and
/// they add a fatal error if and only if one of them is not fit.
pub proof fn lemma_preps_fatal(
    t: Template,
    i: int,
    s: Setting,
    pairs: Seq<Pair>,
    user: Option<Identity>,
    group: Option<Identity>,
    acc: Prepared,
)
    requires
        s.check,
        0 <= i,
        !acc.given_up,
    ensures
        match preps_from(t, i, s, pairs, user, group, acc) {
            Flow::Need(q) => !(q is RunPrep),
            Flow::Done(p) => {
                &&& !p.given_up
                &&& fatal_count(p.errors) >= fatal_count(acc.errors)
                &&& fatal_count(p.errors) == fatal_count(acc.errors) <==> fit_from(
                    t.prep,
                    i,
                    effective(t.user, user),
                    effective(t.group, group),
                )
            },
        },
    decreases t, 0int, t.prep.len() - i,
{
    let own_user = effective(t.user, user);
    let own_group = effective(t.group, group);
    if i < t.prep.len() {
        lemma_check(t.prep[i], s, pairs, own_user, own_group, acc.cur);
        match resolve(t.prep[i], s, pairs, own_user, own_group, acc.cur) {
            Flow::Need(r) => {},
            Flow::Done(child) => {
                let next = if child.good() {
                    Prepared { cur: child.cur, ..acc }
                } else {
                    Prepared {
                        given_up: false,
                        errors: acc.errors + child.errors,
                        cur: child.cur,
                    }
                };
                lemma_those_both(acc.errors, child.errors, true);
                if child.good() {
                    assert(those(child.errors, true) =~= Seq::<ResolveError>::empty());
                }
                lemma_preps_fatal(t, i + 1, s, pairs, user, group, next);
                assert(fit_from(t.prep, i, own_user, own_group) <==> fit(
                    t.prep[i],
                    own_user,
                    own_group,
                ) && fit_from(t.prep, i + 1, own_user, own_group)) by {
                    if fit(t.prep[i], own_user, own_group) && fit_from(
                        t.prep,
                        i + 1,
                        own_user,
                        own_group,
                    ) {
                        assert forall|j: int| i <= j < t.prep.len() implies fit(
                            #[trigger] t.prep[j],
                            own_user,
                            own_group,
                        ) by {}
                    }
                }
            },
        }
    }
}

/// The clean templates add a fatal error if and only if one of them is not
/// fit, and in a check they ask for no prep invocation to be run.
pub proof fn lemma_cleans_fatal(
    t: Template,
    i: int,
    s: Setting,
    pairs: Seq<Pair>,
    user: Option<Identity>,
    group: Option<Identity>,
    acc: Cleaned,
)
    requires
        s.check,
        0 <= i,
    ensures
        match cleans_from(t, i, s, pairs, user, group, acc) {
            Flow::Need(q) => !(q is RunPrep),
            Flow::Done(c) => {
                &&& fatal_count(c.errors) >= fatal_count(acc.errors)
                &&& fatal_count(c.errors) == fatal_count(acc.errors) <==> fit_from(
                    t.clean,
                    i,
                    effective(t.user, user),
                    effective(t.group, group),
                )
            },
        },
    decreases t, 0int, t.clean.len() - i,
{
    let own_user = effective(t.user, user);
    let own_group = effective(t.group, group);
    if i < t.clean.len() {
        lemma_check(t.clean[i], s, pairs, own_user, own_group, acc.cur);
        match resolve(t.clean[i], s, pairs, own_user, own_group, acc.cur) {
            Flow::Need(r) => {},
            Flow::Done(child) => {
                let next = if child.good() {
                    Cleaned {
                        cmds: acc.cmds.push(child.cmd->0),
                        errors: acc.errors,
                        cur: child.cur,
                    }
                } else {
                    Cleaned {
                        cmds: acc.cmds,
                        errors: acc.errors + child.errors,
                        cur: child.cur,
                    }
                };
                lemma_those_both(acc.errors, child.errors, true);
                if child.good() {
                    assert(those(child.errors, true) =~= Seq::<ResolveError>::empty());
                }
                lemma_cleans_fatal(t, i + 1, s, pairs, user, group, next);
                assert(fit_from(t.clean, i, own_user, own_group) <==> fit(
                    t.clean[i],
                    own_user,
                    own_group,
                ) && fit_from(t.clean, i + 1, own_user, own_group)) by {
                    if fit(t.clean[i], own_user, own_group) && fit_from(
                        t.clean,
                        i + 1,
                        own_user,
                        own_group,
                    ) {
                        assert forall|j: int| i <= j < t.clean.len() implies fit(
                            #[trigger] t.clean[j],
                            own_user,
                            own_group,
                        ) by {}
                    }
                }
            },
        }
    }
}

/// A check asks for no prep invocation to be run, always ends with an
/// invocation, and meets a fatal error if and only if the template is not
/// fit: whatever the client supplies and whatever the host answers.
pub proof fn lemma_check(
    t: Template,
    s: Setting,
    existing: Seq<Pair>,
    user: Option<Identity>,
    group: Option<Identity>,
    cur: Cursor,
)
    requires
        s.check,
    ensures
        match resolve(t, s, existing, user, group, cur) {
            Flow::Need(q) => !(q is RunPrep),
            Flow::Done(r) => r.cmd is Some && (fatal_count(r.errors) == 0 <==> fit(t, user, group)),
        },
    decreases t, 1int, 0int,
{
    let start = Progress {
        pairs: kept(existing, keys_of(t.vars)),
        errors: Seq::empty(),
        cur,
    };
    assert(those(Seq::<ResolveError>::empty(), true) =~= Seq::<ResolveError>::empty());
    lemma_values_not_fatal(t.vars, 0, s, start);
    match values_from(t.vars, 0, s, start) {
        Flow::Need(r) => {},
        Flow::Done(v) => {
            let pairs = sorted_by_name(v.pairs);
            let before = Prepared { given_up: false, errors: v.errors, cur: v.cur };
            lemma_preps_fatal(t, 0, s, pairs, user, group, before);
            match preps_from(t, 0, s, pairs, user, group, before) {
                Flow::Need(r) => {},
                Flow::Done(p) => {
                    lemma_fields_fatal(t, user, group, pairs, s.answers, p.errors, p.cur);
                    match fields_of(t, user, group, pairs, s.answers, p.errors, p.cur) {
                        Flow::Need(r) => {},
                        Flow::Done(f) => {
                            lemma_cleans_fatal(
                                t,
                                0,
                                s,
                                pairs,
                                user,
                                group,
                                Cleaned { cmds: Seq::empty(), errors: f.errors, cur: f.cur },
                            );
                        },
                    }
                },
            }
        },
    }
}

} // verus!
