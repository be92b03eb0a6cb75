//! A template that was loaded, written out and loaded again is the same
//! template.

use vstd::prelude::*;
use crate::grammar::{
    apply_statement, id_value, is_comment, lemma_load_advances, lines_of, load_file, load_lines,
    valid_name, var_source, with_var, Directory, LoadError, Loaded,
};
use crate::model::{
    distinct_keys, keys_of, lemma_key_index, lemma_upsert_distinct, lookup, upsert, EnvSource,
    Identity, Template, VarSource,
};
use crate::number::{decimal_digits, lemma_number_round_trip};
use crate::text::{
    after_word, head_word, is_space, lemma_not_split, lemma_split_joined, lemma_split_no_char, no_char,
    split_first,
};
use crate::written::{
    arg_lines, block_lines, env_lines, group_lines, head_lines, line, opt_line, owner_line,
    source_text, tail_lines, var_lines, written,
};

verus! {

/// A statement is read as its verb and its text.
pub proof fn lemma_line(verb: Seq<char>, text: Seq<char>)
    requires
        no_char(verb, ' '),
    ensures
        head_word(line(verb, text)) == verb,
        after_word(line(verb, text)) == text,
{
    lemma_split_joined(verb, ' ', text);
}

/// A word alone on its line is read as a verb without text.
pub proof fn lemma_bare(verb: Seq<char>)
    requires
        no_char(verb, ' '),
    ensures
        head_word(verb) == verb,
        after_word(verb) == Seq::<char>::empty(),
{
    lemma_not_split(verb, ' ');
}

/// The words of the grammar hold no space, and each is known by its length
/// and its first two characters.
pub proof fn lemma_words()
    ensures
        no_char("set"@, ' ') && "set"@.len() == 3,
        no_char("from-cmd"@, ' ') && "from-cmd"@.len() == 8,
        no_char("from-cmd-sh"@, ' ') && "from-cmd-sh"@.len() == 11,
        no_char("from-input"@, ' ') && "from-input"@.len() == 10,
        no_char("from-input-or"@, ' ') && "from-input-or"@.len() == 13,
        no_char("from-input-or-else"@, ' ') && "from-input-or-else"@.len() == 18,
        no_char("con-id"@, ' ') && "con-id"@.len() == 6,
        "sh"@.len() == 2,
        "-c"@.len() == 2,
        no_char("var"@, ' ') && "var"@.len() == 3 && "var"@[0] == 'v',
        no_char("arg"@, ' ') && "arg"@.len() == 3 && "arg"@[0] == 'a',
        no_char("uid"@, ' ') && "uid"@.len() == 3 && "uid"@[0] == 'u',
        no_char("gid"@, ' ') && "gid"@.len() == 3 && "gid"@[0] == 'g',
        no_char("end"@, ' ') && "end"@.len() == 3 && "end"@[0] == 'e',
        no_char("user"@, ' ') && "user"@.len() == 4 && "user"@[0] == 'u',
        no_char("allow"@, ' ') && "allow"@.len() == 5 && "allow"@[0] == 'a',
        no_char("group"@, ' ') && "group"@.len() == 5 && "group"@[0] == 'g' && "group"@[1] == 'r',
        no_char("g+gid"@, ' ') && "g+gid"@.len() == 5 && "g+gid"@[0] == 'g' && "g+gid"@[1] == '+',
        no_char("config"@, ' ') && "config"@.len() == 6 && "config"@[0] == 'c',
        no_char("command"@, ' ') && "command"@.len() == 7 && "command"@[0] == 'c',
        no_char("g-clear"@, ' ') && "g-clear"@.len() == 7 && "g-clear"@[0] == 'g' && "g-clear"@[1]
            == '-',
        no_char("g+group"@, ' ') && "g+group"@.len() == 7 && "g+group"@[0] == 'g' && "g+group"@[1]
            == '+',
        no_char("env+set"@, ' ') && "env+set"@.len() == 7 && "env+set"@[0] == 'e',
        no_char("cmd-prep"@, ' ') && "cmd-prep"@.len() == 8 && "cmd-prep"@[0] == 'c',
        no_char("env-clear"@, ' ') && "env-clear"@.len() == 9 && "env-clear"@[0] == 'e',
        no_char("cmd-clean"@, ' ') && "cmd-clean"@.len() == 9 && "cmd-clean"@[0] == 'c',
        no_char("args-clear"@, ' ') && "args-clear"@.len() == 10 && "args-clear"@[0] == 'a',
        no_char("env+inherit"@, ' ') && "env+inherit"@.len() == 11 && "env+inherit"@[0] == 'e',
        no_char("working-dir"@, ' ') && "working-dir"@.len() == 11 && "working-dir"@[0] == 'w',
{
    reveal_strlit("set");
    reveal_strlit("from-cmd");
    reveal_strlit("from-cmd-sh");
    reveal_strlit("from-input");
    reveal_strlit("from-input-or");
    reveal_strlit("from-input-or-else");
    reveal_strlit("con-id");
    reveal_strlit("sh");
    reveal_strlit("-c");
    reveal_strlit("var");
    reveal_strlit("arg");
    reveal_strlit("uid");
    reveal_strlit("gid");
    reveal_strlit("end");
    reveal_strlit("user");
    reveal_strlit("allow");
    reveal_strlit("group");
    reveal_strlit("g+gid");
    reveal_strlit("config");
    reveal_strlit("command");
    reveal_strlit("g-clear");
    reveal_strlit("g+group");
    reveal_strlit("env+set");
    reveal_strlit("cmd-prep");
    reveal_strlit("env-clear");
    reveal_strlit("cmd-clean");
    reveal_strlit("args-clear");
    reveal_strlit("env+inherit");
    reveal_strlit("working-dir");
}

/// An id written in decimal is read as that id.
pub proof fn lemma_id_round_trip(id: u32)
    ensures
        id_value(decimal_digits(id as nat)) == Some(id),
{
    lemma_number_round_trip(id as nat, 0xffff_ffff);
}

/// Whether the description of a source can be written: a program has no
/// arguments or is the shell with a command, and the name of an input that
/// has a default holds no space.
pub open spec fn printable_source(source: VarSource) -> bool
    decreases source,
{
    match source {
        VarSource::CommandOutput(program, args) => args.len() == 0 || (program == "sh"@
            && args.len() == 2 && args[0] == "-c"@),
        VarSource::InputOrDefault(name, default) => no_char(name, ' ') && printable_source(
            *default,
        ),
        _ => true,
    }
}

/// The description of a source that can be written is read as that source.
pub proof fn lemma_source_round_trip(source: VarSource)
    requires
        printable_source(source),
    ensures
        var_source(source_text(source)) == Some(source),
        source_text(source).len() > 0,
    decreases source,
{
    lemma_words();
    match source {
        VarSource::Literal(v) => {
            lemma_line("set"@, v);
        },
        VarSource::CommandOutput(program, args) => {
            if args.len() == 0 {
                lemma_line("from-cmd"@, program);
                assert(args =~= Seq::<Seq<char>>::empty());
            } else {
                lemma_line("from-cmd-sh"@, args.last());
                assert(args =~= seq!["-c"@, args.last()]);
            }
        },
        VarSource::Input(name) => {
            lemma_line("from-input"@, name);
        },
        VarSource::InputOrDefault(name, default) => {
            match *default {
                VarSource::Literal(v) => {
                    lemma_line("from-input-or"@, line(name, v));
                    lemma_split_joined(name, ' ', v);
                },
                _ => {
                    let inner = line(name, source_text(*default));
                    lemma_line("from-input-or-else"@, inner);
                    lemma_split_joined(name, ' ', source_text(*default));
                    lemma_source_round_trip(*default);
                },
            }
        },
        VarSource::ConnectionId => {
            lemma_bare("con-id"@);
        },
    }
}

/// What is read as the description of a source can be written.
pub proof fn lemma_read_source_printable(text: Seq<char>)
    ensures
        var_source(text) matches Some(s) ==> printable_source(s),
    decreases text.len(),
{
    lemma_words();
    let value = after_word(text);
    lemma_split_no_char(value, ' ');
    match split_first(value, ' ') {
        Some((input, default)) => {
            assert(printable_source(VarSource::Literal(default)));
            if default.len() < text.len() {
                lemma_read_source_printable(default);
            }
        },
        None => {},
    }
    assert(printable_source(VarSource::CommandOutput("sh"@, seq!["-c"@, value])));
}

/// Whether a setting that may be unset is, where it is set, no empty text.
pub open spec fn filled(text: Option<Seq<char>>) -> bool {
    text matches Some(x) ==> x.len() > 0
}

/// Whether a user or group that is given by name has a name.
pub open spec fn named(id: Identity) -> bool {
    id matches Err(name) ==> name.len() > 0
}

/// Whether a user or group that may be unset has, where it is given by name,
/// a name.
pub open spec fn owner_named(owner: Option<Identity>) -> bool {
    owner matches Some(id) ==> named(id)
}

/// Whether a variable can be written: its name can name a variable and its
/// source can be written.
pub open spec fn printable_var(var: (Seq<char>, VarSource)) -> bool {
    valid_name(var.0) && printable_source(var.1)
}

/// Whether an environment entry can be written: its name holds no `=`, and
/// is not empty where the entry is inherited without a default.
pub open spec fn printable_env(entry: (Seq<char>, EnvSource)) -> bool {
    no_char(entry.0, '=') && (entry.1 == Err::<Seq<char>, Option<Seq<char>>>(None)
        ==> entry.0.len() > 0)
}

/// Whether the settings of a template, its blocks left aside, can be
/// written: no variable is bound twice, every variable and every environment
/// entry can be written, and no text that a statement needs is empty.
pub open spec fn printable_flat(t: Template) -> bool {
    &&& distinct_keys(keys_of(t.vars))
    &&& forall|i: int| 0 <= i < t.vars.len() ==> printable_var(#[trigger] t.vars[i])
    &&& forall|i: int| 0 <= i < t.env.len() ==> printable_env(#[trigger] t.env[i])
    &&& forall|i: int| 0 <= i < t.args.len() ==> (#[trigger] t.args[i]).len() > 0
    &&& forall|i: int| 0 <= i < t.groups.len() ==> named(#[trigger] t.groups[i])
    &&& filled(t.allow)
    &&& filled(t.command)
    &&& filled(t.working_dir)
    &&& owner_named(t.user)
    &&& owner_named(t.group)
}

/// A name that can name a variable holds no space.
pub proof fn lemma_valid_name(name: Seq<char>)
    requires
        valid_name(name),
    ensures
        no_char(name, ' '),
        name.len() > 0,
{
    assert forall|j: int| 0 <= j < name.len() implies name[j] != ' ' by {
        assert(!is_space(name[j]));
    }
}

/// Whether a template can be written, its blocks included.
pub open spec fn printable(t: Template) -> bool
    decreases t,
{
    &&& printable_flat(t)
    &&& forall|i: int| 0 <= i < t.prep.len() ==> printable(#[trigger] t.prep[i])
    &&& forall|i: int| 0 <= i < t.clean.len() ==> printable(#[trigger] t.clean[i])
}

/// Whether a verb begins a statement that changes one setting: it is no
/// comment, closes no block, opens none and includes no file.
pub open spec fn plain(verb: Seq<char>) -> bool {
    &&& !is_comment(verb)
    &&& verb != "end"@
    &&& verb != "config"@
    &&& verb != "cmd-prep"@
    &&& verb != "cmd-clean"@
}

/// Whether `lines` holds `part` at `pos`.
pub open spec fn holds_at(lines: Seq<Seq<char>>, pos: int, part: Seq<Seq<char>>) -> bool {
    &&& 0 <= pos
    &&& pos + part.len() <= lines.len()
    &&& forall|i: int| 0 <= i < part.len() ==> lines[pos + i] == #[trigger] part[i]
}

/// Lines that hold two parts one after the other hold each of them.
pub proof fn lemma_holds_split(
    lines: Seq<Seq<char>>,
    pos: int,
    a: Seq<Seq<char>>,
    b: Seq<Seq<char>>,
)
    requires
        holds_at(lines, pos, a + b),
    ensures
        holds_at(lines, pos, a),
        holds_at(lines, pos + a.len(), b),
{
    let ab = a + b;
    assert forall|i: int| 0 <= i < a.len() implies lines[pos + i] == #[trigger] a[i] by {
        assert(ab[i] == a[i]);
    }
    assert forall|i: int| 0 <= i < b.len() implies lines[pos + a.len() + i] == #[trigger] b[i] by {
        assert(ab[a.len() + i] == b[i]);
    }
}

/// One statement moves loading one line on.
pub proof fn lemma_step(
    dir: Directory,
    depth: nat,
    lines: Seq<Seq<char>>,
    pos: int,
    t: Template,
    t2: Template,
)
    requires
        0 <= pos < lines.len(),
        plain(head_word(lines[pos])),
        apply_statement(t, head_word(lines[pos]), after_word(lines[pos])) == Ok::<
            Template,
            LoadError,
        >(t2),
    ensures
        load_lines(dir, depth, lines, pos, t) == load_lines(dir, depth, lines, pos + 1, t2),
{
}

/// What each statement that the writer uses does with a text.
pub proof fn lemma_statements(t: Template, text: Seq<char>)
    requires
        text.len() > 0,
    ensures
        plain("var"@) && apply_statement(t, "var"@, text) == with_var(t, text),
        plain("allow"@) && apply_statement(t, "allow"@, text) == Ok::<Template, LoadError>(
            Template { allow: Some(text), ..t },
        ),
        plain("command"@) && apply_statement(t, "command"@, text) == Ok::<Template, LoadError>(
            Template { command: Some(text), ..t },
        ),
        plain("arg"@) && apply_statement(t, "arg"@, text) == Ok::<Template, LoadError>(
            Template { args: t.args.push(text), ..t },
        ),
        plain("uid"@) && (id_value(text) matches Some(id) ==> apply_statement(t, "uid"@, text)
            == Ok::<Template, LoadError>(Template { user: Some(Ok(id)), ..t })),
        plain("user"@) && apply_statement(t, "user"@, text) == Ok::<Template, LoadError>(
            Template { user: Some(Err(text)), ..t },
        ),
        plain("gid"@) && (id_value(text) matches Some(id) ==> apply_statement(t, "gid"@, text)
            == Ok::<Template, LoadError>(Template { group: Some(Ok(id)), ..t })),
        plain("group"@) && apply_statement(t, "group"@, text) == Ok::<Template, LoadError>(
            Template { group: Some(Err(text)), ..t },
        ),
        plain("g+gid"@) && (id_value(text) matches Some(id) ==> apply_statement(
            t,
            "g+gid"@,
            text,
        ) == Ok::<Template, LoadError>(Template { groups: t.groups.push(Ok(id)), ..t })),
        plain("g+group"@) && apply_statement(t, "g+group"@, text) == Ok::<Template, LoadError>(
            Template { groups: t.groups.push(Err(text)), ..t },
        ),
        plain("env+set"@) && (split_first(text, '=') matches Some((name, value))
            ==> apply_statement(t, "env+set"@, text) == Ok::<Template, LoadError>(
            Template { env: t.env.push((name, Ok(value))), ..t },
        )),
        plain("env+inherit"@) && apply_statement(t, "env+inherit"@, text) == Ok::<
            Template,
            LoadError,
        >(
            match split_first(text, '=') {
                Some((name, default)) => Template {
                    env: t.env.push((name, Err(Some(default)))),
                    ..t
                },
                None => Template { env: t.env.push((text, Err(None))), ..t },
            },
        ),
        plain("working-dir"@) && apply_statement(t, "working-dir"@, text) == Ok::<
            Template,
            LoadError,
        >(Template { working_dir: Some(text), ..t }),
{
    lemma_words();
}

/// The lines of the variables are read back as the variables.
pub proof fn lemma_vars_read_back(
    dir: Directory,
    depth: nat,
    lines: Seq<Seq<char>>,
    pos: int,
    t: Template,
    vars: Seq<(Seq<char>, VarSource)>,
    k: int,
)
    requires
        holds_at(lines, pos, var_lines(vars)),
        0 <= k <= vars.len(),
        distinct_keys(keys_of(t.vars + vars)),
        forall|i: int| 0 <= i < vars.len() ==> printable_var(#[trigger] vars[i]),
    ensures
        load_lines(dir, depth, lines, pos, t) == load_lines(
            dir,
            depth,
            lines,
            pos + k,
            Template { vars: t.vars + vars.take(k), ..t },
        ),
    decreases k,
{
    if k == 0 {
        assert(t.vars + vars.take(0) =~= t.vars);
    } else {
        lemma_vars_read_back(dir, depth, lines, pos, t, vars, k - 1);
        let mid = Template { vars: t.vars + vars.take(k - 1), ..t };
        let (name, source) = vars[k - 1];
        let rest = line(name, source_text(source));
        assert(lines[pos + (k - 1)] == var_lines(vars)[k - 1]);
        lemma_words();
        lemma_line("var"@, rest);
        assert(printable_var(vars[k - 1]));
        lemma_valid_name(name);
        lemma_statements(mid, rest);
        lemma_split_joined(name, ' ', source_text(source));
        lemma_source_round_trip(source);
        let all = t.vars + vars;
        lemma_key_index(keys_of(mid.vars), name, 0);
        assert forall|j: int| 0 <= j < mid.vars.len() implies keys_of(mid.vars)[j] != name by {
            assert(keys_of(all)[j] == keys_of(mid.vars)[j]);
            assert(keys_of(all)[t.vars.len() + k - 1] == name);
        }
        assert(upsert(mid.vars, name, source) =~= t.vars + vars.take(k));
        lemma_step(
            dir,
            depth,
            lines,
            pos + k - 1,
            mid,
            Template { vars: t.vars + vars.take(k), ..t },
        );
    }
}

/// The lines of the arguments are read back as the arguments.
pub proof fn lemma_args_read_back(
    dir: Directory,
    depth: nat,
    lines: Seq<Seq<char>>,
    pos: int,
    t: Template,
    args: Seq<Seq<char>>,
    k: int,
)
    requires
        holds_at(lines, pos, arg_lines(args)),
        0 <= k <= args.len(),
        forall|i: int| 0 <= i < args.len() ==> (#[trigger] args[i]).len() > 0,
    ensures
        load_lines(dir, depth, lines, pos, t) == load_lines(
            dir,
            depth,
            lines,
            pos + k,
            Template { args: t.args + args.take(k), ..t },
        ),
    decreases k,
{
    if k == 0 {
        assert(t.args + args.take(0) =~= t.args);
    } else {
        lemma_args_read_back(dir, depth, lines, pos, t, args, k - 1);
        let mid = Template { args: t.args + args.take(k - 1), ..t };
        assert(lines[pos + (k - 1)] == arg_lines(args)[k - 1]);
        lemma_words();
        lemma_line("arg"@, args[k - 1]);
        lemma_statements(mid, args[k - 1]);
        assert(mid.args.push(args[k - 1]) =~= t.args + args.take(k));
        lemma_step(
            dir,
            depth,
            lines,
            pos + k - 1,
            mid,
            Template { args: t.args + args.take(k), ..t },
        );
    }
}

/// The lines of the supplementary groups are read back as the groups.
pub proof fn lemma_groups_read_back(
    dir: Directory,
    depth: nat,
    lines: Seq<Seq<char>>,
    pos: int,
    t: Template,
    groups: Seq<Identity>,
    k: int,
)
    requires
        holds_at(lines, pos, group_lines(groups)),
        0 <= k <= groups.len(),
        forall|i: int| 0 <= i < groups.len() ==> named(#[trigger] groups[i]),
    ensures
        load_lines(dir, depth, lines, pos, t) == load_lines(
            dir,
            depth,
            lines,
            pos + k,
            Template { groups: t.groups + groups.take(k), ..t },
        ),
    decreases k,
{
    if k == 0 {
        assert(t.groups + groups.take(0) =~= t.groups);
    } else {
        lemma_groups_read_back(dir, depth, lines, pos, t, groups, k - 1);
        let mid = Template { groups: t.groups + groups.take(k - 1), ..t };
        assert(lines[pos + (k - 1)] == group_lines(groups)[k - 1]);
        lemma_words();
        assert(named(groups[k - 1]));
        match groups[k - 1] {
            Ok(id) => {
                lemma_line("g+gid"@, decimal_digits(id as nat));
                lemma_id_round_trip(id);
                assert(decimal_digits(id as nat).len() > 0);
                lemma_statements(mid, decimal_digits(id as nat));
            },
            Err(name) => {
                lemma_line("g+group"@, name);
                lemma_statements(mid, name);
            },
        }
        assert(mid.groups.push(groups[k - 1]) =~= t.groups + groups.take(k));
        lemma_step(
            dir,
            depth,
            lines,
            pos + k - 1,
            mid,
            Template { groups: t.groups + groups.take(k), ..t },
        );
    }
}

/// The lines of the environment are read back as the environment.
pub proof fn lemma_env_read_back(
    dir: Directory,
    depth: nat,
    lines: Seq<Seq<char>>,
    pos: int,
    t: Template,
    env: Seq<(Seq<char>, EnvSource)>,
    k: int,
)
    requires
        holds_at(lines, pos, env_lines(env)),
        0 <= k <= env.len(),
        forall|i: int| 0 <= i < env.len() ==> printable_env(#[trigger] env[i]),
    ensures
        load_lines(dir, depth, lines, pos, t) == load_lines(
            dir,
            depth,
            lines,
            pos + k,
            Template { env: t.env + env.take(k), ..t },
        ),
    decreases k,
{
    if k == 0 {
        assert(t.env + env.take(0) =~= t.env);
    } else {
        lemma_env_read_back(dir, depth, lines, pos, t, env, k - 1);
        let mid = Template { env: t.env + env.take(k - 1), ..t };
        let (name, source) = env[k - 1];
        assert(printable_env(env[k - 1]));
        assert(lines[pos + (k - 1)] == env_lines(env)[k - 1]);
        lemma_words();
        match source {
            Ok(v) => {
                let text = name + seq!['='] + v;
                lemma_line("env+set"@, text);
                lemma_split_joined(name, '=', v);
                lemma_statements(mid, text);
            },
            Err(None) => {
                lemma_line("env+inherit"@, name);
                lemma_not_split(name, '=');
                lemma_statements(mid, name);
            },
            Err(Some(d)) => {
                let text = name + seq!['='] + d;
                lemma_line("env+inherit"@, text);
                lemma_split_joined(name, '=', d);
                lemma_statements(mid, text);
            },
        }
        assert(mid.env.push(env[k - 1]) =~= t.env + env.take(k));
        lemma_step(
            dir,
            depth,
            lines,
            pos + k - 1,
            mid,
            Template { env: t.env + env.take(k), ..t },
        );
    }
}

/// The line of a setting that may be unset is read back as that setting.
pub proof fn lemma_opt_read_back(
    dir: Directory,
    depth: nat,
    lines: Seq<Seq<char>>,
    pos: int,
    t: Template,
    verb: Seq<char>,
    text: Option<Seq<char>>,
    t2: Template,
)
    requires
        holds_at(lines, pos, opt_line(verb, text)),
        no_char(verb, ' '),
        plain(verb),
        match text {
            Some(x) => apply_statement(t, verb, x) == Ok::<Template, LoadError>(t2),
            None => t2 == t,
        },
    ensures
        load_lines(dir, depth, lines, pos, t) == load_lines(
            dir,
            depth,
            lines,
            pos + opt_line(verb, text).len(),
            t2,
        ),
{
    match text {
        Some(x) => {
            assert(lines[pos + 0] == opt_line(verb, text)[0]);
            lemma_line(verb, x);
            lemma_step(dir, depth, lines, pos, t, t2);
        },
        None => {},
    }
}

/// The line of a user or group that may be unset is read back as that user
/// or group.
pub proof fn lemma_owner_read_back(
    dir: Directory,
    depth: nat,
    lines: Seq<Seq<char>>,
    pos: int,
    t: Template,
    group: bool,
    owner: Option<Identity>,
)
    requires
        holds_at(
            lines,
            pos,
            if group {
                owner_line("gid"@, "group"@, owner)
            } else {
                owner_line("uid"@, "user"@, owner)
            },
        ),
        if group {
            t.group is None
        } else {
            t.user is None
        },
        owner_named(owner),
    ensures
        load_lines(dir, depth, lines, pos, t) == load_lines(
            dir,
            depth,
            lines,
            pos + owner_line("uid"@, "user"@, owner).len(),
            if group {
                Template { group: owner, ..t }
            } else {
                Template { user: owner, ..t }
            },
        ),
        owner_line("uid"@, "user"@, owner).len() == owner_line("gid"@, "group"@, owner).len(),
{
    lemma_words();
    match owner {
        Some(Ok(id)) => {
            let text = decimal_digits(id as nat);
            lemma_id_round_trip(id);
            assert(text.len() > 0);
            lemma_statements(t, text);
            if group {
                assert(lines[pos + 0] == owner_line("gid"@, "group"@, owner)[0]);
                lemma_line("gid"@, text);
                lemma_step(dir, depth, lines, pos, t, Template { group: owner, ..t });
            } else {
                assert(lines[pos + 0] == owner_line("uid"@, "user"@, owner)[0]);
                lemma_line("uid"@, text);
                lemma_step(dir, depth, lines, pos, t, Template { user: owner, ..t });
            }
        },
        Some(Err(name)) => {
            lemma_statements(t, name);
            if group {
                assert(lines[pos + 0] == owner_line("gid"@, "group"@, owner)[0]);
                lemma_line("group"@, name);
                lemma_step(dir, depth, lines, pos, t, Template { group: owner, ..t });
            } else {
                assert(lines[pos + 0] == owner_line("uid"@, "user"@, owner)[0]);
                lemma_line("user"@, name);
                lemma_step(dir, depth, lines, pos, t, Template { user: owner, ..t });
            }
        },
        None => {},
    }
}

/// The template with the first `k` prep blocks of `t`, or its first `k`
/// clean blocks, added.
pub open spec fn with_blocks(acc: Template, t: Template, prep: bool, k: int) -> Template {
    if prep {
        Template { prep: acc.prep + t.prep.take(k), ..acc }
    } else {
        Template { clean: acc.clean + t.clean.take(k), ..acc }
    }
}

/// Where loading stands after the lines of a template: past them, and past
/// the `end` that follows them if one does.
pub open spec fn after_written(lines: Seq<Seq<char>>, pos: int, t: Template) -> int {
    if pos + written(t).len() >= lines.len() {
        lines.len() as int
    } else {
        pos + written(t).len() + 1
    }
}

/// Whether the lines of a template that stand at `pos` are followed by the
/// end of the lines or by an `end`.
pub open spec fn closed_at(lines: Seq<Seq<char>>, pos: int, t: Template) -> bool {
    &&& holds_at(lines, pos, written(t))
    &&& pos + written(t).len() < lines.len() ==> head_word(lines[pos + written(t).len()])
        == "end"@
}

/// The lines of blocks are read back as the blocks.
pub proof fn lemma_blocks_read_back(
    dir: Directory,
    depth: nat,
    lines: Seq<Seq<char>>,
    pos: int,
    acc: Template,
    t: Template,
    prep: bool,
    k: int,
)
    requires
        printable(t),
        0 <= k <= (if prep {
            t.prep
        } else {
            t.clean
        }).len(),
        holds_at(lines, pos, block_lines(t, prep, k)),
    ensures
        load_lines(dir, depth, lines, pos, acc) == load_lines(
            dir,
            depth,
            lines,
            pos + block_lines(t, prep, k).len(),
            with_blocks(acc, t, prep, k),
        ),
    decreases t, 0int, k,
{
    let blocks = if prep {
        t.prep
    } else {
        t.clean
    };
    if k == 0 {
        assert(acc.prep + t.prep.take(0) =~= acc.prep);
        assert(acc.clean + t.clean.take(0) =~= acc.clean);
    } else {
        let verb = if prep {
            "cmd-prep"@
        } else {
            "cmd-clean"@
        };
        let child = blocks[k - 1];
        let before = block_lines(t, prep, k - 1);
        let all = block_lines(t, prep, k);
        assert(all == before + seq![verb] + written(child) + seq!["end"@]);
        lemma_holds_split(lines, pos, before + seq![verb] + written(child), seq!["end"@]);
        lemma_holds_split(lines, pos, before + seq![verb], written(child));
        lemma_holds_split(lines, pos, before, seq![verb]);
        lemma_blocks_read_back(dir, depth, lines, pos, acc, t, prep, k - 1);
        let mid = with_blocks(acc, t, prep, k - 1);
        let q = pos + before.len();
        assert(lines[q + 0] == seq![verb][0]);
        let end_at = q + 1 + written(child).len();
        assert(lines[end_at + 0] == seq!["end"@][0]);
        lemma_words();
        lemma_bare(verb);
        lemma_bare("end"@);
        assert(printable(child));
        lemma_reads_back(dir, depth, lines, q + 1, child);
        let block = load_lines(dir, depth, lines, q + 1, Template::empty());
        assert(block.next == end_at + 1);
        if prep {
            assert(t.prep.take(k) =~= t.prep.take(k - 1).push(child));
            assert(mid.prep.push(child) =~= acc.prep + t.prep.take(k));
        } else {
            assert(t.clean.take(k) =~= t.clean.take(k - 1).push(child));
            assert(mid.clean.push(child) =~= acc.clean + t.clean.take(k));
        }
        assert(!is_comment(verb));
    }
}

/// The lines of a template that can be written are read back, into an empty
/// template, as that template.
pub proof fn lemma_reads_back(
    dir: Directory,
    depth: nat,
    lines: Seq<Seq<char>>,
    pos: int,
    t: Template,
)
    requires
        printable(t),
        closed_at(lines, pos, t),
    ensures
        load_lines(dir, depth, lines, pos, Template::empty()) == (Loaded {
            template: t,
            error: None,
            next: after_written(lines, pos, t),
        }),
    decreases t, 1int, 0int,
{
    lemma_words();
    let empty = Template::empty();
    let preps = block_lines(t, true, t.prep.len() as int);
    let cleans = block_lines(t, false, t.clean.len() as int);
    lemma_holds_split(lines, pos, head_lines(t) + preps + cleans, tail_lines(t));
    lemma_holds_split(lines, pos, head_lines(t) + preps, cleans);
    lemma_holds_split(lines, pos, head_lines(t), preps);
    lemma_holds_split(lines, pos, var_lines(t.vars), opt_line("allow"@, t.allow));
    // the variables and the policy file
    assert(empty.vars + t.vars =~= t.vars);
    lemma_vars_read_back(dir, depth, lines, pos, empty, t.vars, t.vars.len() as int);
    assert(t.vars.take(t.vars.len() as int) =~= t.vars);
    let with_vars = Template { vars: t.vars, ..empty };
    let at_allow = pos + var_lines(t.vars).len();
    let with_allow = Template { allow: t.allow, ..with_vars };
    match t.allow {
        Some(a) => {
            lemma_statements(with_vars, a);
        },
        None => {},
    }
    lemma_opt_read_back(dir, depth, lines, at_allow, with_vars, "allow"@, t.allow, with_allow);
    let at_preps = pos + head_lines(t).len();
    // the blocks
    lemma_blocks_read_back(dir, depth, lines, at_preps, with_allow, t, true, t.prep.len() as int);
    let with_preps = with_blocks(with_allow, t, true, t.prep.len() as int);
    assert(with_allow.prep + t.prep.take(t.prep.len() as int) =~= t.prep);
    let at_cleans = at_preps + preps.len();
    lemma_blocks_read_back(
        dir,
        depth,
        lines,
        at_cleans,
        with_preps,
        t,
        false,
        t.clean.len() as int,
    );
    let with_cleans = with_blocks(with_preps, t, false, t.clean.len() as int);
    assert(with_preps.clean + t.clean.take(t.clean.len() as int) =~= t.clean);
    let at_tail = at_cleans + cleans.len();
    lemma_tail_reads_back(dir, depth, lines, at_tail, with_cleans, t);
}

/// The lines after the blocks are read back as the settings they stand for.
pub proof fn lemma_tail_reads_back(
    dir: Directory,
    depth: nat,
    lines: Seq<Seq<char>>,
    pos: int,
    so_far: Template,
    t: Template,
)
    requires
        printable_flat(t),
        holds_at(lines, pos, tail_lines(t)),
        pos + tail_lines(t).len() < lines.len() ==> head_word(lines[pos + tail_lines(t).len()])
            == "end"@,
        so_far == (Template {
            vars: t.vars,
            allow: t.allow,
            prep: t.prep,
            clean: t.clean,
            ..Template::empty()
        }),
    ensures
        load_lines(dir, depth, lines, pos, so_far) == (Loaded {
            template: t,
            error: None,
            next: if pos + tail_lines(t).len() >= lines.len() {
                lines.len() as int
            } else {
                pos + tail_lines(t).len() + 1
            },
        }),
{
    lemma_words();
    let command = opt_line("command"@, t.command);
    let args = arg_lines(t.args);
    let user = owner_line("uid"@, "user"@, t.user);
    let group = owner_line("gid"@, "group"@, t.group);
    let groups = group_lines(t.groups);
    let env = env_lines(t.env);
    let dir_line = opt_line("working-dir"@, t.working_dir);
    lemma_holds_split(lines, pos, command + args + user + group + groups + env, dir_line);
    lemma_holds_split(lines, pos, command + args + user + group + groups, env);
    lemma_holds_split(lines, pos, command + args + user + group, groups);
    lemma_holds_split(lines, pos, command + args + user, group);
    lemma_holds_split(lines, pos, command + args, user);
    lemma_holds_split(lines, pos, command, args);
    let with_command = Template { command: t.command, ..so_far };
    match t.command {
        Some(c) => {
            lemma_statements(so_far, c);
        },
        None => {},
    }
    lemma_opt_read_back(dir, depth, lines, pos, so_far, "command"@, t.command, with_command);
    let at_args = pos + command.len();
    lemma_args_read_back(dir, depth, lines, at_args, with_command, t.args, t.args.len() as int);
    assert(with_command.args + t.args.take(t.args.len() as int) =~= t.args);
    let with_args = Template { args: t.args, ..with_command };
    let at_user = at_args + args.len();
    lemma_owner_read_back(dir, depth, lines, at_user, with_args, false, t.user);
    let with_user = Template { user: t.user, ..with_args };
    let at_group = at_user + user.len();
    lemma_owner_read_back(dir, depth, lines, at_group, with_user, true, t.group);
    let with_group = Template { group: t.group, ..with_user };
    let at_groups = at_group + group.len();
    lemma_groups_read_back(
        dir,
        depth,
        lines,
        at_groups,
        with_group,
        t.groups,
        t.groups.len() as int,
    );
    assert(with_group.groups + t.groups.take(t.groups.len() as int) =~= t.groups);
    let with_groups = Template { groups: t.groups, ..with_group };
    let at_env = at_groups + groups.len();
    lemma_env_read_back(dir, depth, lines, at_env, with_groups, t.env, t.env.len() as int);
    assert(with_groups.env + t.env.take(t.env.len() as int) =~= t.env);
    let with_env = Template { env: t.env, ..with_groups };
    let at_dir = at_env + env.len();
    let whole = Template { working_dir: t.working_dir, ..with_env };
    match t.working_dir {
        Some(w) => {
            lemma_statements(with_env, w);
        },
        None => {},
    }
    lemma_opt_read_back(
        dir,
        depth,
        lines,
        at_dir,
        with_env,
        "working-dir"@,
        t.working_dir,
        whole,
    );
    assert(whole == t);
    let at_end = at_dir + dir_line.len();
    assert(at_end == pos + tail_lines(t).len());
    if at_end < lines.len() {
        assert(!is_comment("end"@));
    }
}

/// What a statement makes of a template that can be written can be written.
pub proof fn lemma_statement_printable(t: Template, verb: Seq<char>, rest: Seq<char>)
    requires
        printable(t),
    ensures
        apply_statement(t, verb, rest) matches Ok(t2) ==> printable(t2),
{
    lemma_words();
    match apply_statement(t, verb, rest) {
        Ok(t2) => {
            assert(t2.prep == t.prep && t2.clean == t.clean);
            if verb == "var"@ {
                match split_first(rest, ' ') {
                    Some((name, value)) => {
                        lemma_read_source_printable(value);
                        match var_source(value) {
                            Some(source) if valid_name(name) => {
                                lemma_upsert_distinct(t.vars, name, source);
                                lemma_key_index(keys_of(t.vars), name, 0);
                                assert(printable_var((name, source)));
                                assert forall|i: int| 0 <= i < t2.vars.len() implies printable_var(
                                    #[trigger] t2.vars[i],
                                ) by {
                                    if i < t.vars.len() && t2.vars[i] != (name, source) {
                                        assert(t2.vars[i] == t.vars[i]);
                                    }
                                }
                            },
                            _ => {},
                        }
                    },
                    None => {},
                }
            } else if verb == "env+set"@ || verb == "env+inherit"@ {
                lemma_split_no_char(rest, '=');
                assert forall|i: int| 0 <= i < t2.env.len() implies printable_env(
                    #[trigger] t2.env[i],
                ) by {
                    if i < t.env.len() {
                        assert(t2.env[i] == t.env[i]);
                    }
                }
            } else if verb == "arg"@ {
                assert forall|i: int| 0 <= i < t2.args.len() implies (#[trigger] t2.args[i]).len()
                    > 0 by {
                    if i < t.args.len() {
                        assert(t2.args[i] == t.args[i]);
                    }
                }
            } else if verb == "g+gid"@ || verb == "g+group"@ {
                assert forall|i: int| 0 <= i < t2.groups.len() implies named(
                    #[trigger] t2.groups[i],
                ) by {
                    if i < t.groups.len() {
                        assert(t2.groups[i] == t.groups[i]);
                    }
                }
            } else {
            }
        },
        Err(_) => {},
    }
}

/// What is loaded into a template that can be written can be written.
pub proof fn lemma_loaded_printable(
    dir: Directory,
    depth: nat,
    lines: Seq<Seq<char>>,
    pos: int,
    t: Template,
)
    requires
        printable(t),
        0 <= pos,
    ensures
        printable(load_lines(dir, depth, lines, pos, t).template),
    decreases depth, 1 + lines.len() - pos,
{
    if pos < lines.len() {
        let verb = head_word(lines[pos]);
        let rest = after_word(lines[pos]);
        if is_comment(verb) {
            lemma_loaded_printable(dir, depth, lines, pos + 1, t);
        } else if verb == "end"@ {
        } else if verb == "config"@ {
            lemma_file_printable(dir, depth, rest, t);
            let inner = load_file(dir, depth, rest, t);
            if inner.error is None {
                lemma_loaded_printable(dir, depth, lines, pos + 1, inner.template);
            }
        } else if verb == "cmd-prep"@ || verb == "cmd-clean"@ {
            assert(printable(Template::empty()));
            lemma_loaded_printable(dir, depth, lines, pos + 1, Template::empty());
            lemma_load_advances(dir, depth, lines, pos + 1, Template::empty());
            let block = load_lines(dir, depth, lines, pos + 1, Template::empty());
            if block.error is None {
                if verb == "cmd-prep"@ {
                    let t2 = Template { prep: t.prep.push(block.template), ..t };
                    assert forall|i: int| 0 <= i < t2.prep.len() implies printable(
                        #[trigger] t2.prep[i],
                    ) by {
                        if i < t.prep.len() {
                            assert(t2.prep[i] == t.prep[i]);
                        }
                    }
                    assert(printable(t2));
                    lemma_loaded_printable(dir, depth, lines, block.next, t2);
                } else {
                    let t2 = Template { clean: t.clean.push(block.template), ..t };
                    assert forall|i: int| 0 <= i < t2.clean.len() implies printable(
                        #[trigger] t2.clean[i],
                    ) by {
                        if i < t.clean.len() {
                            assert(t2.clean[i] == t.clean[i]);
                        }
                    }
                    assert(printable(t2));
                    lemma_loaded_printable(dir, depth, lines, block.next, t2);
                }
            }
        } else {
            lemma_statement_printable(t, verb, rest);
            match apply_statement(t, verb, rest) {
                Ok(t2) => lemma_loaded_printable(dir, depth, lines, pos + 1, t2),
                Err(e) => {},
            }
        }
    }
}

/// What a file is loaded into stays a template that can be written.
pub proof fn lemma_file_printable(dir: Directory, depth: nat, name: Seq<char>, t: Template)
    requires
        printable(t),
    ensures
        printable(load_file(dir, depth, name, t).template),
    decreases depth, 0int,
{
    if depth > 0 {
        match lookup(dir, name) {
            Some(Some(text)) => {
                lemma_loaded_printable(dir, (depth - 1) as nat, lines_of(text), 0, t);
            },
            _ => {},
        }
    }
}

/// Loading is idempotent over writing: whatever lines are loaded, with
/// whatever files they include, the template that comes of it, written out
/// and loaded again, is that template, and loading it ends without error at
/// the end of its lines.
pub proof fn lemma_load_write_load(
    dir: Directory,
    depth: nat,
    lines: Seq<Seq<char>>,
    again_dir: Directory,
    again_depth: nat,
)
    ensures
        ({
            let t = load_lines(dir, depth, lines, 0, Template::empty()).template;
            load_lines(again_dir, again_depth, written(t), 0, Template::empty()) == (Loaded {
                template: t,
                error: None,
                next: written(t).len() as int,
            })
        }),
{
    let t = load_lines(dir, depth, lines, 0, Template::empty()).template;
    assert(printable(Template::empty()));
    lemma_loaded_printable(dir, depth, lines, 0, Template::empty());
    lemma_reads_back(again_dir, again_depth, written(t), 0, t);
}

} // verus!
