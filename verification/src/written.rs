//! Templates written out as the lines of a template file.
//!
//! The lines come in one fixed order: the variables, the policy file, the
//! prep blocks, the clean blocks, the command, its arguments, the user, the
//! group, the supplementary groups, the environment, the working directory.
//! A setting that is not set has no line.

use vstd::prelude::*;
use crate::config::lemma_builder_model;
use crate::model::{EnvSource, Identity, Template, VarSource};
use crate::number::{decimal, decimal_digits};
use crate::template::{
    env_source_view, env_view, identities_view, identity_view, opt_identity_view, opt_view,
    templates_view, texts_view, vars_view, RunCmdBuilder, VarValue,
};
use crate::text::{extend_chars, extend_str, string_of, to_chars};

verus! {

/// A statement: its verb, a space, and its text.
pub open spec fn line(verb: Seq<char>, text: Seq<char>) -> Seq<char> {
    verb + seq![' '] + text
}

/// The description of a variable's source, as it stands after the name of
/// the variable. The grammar knows a program without arguments and a shell
/// command; of a program with arguments, its last argument is written as a
/// shell command.
pub open spec fn source_text(source: VarSource) -> Seq<char>
    decreases source,
{
    match source {
        VarSource::Literal(v) => line("set"@, v),
        VarSource::CommandOutput(program, args) => if args.len() == 0 {
            line("from-cmd"@, program)
        } else {
            line("from-cmd-sh"@, args.last())
        },
        VarSource::Input(name) => line("from-input"@, name),
        VarSource::InputOrDefault(name, default) => match *default {
            VarSource::Literal(v) => line("from-input-or"@, line(name, v)),
            _ => line("from-input-or-else"@, line(name, source_text(*default))),
        },
        VarSource::ConnectionId => "con-id"@,
    }
}

/// The lines of the variables.
pub open spec fn var_lines(vars: Seq<(Seq<char>, VarSource)>) -> Seq<Seq<char>> {
    Seq::new(vars.len(), |i: int| line("var"@, line(vars[i].0, source_text(vars[i].1))))
}

/// The line of a setting that may be unset.
pub open spec fn opt_line(verb: Seq<char>, text: Option<Seq<char>>) -> Seq<Seq<char>> {
    match text {
        Some(t) => seq![line(verb, t)],
        None => Seq::empty(),
    }
}

/// The line of a user or group: by id or by name.
pub open spec fn identity_line(by_id: Seq<char>, by_name: Seq<char>, identity: Identity) -> Seq<
    char,
> {
    match identity {
        Ok(id) => line(by_id, decimal_digits(id as nat)),
        Err(name) => line(by_name, name),
    }
}

/// The line of a user or group that may be unset.
pub open spec fn owner_line(by_id: Seq<char>, by_name: Seq<char>, identity: Option<Identity>)
    -> Seq<Seq<char>> {
    match identity {
        Some(i) => seq![identity_line(by_id, by_name, i)],
        None => Seq::empty(),
    }
}

/// The lines of the arguments.
pub open spec fn arg_lines(args: Seq<Seq<char>>) -> Seq<Seq<char>> {
    Seq::new(args.len(), |i: int| line("arg"@, args[i]))
}

/// The lines of the supplementary groups.
pub open spec fn group_lines(groups: Seq<Identity>) -> Seq<Seq<char>> {
    Seq::new(groups.len(), |i: int| identity_line("g+gid"@, "g+group"@, groups[i]))
}

/// The line of an environment entry.
pub open spec fn env_line(name: Seq<char>, source: EnvSource) -> Seq<char> {
    match source {
        Ok(v) => line("env+set"@, name + seq!['='] + v),
        Err(None) => line("env+inherit"@, name),
        Err(Some(d)) => line("env+inherit"@, name + seq!['='] + d),
    }
}

/// The lines of the environment.
pub open spec fn env_lines(env: Seq<(Seq<char>, EnvSource)>) -> Seq<Seq<char>> {
    Seq::new(env.len(), |i: int| env_line(env[i].0, env[i].1))
}

/// The lines before the blocks: the variables and the policy file.
pub open spec fn head_lines(t: Template) -> Seq<Seq<char>> {
    var_lines(t.vars) + opt_line("allow"@, t.allow)
}

/// The lines after the blocks.
pub open spec fn tail_lines(t: Template) -> Seq<Seq<char>> {
    opt_line("command"@, t.command) + arg_lines(t.args) + owner_line("uid"@, "user"@, t.user)
        + owner_line("gid"@, "group"@, t.group) + group_lines(t.groups) + env_lines(t.env)
        + opt_line("working-dir"@, t.working_dir)
}

/// The template as lines.
pub open spec fn written(t: Template) -> Seq<Seq<char>>
    decreases t, 1int, 0int,
{
    head_lines(t) + block_lines(t, true, t.prep.len() as int) + block_lines(
        t,
        false,
        t.clean.len() as int,
    ) + tail_lines(t)
}

/// The first `k` prep blocks of `t`, or its first `k` clean blocks, as
/// lines: each block between its opening line and an `end`.
pub open spec fn block_lines(t: Template, prep: bool, k: int) -> Seq<Seq<char>>
    decreases t, 0int, k,
{
    let blocks = if prep {
        t.prep
    } else {
        t.clean
    };
    if k <= 0 || k > blocks.len() {
        Seq::empty()
    } else {
        block_lines(t, prep, k - 1) + seq![
            if prep {
                "cmd-prep"@
            } else {
                "cmd-clean"@
            },
        ] + written(blocks[k - 1]) + seq!["end"@]
    }
}

fn statement(verb: &str, text: &Vec<char>) -> (out: Vec<char>)
    ensures
        out@ == line(verb@, text@),
{
    let mut buf: Vec<char> = Vec::new();
    extend_str(&mut buf, verb);
    buf.push(' ');
    extend_chars(&mut buf, text);
    assert(buf@ =~= line(verb@, text@));
    buf
}

fn statement_str(verb: &str, text: &str) -> (out: Vec<char>)
    ensures
        out@ == line(verb@, text@),
{
    statement(verb, &to_chars(text))
}

fn write_source(source: &VarValue) -> (out: Vec<char>)
    ensures
        out@ == source_text(source@),
    decreases source,
{
    match source {
        VarValue::Val(v) => statement_str("set", v.as_str()),
        VarValue::OutputOf(program, args) => {
            if args.len() == 0 {
                statement_str("from-cmd", program.as_str())
            } else {
                assert(texts_view(args@).last() == args@[args.len() - 1]@);
                statement_str("from-cmd-sh", args[args.len() - 1].as_str())
            }
        },
        VarValue::Input(name) => statement_str("from-input", name.as_str()),
        VarValue::InputOrDefault(name, default) => match &**default {
            VarValue::Val(v) => {
                assert(default.model() == VarSource::Literal(v@));
                let inner = statement_str(name.as_str(), v.as_str());
                statement("from-input-or", &inner)
            },
            other => {
                assert(!(other.model() is Literal));
                let text = write_source(other);
                let inner = statement(name.as_str(), &text);
                statement("from-input-or-else", &inner)
            },
        },
        VarValue::ConId => to_chars("con-id"),
    }
}

fn write_identity(by_id: &str, by_name: &str, identity: &Result<u32, String>) -> (out: Vec<char>)
    ensures
        out@ == identity_line(by_id@, by_name@, identity_view(*identity)),
{
    match identity {
        Ok(id) => statement(by_id, &decimal(*id as u128)),
        Err(name) => statement_str(by_name, name.as_str()),
    }
}

fn write_env(name: &str, source: &Result<String, Option<String>>) -> (out: Vec<char>)
    ensures
        out@ == env_line(name@, env_source_view(*source)),
{
    let mut text = to_chars(name);
    match source {
        Ok(v) => {
            text.push('=');
            extend_str(&mut text, v.as_str());
            statement("env+set", &text)
        },
        Err(None) => statement("env+inherit", &text),
        Err(Some(d)) => {
            text.push('=');
            extend_str(&mut text, d.as_str());
            statement("env+inherit", &text)
        },
    }
}

fn push_line(out: &mut Vec<String>, l: &Vec<char>)
    ensures
        texts_view(final(out)@) == texts_view(old(out)@).push(l@),
{
    out.push(string_of(l));
    assert(texts_view(out@) =~= texts_view(old(out)@).push(l@));
}

fn push_opt(out: &mut Vec<String>, verb: &str, text: &Option<String>)
    ensures
        texts_view(final(out)@) == texts_view(old(out)@) + opt_line(verb@, opt_view(*text)),
{
    match text {
        Some(t) => {
            push_line(out, &statement_str(verb, t.as_str()));
            assert(texts_view(out@) =~= texts_view(old(out)@) + opt_line(verb@, opt_view(*text)));
        },
        None => {
            assert(texts_view(out@) =~= texts_view(old(out)@) + opt_line(verb@, opt_view(*text)));
        },
    }
}

fn push_owner(out: &mut Vec<String>, by_id: &str, by_name: &str, owner: &Option<Result<u32, String>>)
    ensures
        texts_view(final(out)@) == texts_view(old(out)@) + owner_line(
            by_id@,
            by_name@,
            opt_identity_view(*owner),
        ),
{
    match owner {
        Some(i) => {
            push_line(out, &write_identity(by_id, by_name, i));
        },
        None => {},
    }
    assert(texts_view(out@) =~= texts_view(old(out)@) + owner_line(
        by_id@,
        by_name@,
        opt_identity_view(*owner),
    ));
}

fn push_vars(out: &mut Vec<String>, vars: &Vec<(String, VarValue)>)
    ensures
        texts_view(final(out)@) == texts_view(old(out)@) + var_lines(vars_view(vars@)),
{
    let ghost start = texts_view(out@);
    let ghost all = var_lines(vars_view(vars@));
    let mut i: usize = 0;
    assert(start + all.take(0) =~= start);
    while i < vars.len()
        invariant
            i <= vars.len(),
            all == var_lines(vars_view(vars@)),
            texts_view(out@) == start + all.take(i as int),
        decreases vars.len() - i,
    {
        let source = write_source(&vars[i].1);
        let inner = statement(vars[i].0.as_str(), &source);
        push_line(out, &statement("var", &inner));
        assert(all.take(i + 1) =~= all.take(i as int).push(all[i as int]));
        assert(texts_view(out@) =~= start + all.take(i + 1));
        i += 1;
    }
    assert(all.take(i as int) =~= all);
}

fn push_args(out: &mut Vec<String>, args: &Vec<String>)
    ensures
        texts_view(final(out)@) == texts_view(old(out)@) + arg_lines(texts_view(args@)),
{
    let ghost start = texts_view(out@);
    let ghost all = arg_lines(texts_view(args@));
    let mut i: usize = 0;
    assert(start + all.take(0) =~= start);
    while i < args.len()
        invariant
            i <= args.len(),
            all == arg_lines(texts_view(args@)),
            texts_view(out@) == start + all.take(i as int),
        decreases args.len() - i,
    {
        push_line(out, &statement_str("arg", args[i].as_str()));
        assert(all.take(i + 1) =~= all.take(i as int).push(all[i as int]));
        assert(texts_view(out@) =~= start + all.take(i + 1));
        i += 1;
    }
    assert(all.take(i as int) =~= all);
}

fn push_groups(out: &mut Vec<String>, groups: &Vec<Result<u32, String>>)
    ensures
        texts_view(final(out)@) == texts_view(old(out)@) + group_lines(identities_view(groups@)),
{
    let ghost start = texts_view(out@);
    let ghost all = group_lines(identities_view(groups@));
    let mut i: usize = 0;
    assert(start + all.take(0) =~= start);
    while i < groups.len()
        invariant
            i <= groups.len(),
            all == group_lines(identities_view(groups@)),
            texts_view(out@) == start + all.take(i as int),
        decreases groups.len() - i,
    {
        push_line(out, &write_identity("g+gid", "g+group", &groups[i]));
        assert(all.take(i + 1) =~= all.take(i as int).push(all[i as int]));
        assert(texts_view(out@) =~= start + all.take(i + 1));
        i += 1;
    }
    assert(all.take(i as int) =~= all);
}

fn push_env(out: &mut Vec<String>, env: &Vec<(String, Result<String, Option<String>>)>)
    ensures
        texts_view(final(out)@) == texts_view(old(out)@) + env_lines(env_view(env@)),
{
    let ghost start = texts_view(out@);
    let ghost all = env_lines(env_view(env@));
    let mut i: usize = 0;
    assert(start + all.take(0) =~= start);
    while i < env.len()
        invariant
            i <= env.len(),
            all == env_lines(env_view(env@)),
            texts_view(out@) == start + all.take(i as int),
        decreases env.len() - i,
    {
        push_line(out, &write_env(env[i].0.as_str(), &env[i].1));
        assert(all.take(i + 1) =~= all.take(i as int).push(all[i as int]));
        assert(texts_view(out@) =~= start + all.take(i + 1));
        i += 1;
    }
    assert(all.take(i as int) =~= all);
}

impl RunCmdBuilder {
    /// Appends the first `k` prep blocks, or the first `k` clean blocks.
    fn write_blocks(&self, out: &mut Vec<String>, prep: bool)
        ensures
            texts_view(final(out)@) == texts_view(old(out)@) + block_lines(
                self@,
                prep,
                if prep {
                    self@.prep.len() as int
                } else {
                    self@.clean.len() as int
                },
            ),
        decreases self, 0int,
    {
        proof {
            lemma_builder_model(*self);
        }
        let blocks = if prep {
            &self.command_prep
        } else {
            &self.command_clean
        };
        let ghost t = self@;
        let ghost start = texts_view(out@);
        let mut k: usize = 0;
        assert(start + block_lines(t, prep, 0) =~= start);
        while k < blocks.len()
            invariant
                k <= blocks.len(),
                t == self@,
                blocks@ == if prep {
                    self.command_prep@
                } else {
                    self.command_clean@
                },
                templates_view(blocks@) == if prep {
                    t.prep
                } else {
                    t.clean
                },
                start == texts_view(old(out)@),
                texts_view(out@) == start + block_lines(t, prep, k as int),
            decreases blocks.len() - k,
        {
            let ghost before = texts_view(out@);
            let ghost done = block_lines(t, prep, k as int);
            if prep {
                push_line(out, &to_chars("cmd-prep"));
            } else {
                push_line(out, &to_chars("cmd-clean"));
            }
            blocks[k].write(out);
            push_line(out, &to_chars("end"));
            proof {
                let child = blocks@[k as int]@;
                let verb = if prep {
                    "cmd-prep"@
                } else {
                    "cmd-clean"@
                };
                assert(texts_view(out@) =~= start + (done + seq![verb] + written(child) + seq![
                    "end"@,
                ]));
            }
            k += 1;
        }
    }

    /// Appends the lines of the template.
    fn write(&self, out: &mut Vec<String>)
        ensures
            texts_view(final(out)@) == texts_view(old(out)@) + written(self@),
        decreases self, 1int,
    {
        proof {
            lemma_builder_model(*self);
        }
        let ghost t = self@;
        let ghost start = texts_view(out@);
        push_vars(out, &self.vars);
        push_opt(out, "allow", &self.allow);
        let ghost head = texts_view(out@);
        assert(head =~= start + head_lines(t));
        self.write_blocks(out, true);
        self.write_blocks(out, false);
        let ghost mid = texts_view(out@);
        push_opt(out, "command", &self.command);
        push_args(out, &self.args);
        push_owner(out, "uid", "user", &self.user);
        push_owner(out, "gid", "group", &self.group);
        push_groups(out, &self.groups);
        push_env(out, &self.env);
        push_opt(out, "working-dir", &self.working_dir);
        assert(texts_view(out@) =~= mid + tail_lines(t));
        assert(texts_view(out@) =~= start + written(t));
    }

    /// The template as the lines of a template file. The lines load back as
    /// this template where it is one that loading can give: see
    /// `roundtrip::printable`.
    pub fn serialize(&self) -> (out: Vec<String>)
        ensures
            texts_view(out@) == written(self@),
    {
        let mut out: Vec<String> = Vec::new();
        assert(texts_view(out@) =~= Seq::<Seq<char>>::empty());
        self.write(&mut out);
        assert(Seq::<Seq<char>>::empty() + written(self@) =~= written(self@));
        out
    }
}

} // verus!
