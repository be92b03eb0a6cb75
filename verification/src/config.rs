//! The loader: reads template files, line by line, into run templates.

use vstd::prelude::*;
use crate::fitness::{fit, lemma_check};
use crate::grammar::{
    apply_statement, id_value, is_comment, lemma_load_advances, lemma_split_shorter, lines_from,
    lines_of, load_file, load_lines, takes_argument, valid_name, var_source, with_var, without_cr,
    Directory, LoadError,
};
use crate::model::{
    distinct_keys, find_name, keys_of, lemma_upsert_distinct, lookup, names_of, upsert, Template,
    VarSource,
};
use crate::number::parse_number;
use crate::resolution::{resolve, Answers, Cursor, Flow, ResolveError, Setting};
use crate::resolve::setting_of;
use crate::run::{
    answer_lookup, errors_view, grown_by_ids, looked_up, needs_lookup, sort_errors, those, HostLog,
    HostRequest, Position, ToRunCmdError, LOOKUPS_PER_CALL,
};
use crate::roundtrip::{lemma_file_printable, lemma_loaded_printable, printable, printable_var};
use crate::subst::{pairs_view, Pair};
use crate::template::{
    env_view, identities_view, opt_identity_view, opt_view, templates_view, texts_view, vars_view,
    RunCmdBuilder, ToRunCmdInfo, VarValue,
};
use crate::text::{
    from_chars, index_from, is_space, is_whitespace, is_word, split_once, split_word, string_of,
    to_chars,
};

verus! {

/// Why loading a template file failed.
#[derive(Debug)]
pub enum ConfigFromFileError {
    /// The named file is not in the directory or could not be read.
    IoError(String),
    /// A line begins with a verb that the grammar does not know.
    UnknownStatement(String),
    /// The text after `uid`, `gid` or `g+gid` is no 32-bit number.
    CouldNotParseId(String),
    /// The text after `env+set` holds no `=`.
    EnvAddWrongSyntax(String),
    /// The named file is included from itself, directly or through others.
    IncludeCycle(String),
    /// The named verb takes a text and has none: nothing follows it, or
    /// only a space. For `var`, the text must hold a name and a mode.
    MissingArgument(String),
}

impl View for ConfigFromFileError {
    type V = LoadError;

    open spec fn view(&self) -> LoadError {
        match self {
            ConfigFromFileError::IoError(s) => LoadError::Io(s@),
            ConfigFromFileError::UnknownStatement(s) => LoadError::UnknownStatement(s@),
            ConfigFromFileError::CouldNotParseId(s) => LoadError::CouldNotParseId(s@),
            ConfigFromFileError::EnvAddWrongSyntax(s) => LoadError::EnvAddWrongSyntax(s@),
            ConfigFromFileError::IncludeCycle(s) => LoadError::IncludeCycle(s@),
            ConfigFromFileError::MissingArgument(s) => LoadError::MissingArgument(s@),
        }
    }
}

/// The error of a result, as the grammar sees it.
pub open spec fn error_view(r: Result<(), ConfigFromFileError>) -> Option<LoadError> {
    match r {
        Ok(_) => None,
        Err(e) => Some(e@),
    }
}

/// A directory of template files as the grammar sees it.
pub open spec fn dir_view(dir: Seq<(String, Option<String>)>) -> Directory {
    Seq::new(dir.len(), |i: int| (dir[i].0@, opt_view(dir[i].1)))
}

/// The template of a builder, field by field.
pub proof fn lemma_builder_model(b: RunCmdBuilder)
    ensures
        b@ == (Template {
            vars: vars_view(b.vars@),
            allow: opt_view(b.allow),
            prep: templates_view(b.command_prep@),
            clean: templates_view(b.command_clean@),
            command: opt_view(b.command),
            args: texts_view(b.args@),
            user: opt_identity_view(b.user),
            group: opt_identity_view(b.group),
            groups: identities_view(b.groups@),
            env: env_view(b.env@),
            working_dir: opt_view(b.working_dir),
        }),
{
    assert(b@.prep =~= templates_view(b.command_prep@));
    assert(b@.clean =~= templates_view(b.command_clean@));
}

/// Splits a text into its lines. A line ends at a line feed, which is dropped
/// together with a carriage return just before it.
pub fn split_lines(text: &str) -> (out: Vec<String>)
    ensures
        texts_view(out@) == lines_of(text@),
{
    let chars = to_chars(text);
    let mut out: Vec<String> = Vec::new();
    let mut from: usize = 0;
    while from < chars.len()
        invariant
            from <= chars.len(),
            chars@ == text@,
            lines_of(text@) == texts_view(out@) + lines_from(text@, from as int),
        decreases chars.len() - from,
    {
        let mut i: usize = from;
        while i < chars.len() && chars[i] != '\n'
            invariant
                from <= i <= chars.len(),
                index_from(chars@, '\n', from as int) == index_from(chars@, '\n', i as int),
            decreases chars.len() - i,
        {
            i += 1;
        }
        let ghost before = texts_view(out@);
        if i < chars.len() {
            let end = if i > from && chars[i - 1] == '\r' {
                i - 1
            } else {
                i
            };
            let line = from_chars(&chars, from, end);
            proof {
                let raw = chars@.subrange(from as int, i as int);
                assert(index_from(chars@, '\n', from as int) == Some(i as int));
                if i > from && chars@[i - 1] == '\r' {
                    assert(raw.last() == '\r');
                    assert(raw.drop_last() =~= chars@.subrange(from as int, end as int));
                }
                assert(line@ == without_cr(raw));
            }
            out.push(line);
            proof {
                assert(texts_view(out@) =~= before.push(line@));
                assert(before + (seq![line@] + lines_from(text@, i + 1)) =~= before.push(line@)
                    + lines_from(text@, i + 1));
            }
            from = i + 1;
        } else {
            let line = from_chars(&chars, from, chars.len());
            out.push(line);
            proof {
                assert(index_from(chars@, '\n', from as int) is None);
                assert(texts_view(out@) =~= before.push(line@));
                assert(before + seq![line@] =~= before.push(line@));
                assert(lines_from(text@, chars.len() as int) =~= Seq::<Seq<char>>::empty());
                assert(before.push(line@) + Seq::<Seq<char>>::empty() =~= before.push(line@));
            }
            from = chars.len();
        }
    }
    proof {
        assert(lines_from(text@, from as int) =~= Seq::<Seq<char>>::empty());
        assert(texts_view(out@) + Seq::<Seq<char>>::empty() =~= texts_view(out@));
    }
    out
}

/// Whether a line with this verb is skipped.
fn is_comment_word(verb: &Vec<char>) -> (r: bool)
    ensures
        r == is_comment(verb@),
{
    verb.len() == 0 || verb[0] == '#' || (verb.len() >= 2 && verb[0] == '/' && verb[1] == '/')
}

/// Reads the description of a variable's source.
fn get_var_val(text: &Vec<char>) -> (r: Option<VarValue>)
    ensures
        match r {
            Some(v) => var_source(text@) == Some(v@),
            None => var_source(text@) is None,
        },
    decreases text.len(),
{
    let (mode, value) = split_word(text);
    if is_word(&mode, "set") {
        Some(VarValue::Val(string_of(&value)))
    } else if is_word(&mode, "from-cmd") {
        let args: Vec<String> = Vec::new();
        assert(texts_view(args@) =~= Seq::<Seq<char>>::empty());
        Some(VarValue::OutputOf(string_of(&value), args))
    } else if is_word(&mode, "from-cmd-sh") {
        let mut args: Vec<String> = Vec::new();
        args.push("-c".to_owned());
        args.push(string_of(&value));
        assert(texts_view(args@) =~= seq!["-c"@, value@]);
        Some(VarValue::OutputOf("sh".to_owned(), args))
    } else if is_word(&mode, "from-input") {
        Some(VarValue::Input(string_of(&value)))
    } else if is_word(&mode, "from-input-or") {
        match split_once(&value, ' ') {
            Some((input, default)) => {
                let d = VarValue::Val(string_of(&default));
                assert(d@ == VarSource::Literal(default@));
                Some(VarValue::InputOrDefault(string_of(&input), Box::new(d)))
            },
            None => None,
        }
    } else if is_word(&mode, "from-input-or-else") {
        match split_once(&value, ' ') {
            Some((input, default)) => {
                proof {
                    lemma_split_shorter(value@, ' ');
                    lemma_split_shorter(text@, ' ');
                }
                match get_var_val(&default) {
                    Some(d) => Some(VarValue::InputOrDefault(string_of(&input), Box::new(d))),
                    None => None,
                }
            },
            None => None,
        }
    } else if is_word(&mode, "con-id") {
        Some(VarValue::ConId)
    } else {
        None
    }
}

/// Whether a text can name a variable.
fn is_valid_name(name: &Vec<char>) -> (r: bool)
    ensures
        r == valid_name(name@),
{
    if name.len() == 0 {
        return false;
    }
    let mut i: usize = 0;
    while i < name.len()
        invariant
            i <= name.len(),
            forall|j: int| 0 <= j < i ==> !is_space(#[trigger] name@[j]),
        decreases name.len() - i,
    {
        if is_whitespace(name[i]) {
            return false;
        }
        i += 1;
    }
    true
}

/// Reads a 32-bit id.
fn parse_id(text: &Vec<char>) -> (r: Option<u32>)
    ensures
        r == id_value(text@),
{
    match parse_number(text, 0xffff_ffff) {
        Some(v) => Some(v as u32),
        None => None,
    }
}

/// Applies a `var` line: binds the name, passes the line over where it
/// binds nothing, or fails where the name or the mode is missing. A template
/// in which no variable is bound twice stays one.
fn apply_var(config: &mut RunCmdBuilder, rest: &Vec<char>) -> (r: Result<(), ConfigFromFileError>)
    ensures
        match with_var(old(config)@, rest@) {
            Ok(t) => r is Ok && final(config)@ == t,
            Err(e) => error_view(r) == Some(e) && final(config)@ == old(config)@,
        },
        distinct_keys(keys_of(old(config)@.vars)) ==> distinct_keys(keys_of(final(config)@.vars)),
{
    proof {
        lemma_builder_model(*config);
    }
    match split_once(rest, ' ') {
        Some((name, value)) => {
            if value.len() == 0 {
                return Err(ConfigFromFileError::MissingArgument("var".to_owned()));
            }
            if !is_valid_name(&name) {
                return Ok(());
            }
            match get_var_val(&value) {
                Some(source) => {
                    let ghost before = vars_view(config.vars@);
                    assert(keys_of(before) =~= names_of(config.vars@));
                    match find_name(&config.vars, &name) {
                        Some(i) => {
                            config.vars.set(i, (string_of(&name), source));
                            assert(vars_view(config.vars@) =~= before.update(
                                i as int,
                                (name@, source@),
                            ));
                        },
                        None => {
                            config.vars.push((string_of(&name), source));
                            assert(vars_view(config.vars@) =~= before.push((name@, source@)));
                        },
                    }
                    proof {
                        lemma_builder_model(*config);
                        if distinct_keys(keys_of(before)) {
                            lemma_upsert_distinct(before, name@, source@);
                        }
                    }
                    Ok(())
                },
                None => Ok(()),
            }
        },
        None => Err(ConfigFromFileError::MissingArgument("var".to_owned())),
    }
}

/// Whether a verb takes a text after it.
fn needs_argument(verb: &Vec<char>) -> (r: bool)
    ensures
        r == takes_argument(verb@),
{
    is_word(verb, "var") || is_word(verb, "allow") || is_word(verb, "command") || is_word(
        verb,
        "arg",
    ) || is_word(verb, "uid") || is_word(verb, "user") || is_word(verb, "gid") || is_word(
        verb,
        "group",
    ) || is_word(verb, "g+gid") || is_word(verb, "g+group") || is_word(verb, "env+set")
        || is_word(verb, "env+inherit") || is_word(verb, "working-dir")
}

/// Applies a line that neither opens nor closes a block nor includes a file.
fn apply(config: &mut RunCmdBuilder, verb: &Vec<char>, rest: &Vec<char>) -> (r: Result<
    (),
    ConfigFromFileError,
>)
    ensures
        match apply_statement(old(config)@, verb@, rest@) {
            Ok(t) => r is Ok && final(config)@ == t,
            Err(e) => error_view(r) == Some(e) && final(config)@ == old(config)@,
        },
        distinct_keys(keys_of(old(config)@.vars)) ==> distinct_keys(keys_of(final(config)@.vars)),
        final(config)@.prep == old(config)@.prep,
        final(config)@.clean == old(config)@.clean,
{
    proof {
        lemma_builder_model(*config);
    }
    let ghost args0 = texts_view(config.args@);
    let ghost groups0 = identities_view(config.groups@);
    let ghost env0 = env_view(config.env@);
    if needs_argument(verb) && rest.len() == 0 {
        return Err(ConfigFromFileError::MissingArgument(string_of(verb)));
    }
    if is_word(verb, "var") {
        return apply_var(config, rest);
    } else if is_word(verb, "allow") {
        config.allow = Some(string_of(rest));
    } else if is_word(verb, "command") {
        config.command = Some(string_of(rest));
    } else if is_word(verb, "args-clear") {
        config.args.clear();
        assert(texts_view(config.args@) =~= Seq::<Seq<char>>::empty());
    } else if is_word(verb, "arg") {
        config.args.push(string_of(rest));
        assert(texts_view(config.args@) =~= args0.push(rest@));
    } else if is_word(verb, "uid") {
        match parse_id(rest) {
            Some(id) => {
                config.user = Some(Ok(id));
            },
            None => {
                return Err(ConfigFromFileError::CouldNotParseId(string_of(rest)));
            },
        }
    } else if is_word(verb, "user") {
        config.user = Some(Err(string_of(rest)));
    } else if is_word(verb, "gid") {
        match parse_id(rest) {
            Some(id) => {
                config.group = Some(Ok(id));
            },
            None => {
                return Err(ConfigFromFileError::CouldNotParseId(string_of(rest)));
            },
        }
    } else if is_word(verb, "group") {
        config.group = Some(Err(string_of(rest)));
    } else if is_word(verb, "g-clear") {
        config.groups.clear();
        assert(identities_view(config.groups@) =~= Seq::empty());
    } else if is_word(verb, "g+gid") {
        match parse_id(rest) {
            Some(id) => {
                config.groups.push(Ok(id));
                assert(identities_view(config.groups@) =~= groups0.push(Ok(id)));
            },
            None => {
                return Err(ConfigFromFileError::CouldNotParseId(string_of(rest)));
            },
        }
    } else if is_word(verb, "g+group") {
        config.groups.push(Err(string_of(rest)));
        assert(identities_view(config.groups@) =~= groups0.push(Err(rest@)));
    } else if is_word(verb, "env-clear") {
        config.env.clear();
        assert(env_view(config.env@) =~= Seq::empty());
    } else if is_word(verb, "env+set") {
        match split_once(rest, '=') {
            Some((name, value)) => {
                config.env.push((string_of(&name), Ok(string_of(&value))));
                assert(env_view(config.env@) =~= env0.push((name@, Ok(value@))));
            },
            None => {
                return Err(ConfigFromFileError::EnvAddWrongSyntax(string_of(rest)));
            },
        }
    } else if is_word(verb, "env+inherit") {
        match split_once(rest, '=') {
            Some((name, default)) => {
                config.env.push((string_of(&name), Err(Some(string_of(&default)))));
                assert(env_view(config.env@) =~= env0.push((name@, Err(Some(default@)))));
            },
            None => {
                config.env.push((string_of(rest), Err(None)));
                assert(env_view(config.env@) =~= env0.push((rest@, Err(None))));
            },
        }
    } else if is_word(verb, "working-dir") {
        config.working_dir = Some(string_of(rest));
    } else {
        return Err(ConfigFromFileError::UnknownStatement(string_of(verb)));
    }
    proof {
        lemma_builder_model(*config);
    }
    Ok(())
}

/// A template that is well formed binds no variable twice, and the names
/// of its variables are not empty and hold no white space.
pub proof fn lemma_wf_names(b: RunCmdBuilder)
    requires
        b.wf(),
    ensures
        distinct_keys(names_of(b.vars@)),
        forall|i: int| 0 <= i < b.vars.len() ==> valid_name((#[trigger] b.vars@[i]).0@),
{
    lemma_builder_model(b);
    assert(keys_of(vars_view(b.vars@)) =~= names_of(b.vars@));
    assert forall|i: int| 0 <= i < b.vars.len() implies valid_name((#[trigger] b.vars@[i]).0@) by {
        assert(printable_var(b@.vars[i]));
    }
}

/// Loads the lines from `start` on into `config`, up to the end of the lines
/// or to the `end` that closes this block, and returns the position of the
/// next line. Loading stops at the first error. `name` names what is loaded;
/// `dir` holds the files that `config` lines may include, and `depth` bounds
/// how deep files may include files.
pub fn runcmd_from_lines(
    name: &str,
    config: &mut RunCmdBuilder,
    lines: &Vec<String>,
    start: usize,
    dir: &Vec<(String, Option<String>)>,
    depth: usize,
) -> (r: (Result<(), ConfigFromFileError>, usize))
    ensures
        ({
            let l = load_lines(
                dir_view(dir@),
                depth as nat,
                texts_view(lines@),
                start as int,
                old(config)@,
            );
            &&& final(config)@ == l.template
            &&& error_view(r.0) == l.error
            &&& r.1 == l.next
        }),
        old(config).wf() ==> final(config).wf(),
    decreases depth, 1 + lines.len() - start,
{
    let ghost dv = dir_view(dir@);
    let ghost lv = texts_view(lines@);
    let ghost goal = load_lines(dv, depth as nat, lv, start as int, config@);
    proof {
        if printable(config@) {
            lemma_loaded_printable(dv, depth as nat, lv, start as int, config@);
        }
    }
    let mut pos: usize = start;
    while pos < lines.len()
        invariant
            start <= pos,
            printable(old(config)@) ==> printable(goal.template),
            dv == dir_view(dir@),
            lv == texts_view(lines@),
            goal == load_lines(dv, depth as nat, lv, start as int, old(config)@),
            load_lines(dv, depth as nat, lv, pos as int, config@) == goal,
        decreases lines.len() - pos,
    {
        let line = to_chars(lines[pos].as_str());
        assert(line@ == lv[pos as int]);
        let (verb, rest) = split_word(&line);
        let ghost before = config@;
        if is_comment_word(&verb) {
            pos += 1;
        } else if is_word(&verb, "end") {
            return (Ok(()), pos + 1);
        } else if is_word(&verb, "config") && rest.len() == 0 {
            return (Err(ConfigFromFileError::MissingArgument(string_of(&verb))), pos + 1);
        } else if is_word(&verb, "config") {
            let file = string_of(&rest);
            match runcmd_from_file(file.as_str(), config, dir, depth) {
                Ok(()) => {
                    pos += 1;
                },
                Err(e) => {
                    return (Err(e), pos + 1);
                },
            }
        } else if is_word(&verb, "cmd-prep") {
            let mut block = RunCmdBuilder::new();
            let (r, next) = runcmd_from_lines(name, &mut block, lines, pos + 1, dir, depth);
            proof {
                lemma_load_advances(dv, depth as nat, lv, pos + 1, Template::empty());
            }
            match r {
                Err(e) => {
                    return (Err(e), next);
                },
                Ok(()) => {
                    proof {
                        lemma_builder_model(*config);
                    }
                    let ghost prep0 = templates_view(config.command_prep@);
                    config.command_prep.push(block);
                    proof {
                        lemma_builder_model(*config);
                        assert(templates_view(config.command_prep@) =~= prep0.push(block@));
                    }
                    pos = next;
                },
            }
        } else if is_word(&verb, "cmd-clean") {
            let mut block = RunCmdBuilder::new();
            let (r, next) = runcmd_from_lines(name, &mut block, lines, pos + 1, dir, depth);
            proof {
                lemma_load_advances(dv, depth as nat, lv, pos + 1, Template::empty());
            }
            match r {
                Err(e) => {
                    return (Err(e), next);
                },
                Ok(()) => {
                    proof {
                        lemma_builder_model(*config);
                    }
                    let ghost clean0 = templates_view(config.command_clean@);
                    config.command_clean.push(block);
                    proof {
                        lemma_builder_model(*config);
                        assert(templates_view(config.command_clean@) =~= clean0.push(block@));
                    }
                    pos = next;
                },
            }
        } else {
            match apply(config, &verb, &rest) {
                Ok(()) => {
                    pos += 1;
                },
                Err(e) => {
                    return (Err(e), pos + 1);
                },
            }
        }
    }
    (Ok(()), pos)
}

/// Loads the file `name` of `dir` into `config`. Fails where the file is not
/// in the directory or could not be read, and where including has gone
/// `depth` deep.
pub fn runcmd_from_file(
    name: &str,
    config: &mut RunCmdBuilder,
    dir: &Vec<(String, Option<String>)>,
    depth: usize,
) -> (r: Result<(), ConfigFromFileError>)
    ensures
        ({
            let l = load_file(dir_view(dir@), depth as nat, name@, old(config)@);
            &&& final(config)@ == l.template
            &&& error_view(r) == l.error
        }),
        old(config).wf() ==> final(config).wf(),
    decreases depth, 0int,
{
    proof {
        if printable(config@) {
            lemma_file_printable(dir_view(dir@), depth as nat, name@, config@);
        }
    }
    if depth == 0 {
        return Err(ConfigFromFileError::IncludeCycle(name.to_owned()));
    }
    let key = to_chars(name);
    assert(keys_of(dir_view(dir@)) =~= names_of(dir@));
    match find_name(dir, &key) {
        Some(i) => {
            match &dir[i].1 {
                Some(text) => {
                    let lines = split_lines(text.as_str());
                    let (r, _) = runcmd_from_lines(name, config, &lines, 0, dir, depth - 1);
                    r
                },
                None => Err(ConfigFromFileError::IoError(name.to_owned())),
            }
        },
        None => Err(ConfigFromFileError::IoError(name.to_owned())),
    }
}

/// The templates that the broker offers, each under the name of its file.
/// No name occurs twice.
#[derive(Debug)]
pub struct Config {
    /// The templates loaded from the directory of template files.
    pub run_cmds: Vec<(String, RunCmdBuilder)>,
    /// For a pattern of file paths, the name of the template that opens
    /// such files.
    pub open_cmds: Vec<(String, String)>,
}

/// The templates of a configuration as the model sees them.
pub open spec fn registry_view(v: Seq<(String, RunCmdBuilder)>) -> Seq<(Seq<char>, Template)> {
    Seq::new(v.len(), |i: int| (v[i].0@, v[i].1@))
}

impl View for Config {
    type V = Seq<(Seq<char>, Template)>;

    open spec fn view(&self) -> Seq<(Seq<char>, Template)> {
        registry_view(self.run_cmds@)
    }
}

impl Config {
    /// What holds of every configuration that loading gives: no template
    /// name occurs twice, every template is fit to be offered, and every
    /// template is well formed.
    pub open spec fn wf(&self) -> bool {
        &&& distinct_keys(keys_of(self@))
        &&& all_fit(self@)
        &&& all_printable(self@)
    }

    /// The template offered under `name`.
    pub fn get(&self, name: &str) -> (r: Option<&RunCmdBuilder>)
        ensures
            match r {
                Some(t) => lookup(self@, name@) == Some(t@),
                None => lookup(self@, name@) is None,
            },
    {
        let key = to_chars(name);
        assert(keys_of(self@) =~= names_of(self.run_cmds@));
        match find_name(&self.run_cmds, &key) {
            Some(i) => Some(&self.run_cmds[i].1),
            None => None,
        }
    }
}

/// Whether every template is fit to be offered: it names a command and has
/// a user and a group, and its prep and clean templates are fit in turn.
pub open spec fn all_fit(templates: Seq<(Seq<char>, Template)>) -> bool {
    forall|i: int| 0 <= i < templates.len() ==> fit((#[trigger] templates[i]).1, None, None)
}

/// Whether every template can be written out and read back, so that none
/// binds a variable twice.
pub open spec fn all_printable(templates: Seq<(Seq<char>, Template)>) -> bool {
    forall|i: int| 0 <= i < templates.len() ==> printable((#[trigger] templates[i]).1)
}

/// The setting of the check that a template must pass to be offered: no
/// input, connection 0.
pub open spec fn check_setting(answers: Answers) -> Setting {
    Setting { inputs: Seq::empty(), con_id: 0, check: true, answers }
}

/// What loading made of one file of the directory.
pub enum Finding {
    /// The named file did not load, for the given reason: it is skipped.
    Skipped(Seq<char>, LoadError),
    /// The template of the named file is unfit, for the fatal errors given
    /// last: it is left out. The errors given first are those that may go
    /// away by the time of a run.
    Rejected(Seq<char>, Seq<ResolveError>, Seq<ResolveError>),
    /// The template of the named file is offered under that name. The
    /// errors are those that may go away by the time of a run.
    Added(Seq<char>, Seq<ResolveError>),
}

/// What loading made of one file of the directory.
#[derive(Debug)]
pub enum FileReport {
    /// The named file did not load, for the given reason: it is skipped.
    Skipped(String, ConfigFromFileError),
    /// The template of the named file is unfit, for the fatal errors given
    /// last: it is left out. The errors given first are those that may go
    /// away by the time of a run.
    Rejected(String, Vec<ToRunCmdError>, Vec<ToRunCmdError>),
    /// The template of the named file is offered under that name. The
    /// errors are those that may go away by the time of a run.
    Added(String, Vec<ToRunCmdError>),
}

impl View for FileReport {
    type V = Finding;

    open spec fn view(&self) -> Finding {
        match self {
            FileReport::Skipped(name, e) => Finding::Skipped(name@, e@),
            FileReport::Rejected(name, mild, fatal) => Finding::Rejected(
                name@,
                errors_view(mild@),
                errors_view(fatal@),
            ),
            FileReport::Added(name, mild) => Finding::Added(name@, errors_view(mild@)),
        }
    }
}

/// The reports as the model sees them.
pub open spec fn reports_view(v: Seq<FileReport>) -> Seq<Finding> {
    Seq::new(v.len(), |i: int| v[i]@)
}

/// What loading a directory has given so far: the templates that are kept,
/// what was found of each file, and the answers used.
pub struct Offered {
    pub templates: Seq<(Seq<char>, Template)>,
    pub findings: Seq<Finding>,
    pub cur: Cursor,
}

/// The templates of the files `dir[i..]`, added to `acc`. A file that does
/// not load is left out. A template that loads is checked; one with a fatal
/// error is left out, any other is kept under the name of its file. What is
/// found of each file is recorded, in the order of the files.
pub open spec fn offered_from(dir: Directory, i: int, answers: Answers, acc: Offered) -> Flow<
    Offered,
>
    decreases dir.len() - i,
{
    if i < 0 || i >= dir.len() {
        Flow::Done(acc)
    } else {
        let l = load_file(dir, dir.len(), dir[i].0, Template::empty());
        if l.error is Some {
            offered_from(
                dir,
                i + 1,
                answers,
                Offered {
                    findings: acc.findings.push(Finding::Skipped(dir[i].0, l.error->0)),
                    ..acc
                },
            )
        } else {
            match resolve(
                l.template,
                check_setting(answers),
                Seq::empty(),
                None,
                None,
                acc.cur,
            ) {
                Flow::Need(q) => Flow::Need(q),
                Flow::Done(r) => if those(r.errors, true).len() > 0 {
                    offered_from(
                        dir,
                        i + 1,
                        answers,
                        Offered {
                            templates: acc.templates,
                            findings: acc.findings.push(
                                Finding::Rejected(
                                    dir[i].0,
                                    those(r.errors, false),
                                    those(r.errors, true),
                                ),
                            ),
                            cur: r.cur,
                        },
                    )
                } else {
                    offered_from(
                        dir,
                        i + 1,
                        answers,
                        Offered {
                            templates: upsert(acc.templates, dir[i].0, l.template),
                            findings: acc.findings.push(
                                Finding::Added(dir[i].0, those(r.errors, false)),
                            ),
                            cur: r.cur,
                        },
                    )
                },
            }
        }
    }
}

/// The templates that a directory offers, and what was found of each of its
/// files.
pub open spec fn offered(dir: Directory, answers: Answers) -> Flow<
    (Seq<(Seq<char>, Template)>, Seq<Finding>),
> {
    match offered_from(
        dir,
        0,
        answers,
        Offered { templates: Seq::empty(), findings: Seq::empty(), cur: Cursor::start() },
    ) {
        Flow::Need(q) => Flow::Need(q),
        Flow::Done(o) => Flow::Done((o.templates, o.findings)),
    }
}

/// Where loading a directory stands: it waits for the host, or it has ended
/// with the configuration and a report on each file, in the order of the
/// files.
#[derive(Debug)]
pub enum Loading {
    Pending(HostRequest),
    Finished(Config, Vec<FileReport>),
}

impl View for Loading {
    type V = Flow<(Seq<(Seq<char>, Template)>, Seq<Finding>)>;

    open spec fn view(&self) -> Flow<(Seq<(Seq<char>, Template)>, Seq<Finding>)> {
        match self {
            Loading::Pending(q) => Flow::Need(q@),
            Loading::Finished(c, reports) => Flow::Done((c@, reports_view(reports@))),
        }
    }
}

/// Loads and checks every file of the directory against the answers of
/// `log`, from the first answer on.
pub fn init_with(dir: &Vec<(String, Option<String>)>, log: &HostLog) -> (r: Loading)
    ensures
        r@ == offered(dir_view(dir@), log@),
        r matches Loading::Finished(c, reports) ==> c.wf() && reports.len() == dir.len(),
        r matches Loading::Pending(q) ==> !(q@ is RunPrep),
{
    let ghost dv = dir_view(dir@);
    let ghost goal = offered_from(
        dv,
        0,
        log@,
        Offered { templates: Seq::empty(), findings: Seq::empty(), cur: Cursor::start() },
    );
    let mut run_cmds: Vec<(String, RunCmdBuilder)> = Vec::new();
    let mut reports: Vec<FileReport> = Vec::new();
    assert(reports_view(reports@) =~= Seq::empty());
    let mut pos = Position { captured: 0, preps: 0, ids: 0 };
    let none: Option<Result<u32, String>> = None;
    let nothing: Vec<(String, String)> = Vec::new();
    let info = ToRunCmdInfo { con_id: 0 };
    assert(pairs_view(nothing@) =~= Seq::empty());
    assert(registry_view(run_cmds@) =~= Seq::empty());
    let mut i: usize = 0;
    while i < dir.len()
        invariant
            i <= dir.len(),
            dv == dir_view(dir@),
            info.con_id == 0,
            none is None,
            pairs_view(nothing@) == Seq::<Pair>::empty(),
            distinct_keys(keys_of(registry_view(run_cmds@))),
            all_fit(registry_view(run_cmds@)),
            all_printable(registry_view(run_cmds@)),
            reports.len() == i,
            goal == offered_from(
                dv,
                0,
                log@,
                Offered { templates: Seq::empty(), findings: Seq::empty(), cur: Cursor::start() },
            ),
            offered_from(
                dv,
                i as int,
                log@,
                Offered {
                    templates: registry_view(run_cmds@),
                    findings: reports_view(reports@),
                    cur: pos@,
                },
            ) == goal,
        decreases dir.len() - i,
    {
        let mut builder = RunCmdBuilder::new();
        let loaded = runcmd_from_file(dir[i].0.as_str(), &mut builder, dir, dir.len());
        let ghost found = reports_view(reports@);
        if let Err(e) = loaded {
            reports.push(FileReport::Skipped(dir[i].0.clone(), e));
            assert(reports_view(reports@) =~= found.push(Finding::Skipped(dir@[i as int].0@, e@)));
        } else {
            assert(setting_of(nothing@, info, true, *log) == check_setting(log@));
            let ghost old_pos = pos;
            proof {
                lemma_check(builder@, check_setting(log@), Seq::empty(), None, None, old_pos@);
            }
            match builder.to_runcmd_(&nothing, &nothing, &info, true, log, &none, &none, pos) {
                Err(q) => {
                    return Loading::Pending(q);
                },
                Ok(o) => {
                    let (mild, fatal) = sort_errors(&o.errors);
                    pos = o.pos;
                    if fatal.len() > 0 {
                        reports.push(FileReport::Rejected(dir[i].0.clone(), mild, fatal));
                        assert(reports_view(reports@) =~= found.push(
                            Finding::Rejected(
                                dir@[i as int].0@,
                                those(errors_view(o.errors@), false),
                                those(errors_view(o.errors@), true),
                            ),
                        ));
                    } else {
                        reports.push(FileReport::Added(dir[i].0.clone(), mild));
                        assert(reports_view(reports@) =~= found.push(
                            Finding::Added(dir@[i as int].0@, those(errors_view(o.errors@), false)),
                        ));
                        let ghost before = registry_view(run_cmds@);
                        let key = to_chars(dir[i].0.as_str());
                        assert(keys_of(before) =~= names_of(run_cmds@));
                        proof {
                            lemma_upsert_distinct(before, key@, builder@);
                            lemma_check(
                                builder@,
                                check_setting(log@),
                                Seq::empty(),
                                None,
                                None,
                                old_pos@,
                            );
                        }
                        match find_name(&run_cmds, &key) {
                            Some(at) => {
                                run_cmds.set(at, (dir[i].0.clone(), builder));
                                assert(registry_view(run_cmds@) =~= before.update(
                                    at as int,
                                    (key@, builder@),
                                ));
                            },
                            None => {
                                run_cmds.push((dir[i].0.clone(), builder));
                                assert(registry_view(run_cmds@) =~= before.push((key@, builder@)));
                            },
                        }
                        assert forall|j: int| 0 <= j < run_cmds.len() implies fit(
                            (#[trigger] registry_view(run_cmds@)[j]).1,
                            None,
                            None,
                        ) && printable(registry_view(run_cmds@)[j].1) by {
                            if registry_view(run_cmds@)[j] != (key@, builder@) {
                                assert(registry_view(run_cmds@)[j] == before[j]);
                            }
                        }
                    }
                },
            }
        }
        i += 1;
    }
    Loading::Finished(Config { run_cmds, open_cmds: Vec::new() }, reports)
}

/// Loads and checks every file of the directory as far as the answers of
/// `log` reach and the user and group databases of the host can take it.
/// The ids that have to be looked up are looked up here and recorded in
/// `log`, up to `LOOKUPS_PER_CALL` of them. The result is that of
/// `init_with` on the log as it is left.
pub fn init(dir: &Vec<(String, Option<String>)>, log: &mut HostLog) -> (r: Loading)
    ensures
        looked_up(old(log)@, final(log)@, needs_lookup(r@)),
        r@ == offered(dir_view(dir@), final(log)@),
        r matches Loading::Finished(c, reports) ==> c.wf() && reports.len() == dir.len(),
        r matches Loading::Pending(q) ==> !(q@ is RunPrep),
{
    let mut budget: usize = LOOKUPS_PER_CALL;
    assert(log@.ids.take(log@.ids.len() as int) =~= log@.ids);
    loop
        invariant
            grown_by_ids(old(log)@, log@),
            budget <= LOOKUPS_PER_CALL,
            log@.ids.len() == old(log)@.ids.len() + (LOOKUPS_PER_CALL - budget),
        decreases budget,
    {
        let r = init_with(dir, log);
        if budget == 0 {
            return r;
        }
        budget -= 1;
        let ghost before = log@;
        match r {
            Loading::Pending(HostRequest::FindUser(name)) => {
                answer_lookup(log, name.as_str(), false);
            },
            Loading::Pending(HostRequest::FindGroup(name)) => {
                answer_lookup(log, name.as_str(), true);
            },
            other => {
                return other;
            },
        }
        assert(log@.ids.take(old(log)@.ids.len() as int) =~= before.ids.take(
            old(log)@.ids.len() as int,
        ));
    }
}

} // verus!
