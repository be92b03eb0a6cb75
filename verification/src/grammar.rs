//! The grammar of template files: what each line means and how lines, nested
//! blocks and included files build a template.
//!
//! A line is a verb, or a verb, one space and the rest. Lines whose verb is
//! empty or begins with `#` or `//` are skipped. `end` closes the innermost
//! block, `cmd-prep` and `cmd-clean` open one, and `config` inlines another
//! file of the same directory.
//!
//! Loading stops at the first line that is in error: a verb that the
//! grammar does not know, a verb that takes a text and has none, a number
//! that is none, or an environment entry without `=`. A `var` line that has
//! a name and a mode but binds nothing, because the name cannot name a
//! variable or the mode is not known, is passed over.

use vstd::prelude::*;
use crate::model::{lookup, upsert, Template, VarSource};
use crate::number::number_value;
use crate::roundtrip::lemma_words;
use crate::text::{is_space, after_word, head_word, index_from, lemma_index_from, split_first};

verus! {

/// Why loading a template file failed.
pub enum LoadError {
    /// The named file is not in the directory or could not be read.
    Io(Seq<char>),
    /// A line begins with a verb that the grammar does not know.
    UnknownStatement(Seq<char>),
    /// The text after `uid`, `gid` or `g+gid` is no 32-bit number.
    CouldNotParseId(Seq<char>),
    /// The text after `env+set` holds no `=`.
    EnvAddWrongSyntax(Seq<char>),
    /// The named file is included from itself, directly or through others.
    IncludeCycle(Seq<char>),
    /// The named verb takes a text and has none: nothing follows it, or
    /// only a space. For `var`, the text must hold a name and a mode.
    MissingArgument(Seq<char>),
}

/// A directory of template files: each name with the text of the file, or
/// `None` where the file could not be read.
pub type Directory = Seq<(Seq<char>, Option<Seq<char>>)>;

/// `line` without one carriage return at its end.
pub open spec fn without_cr(line: Seq<char>) -> Seq<char> {
    if line.len() > 0 && line.last() == '\r' {
        line.drop_last()
    } else {
        line
    }
}

/// The lines of `text` from position `from` on. A line ends at a line feed,
/// which is dropped together with a carriage return just before it. What
/// follows the last line feed is a line of its own unless it is empty.
pub open spec fn lines_from(text: Seq<char>, from: int) -> Seq<Seq<char>>
    decreases text.len() - from,
{
    if from < 0 || from >= text.len() {
        Seq::empty()
    } else {
        match index_from(text, '\n', from) {
            Some(i) => if from <= i < text.len() {
                seq![without_cr(text.subrange(from, i))] + lines_from(text, i + 1)
            } else {
                Seq::empty()
            },
            None => seq![text.subrange(from, text.len() as int)],
        }
    }
}

/// The lines of `text`.
pub open spec fn lines_of(text: Seq<char>) -> Seq<Seq<char>> {
    lines_from(text, 0)
}

/// Whether the text after `var` lacks a name or a mode.
pub open spec fn var_incomplete(rest: Seq<char>) -> bool {
    match split_first(rest, ' ') {
        Some((_, value)) => value.len() == 0,
        None => true,
    }
}

/// Whether the text after `var` has a name and a mode and yet binds
/// nothing: the name cannot name a variable, or what follows it describes
/// no source.
pub open spec fn binds_nothing(rest: Seq<char>) -> bool {
    match split_first(rest, ' ') {
        Some((name, value)) => value.len() > 0 && (!valid_name(name) || var_source(value)
            is None),
        None => false,
    }
}

/// Whether the grammar knows a verb that begins a statement.
pub open spec fn known_verb(verb: Seq<char>) -> bool {
    ||| takes_argument(verb)
    ||| verb == "args-clear"@
    ||| verb == "g-clear"@
    ||| verb == "env-clear"@
}

/// The error that a statement is in, if it is in any: its verb takes a text
/// and has none, or is `var` and lacks a name or a mode; the text is to be
/// an id and is no number; the text is to set an environment entry and
/// holds no `=`; or the verb is none that the grammar knows.
pub open spec fn statement_error(verb: Seq<char>, rest: Seq<char>) -> Option<LoadError> {
    if takes_argument(verb) && rest.len() == 0 {
        Some(LoadError::MissingArgument(verb))
    } else if verb == "var"@ {
        if var_incomplete(rest) {
            Some(LoadError::MissingArgument(verb))
        } else {
            None
        }
    } else if verb == "uid"@ || verb == "gid"@ || verb == "g+gid"@ {
        if id_value(rest) is None {
            Some(LoadError::CouldNotParseId(rest))
        } else {
            None
        }
    } else if verb == "env+set"@ {
        if split_first(rest, '=') is None {
            Some(LoadError::EnvAddWrongSyntax(rest))
        } else {
            None
        }
    } else if known_verb(verb) {
        None
    } else {
        Some(LoadError::UnknownStatement(verb))
    }
}

/// A statement fails where it is in error, with that error, and nowhere
/// else, whatever the template it is applied to. A `var` line with a name
/// and a mode never fails: where it binds nothing it is passed over.
pub proof fn lemma_statement_errors(t: Template, verb: Seq<char>, rest: Seq<char>)
    ensures
        match statement_error(verb, rest) {
            Some(e) => apply_statement(t, verb, rest) == Err::<Template, LoadError>(e),
            None => apply_statement(t, verb, rest) is Ok,
        },
        verb == "var"@ && binds_nothing(rest) ==> apply_statement(t, verb, rest) == Ok::<
            Template,
            LoadError,
        >(t),
{
    lemma_words();
}

/// Whether a line with this verb is skipped.
pub open spec fn is_comment(verb: Seq<char>) -> bool {
    verb.len() == 0 || verb[0] == '#' || (verb.len() >= 2 && verb[0] == '/' && verb[1] == '/')
}

/// The source that the text after a variable's name describes: a mode, and
/// after one space whatever the mode takes. What follows the mode may be
/// left out, and is then the empty text. `None` where the text describes no
/// source: the mode is none that the grammar knows, or an input that is to
/// have a default names none, or the default itself describes no source.
pub open spec fn var_source(text: Seq<char>) -> Option<VarSource>
    decreases text.len(),
{
    let mode = head_word(text);
    let value = after_word(text);
    if mode == "set"@ {
        Some(VarSource::Literal(value))
    } else if mode == "from-cmd"@ {
        Some(VarSource::CommandOutput(value, Seq::empty()))
    } else if mode == "from-cmd-sh"@ {
        Some(VarSource::CommandOutput("sh"@, seq!["-c"@, value]))
    } else if mode == "from-input"@ {
        Some(VarSource::Input(value))
    } else if mode == "from-input-or"@ {
        match split_first(value, ' ') {
            Some((input, default)) => Some(
                VarSource::InputOrDefault(input, Box::new(VarSource::Literal(default))),
            ),
            None => None,
        }
    } else if mode == "from-input-or-else"@ {
        match split_first(value, ' ') {
            Some((input, default)) => if default.len() < text.len() {
                match var_source(default) {
                    Some(d) => Some(VarSource::InputOrDefault(input, Box::new(d))),
                    None => None,
                }
            } else {
                None
            },
            None => None,
        }
    } else if mode == "con-id"@ {
        Some(VarSource::ConnectionId)
    } else {
        None
    }
}

/// Whether a text can name a variable: it is not empty and holds no white
/// space.
pub open spec fn valid_name(name: Seq<char>) -> bool {
    name.len() > 0 && forall|j: int| 0 <= j < name.len() ==> !is_space(#[trigger] name[j])
}

/// The template after a `var` line. The line must hold a name, a space and
/// a mode: without them it is in error. Where it has them, the name is bound
/// to the source that the text after it describes. A line whose name cannot
/// name a variable, or whose text describes no source, is passed over: the
/// template stays as it was, and loading goes on.
pub open spec fn with_var(t: Template, rest: Seq<char>) -> Result<Template, LoadError> {
    match split_first(rest, ' ') {
        Some((name, value)) => if value.len() == 0 {
            Err(LoadError::MissingArgument("var"@))
        } else if !valid_name(name) {
            Ok(t)
        } else {
            match var_source(value) {
                Some(source) => Ok(Template { vars: upsert(t.vars, name, source), ..t }),
                None => Ok(t),
            }
        },
        None => Err(LoadError::MissingArgument("var"@)),
    }
}

/// Whether a verb takes a text after it.
pub open spec fn takes_argument(verb: Seq<char>) -> bool {
    ||| verb == "var"@
    ||| verb == "allow"@
    ||| verb == "command"@
    ||| verb == "arg"@
    ||| verb == "uid"@
    ||| verb == "user"@
    ||| verb == "gid"@
    ||| verb == "group"@
    ||| verb == "g+gid"@
    ||| verb == "g+group"@
    ||| verb == "env+set"@
    ||| verb == "env+inherit"@
    ||| verb == "working-dir"@
}

/// The 32-bit number that `text` denotes.
pub open spec fn id_value(text: Seq<char>) -> Option<u32> {
    match number_value(text, 0xffff_ffff) {
        Some(v) => Some(v as u32),
        None => None,
    }
}

/// The template after a line that neither opens nor closes a block nor
/// includes a file. A verb that takes a text and has none, or an empty one,
/// is an error, and the template stays as it was.
pub open spec fn apply_statement(t: Template, verb: Seq<char>, rest: Seq<char>) -> Result<
    Template,
    LoadError,
> {
    if takes_argument(verb) && rest.len() == 0 {
        Err(LoadError::MissingArgument(verb))
    } else if verb == "var"@ {
        with_var(t, rest)
    } else if verb == "allow"@ {
        Ok(Template { allow: Some(rest), ..t })
    } else if verb == "command"@ {
        Ok(Template { command: Some(rest), ..t })
    } else if verb == "args-clear"@ {
        Ok(Template { args: Seq::empty(), ..t })
    } else if verb == "arg"@ {
        Ok(Template { args: t.args.push(rest), ..t })
    } else if verb == "uid"@ {
        match id_value(rest) {
            Some(id) => Ok(Template { user: Some(Ok(id)), ..t }),
            None => Err(LoadError::CouldNotParseId(rest)),
        }
    } else if verb == "user"@ {
        Ok(Template { user: Some(Err(rest)), ..t })
    } else if verb == "gid"@ {
        match id_value(rest) {
            Some(id) => Ok(Template { group: Some(Ok(id)), ..t }),
            None => Err(LoadError::CouldNotParseId(rest)),
        }
    } else if verb == "group"@ {
        Ok(Template { group: Some(Err(rest)), ..t })
    } else if verb == "g-clear"@ {
        Ok(Template { groups: Seq::empty(), ..t })
    } else if verb == "g+gid"@ {
        match id_value(rest) {
            Some(id) => Ok(Template { groups: t.groups.push(Ok(id)), ..t }),
            None => Err(LoadError::CouldNotParseId(rest)),
        }
    } else if verb == "g+group"@ {
        Ok(Template { groups: t.groups.push(Err(rest)), ..t })
    } else if verb == "env-clear"@ {
        Ok(Template { env: Seq::empty(), ..t })
    } else if verb == "env+set"@ {
        match split_first(rest, '=') {
            Some((name, value)) => Ok(Template { env: t.env.push((name, Ok(value))), ..t }),
            None => Err(LoadError::EnvAddWrongSyntax(rest)),
        }
    } else if verb == "env+inherit"@ {
        match split_first(rest, '=') {
            Some((name, default)) => Ok(
                Template { env: t.env.push((name, Err(Some(default)))), ..t },
            ),
            None => Ok(Template { env: t.env.push((rest, Err(None))), ..t }),
        }
    } else if verb == "working-dir"@ {
        Ok(Template { working_dir: Some(rest), ..t })
    } else {
        Err(LoadError::UnknownStatement(verb))
    }
}

/// Where loading stands: the template built so far, the error that stopped
/// it if one did, and the position of the next line.
pub struct Loaded {
    pub template: Template,
    pub error: Option<LoadError>,
    pub next: int,
}

/// Loads the lines from `pos` on into `t`, up to the end of the lines or to
/// the `end` that closes this block. Loading stops at the first error, which
/// leaves the template as it was built up to there; a block that fails is
/// not added to its parent. `depth` bounds how deep files may include files.
pub open spec fn load_lines(
    dir: Directory,
    depth: nat,
    lines: Seq<Seq<char>>,
    pos: int,
    t: Template,
) -> Loaded
    decreases depth, 1 + lines.len() - pos,
{
    if pos < 0 || pos >= lines.len() {
        Loaded { template: t, error: None, next: pos }
    } else {
        let verb = head_word(lines[pos]);
        let rest = after_word(lines[pos]);
        if is_comment(verb) {
            load_lines(dir, depth, lines, pos + 1, t)
        } else if verb == "end"@ {
            Loaded { template: t, error: None, next: pos + 1 }
        } else if verb == "config"@ && rest.len() == 0 {
            Loaded { template: t, error: Some(LoadError::MissingArgument(verb)), next: pos + 1 }
        } else if verb == "config"@ {
            let inner = load_file(dir, depth, rest, t);
            if inner.error is Some {
                Loaded { template: inner.template, error: inner.error, next: pos + 1 }
            } else {
                load_lines(dir, depth, lines, pos + 1, inner.template)
            }
        } else if verb == "cmd-prep"@ || verb == "cmd-clean"@ {
            let block = load_lines(dir, depth, lines, pos + 1, Template::empty());
            if block.error is Some {
                Loaded { template: t, error: block.error, next: block.next }
            } else if block.next <= pos || block.next > lines.len() {
                Loaded { template: t, error: None, next: pos + 1 }
            } else if verb == "cmd-prep"@ {
                load_lines(
                    dir,
                    depth,
                    lines,
                    block.next,
                    Template { prep: t.prep.push(block.template), ..t },
                )
            } else {
                load_lines(
                    dir,
                    depth,
                    lines,
                    block.next,
                    Template { clean: t.clean.push(block.template), ..t },
                )
            }
        } else {
            match apply_statement(t, verb, rest) {
                Ok(t2) => load_lines(dir, depth, lines, pos + 1, t2),
                Err(e) => Loaded { template: t, error: Some(e), next: pos + 1 },
            }
        }
    }
}

/// Loads the file `name` of `dir` into `t`. The file must be in the
/// directory and readable, and including must not have gone `depth` deep.
pub open spec fn load_file(dir: Directory, depth: nat, name: Seq<char>, t: Template) -> Loaded
    decreases depth, 0int,
{
    if depth == 0 {
        Loaded { template: t, error: Some(LoadError::IncludeCycle(name)), next: 0 }
    } else {
        match lookup(dir, name) {
            Some(Some(text)) => load_lines(dir, (depth - 1) as nat, lines_of(text), 0, t),
            _ => Loaded { template: t, error: Some(LoadError::Io(name)), next: 0 },
        }
    }
}

/// Loading moves forward: it ends past where it began, unless there was
/// nothing left to read.
pub proof fn lemma_load_advances(
    dir: Directory,
    depth: nat,
    lines: Seq<Seq<char>>,
    pos: int,
    t: Template,
)
    requires
        0 <= pos,
    ensures
        pos < lines.len() ==> pos < load_lines(dir, depth, lines, pos, t).next <= lines.len(),
        pos >= lines.len() ==> load_lines(dir, depth, lines, pos, t).next == pos,
    decreases depth, 1 + lines.len() - pos,
{
    if pos < lines.len() {
        let verb = head_word(lines[pos]);
        let rest = after_word(lines[pos]);
        if is_comment(verb) {
            lemma_load_advances(dir, depth, lines, pos + 1, t);
        } else if verb == "end"@ {
        } else if verb == "config"@ && rest.len() == 0 {
        } else if verb == "config"@ {
            let inner = load_file(dir, depth, rest, t);
            if inner.error is None {
                lemma_load_advances(dir, depth, lines, pos + 1, inner.template);
            }
        } else if verb == "cmd-prep"@ || verb == "cmd-clean"@ {
            lemma_load_advances(dir, depth, lines, pos + 1, Template::empty());
            let block = load_lines(dir, depth, lines, pos + 1, Template::empty());
            if block.error is None {
                if verb == "cmd-prep"@ {
                    lemma_load_advances(
                        dir,
                        depth,
                        lines,
                        block.next,
                        Template { prep: t.prep.push(block.template), ..t },
                    );
                } else {
                    lemma_load_advances(
                        dir,
                        depth,
                        lines,
                        block.next,
                        Template { clean: t.clean.push(block.template), ..t },
                    );
                }
            }
        } else {
            match apply_statement(t, verb, rest) {
                Ok(t2) => lemma_load_advances(dir, depth, lines, pos + 1, t2),
                Err(e) => {},
            }
        }
    }
}

/// What follows the split of a text is shorter than the text.
pub proof fn lemma_split_shorter(s: Seq<char>, c: char)
    ensures
        match split_first(s, c) {
            Some((a, b)) => a.len() + b.len() + 1 == s.len(),
            None => true,
        },
{
    lemma_index_from(s, c, 0);
}

} // verus!
