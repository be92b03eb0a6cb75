//! The settings file of a one-shot run: what kind of line a line is, which
//! lines a condition switches off, how variables are put into the text of a
//! statement, and what a statement does to the settings.

use vstd::prelude::*;
use crate::conf::{init_view, Conf, Settings};
use crate::model::{find_name, keys_of, lookup, names_of};
use crate::number::{number_value, parse_number};
use crate::subst::{pairs_view, Pair};
use crate::template::{opt_view, texts_view};
use crate::text::{
    begins_with, extend_chars, head_word, is_word, slice_of, split_first, split_once, starts_with,
    string_of, to_chars,
};

verus! {

/// What kind of line a line is. `T` is the type of texts.
#[derive(Debug)]
pub enum Line<T> {
    /// An empty line, a comment, or a word without anything after it.
    Skip,
    /// The end of a conditional block.
    End,
    /// A line that begins with a space: an expression to evaluate.
    Expression,
    /// The beginning of a conditional block, with its condition.
    If(T),
    /// A statement: its name and the text after it.
    Statement(T, T),
}

impl View for Line<String> {
    type V = Line<Seq<char>>;

    open spec fn view(&self) -> Line<Seq<char>> {
        match self {
            Line::Skip => Line::Skip,
            Line::End => Line::End,
            Line::Expression => Line::Expression,
            Line::If(c) => Line::If(c@),
            Line::Statement(w, a) => Line::Statement(w@, a@),
        }
    }
}

/// The kind of a line. A line that is empty or begins with `#` is skipped.
/// A line whose first word is `end` ends a block. Any other line that
/// begins with a space is an expression. Of the rest, a line without a
/// space is skipped, `if` begins a block, and anything else is a statement.
pub open spec fn line_kind(line: Seq<char>) -> Line<Seq<char>> {
    if line.len() == 0 || line[0] == '#' {
        Line::Skip
    } else if head_word(line) == "end"@ {
        Line::End
    } else if line[0] == ' ' {
        Line::Expression
    } else {
        match split_first(line, ' ') {
            None => Line::Skip,
            Some((word, rest)) => if word == "if"@ {
                Line::If(rest)
            } else {
                Line::Statement(word, rest)
            },
        }
    }
}

/// Tells what kind of line a line is.
pub fn classify(line: &str) -> (kind: Line<String>)
    ensures
        kind@ == line_kind(line@),
{
    let chars = to_chars(line);
    if chars.len() == 0 || chars[0] == '#' {
        return Line::Skip;
    }
    match split_once(&chars, ' ') {
        None => {
            if is_word(&chars, "end") {
                Line::End
            } else {
                Line::Skip
            }
        },
        Some((word, rest)) => {
            if is_word(&word, "end") {
                Line::End
            } else if chars[0] == ' ' {
                Line::Expression
            } else if is_word(&word, "if") {
                Line::If(string_of(&rest))
            } else {
                Line::Statement(string_of(&word), string_of(&rest))
            }
        },
    }
}

/// The conditional blocks that are open, innermost last, each with whether
/// its lines are in force, and whether the current line is in force.
#[derive(Debug)]
pub struct Blocks {
    pub depth: Vec<bool>,
    pub last_run: bool,
}

impl Blocks {
    /// No block is open; lines are in force.
    pub fn new() -> (b: Blocks)
        ensures
            b.depth@ == Seq::<bool>::empty(),
            b.last_run,
    {
        Blocks { depth: Vec::new(), last_run: true }
    }

    /// Begins a block. Its lines are in force if the line that begins it is
    /// and its condition holds.
    pub fn begin(&mut self, condition: bool)
        ensures
            final(self).depth@ == old(self).depth@.push(old(self).last_run && condition),
            final(self).last_run == (old(self).last_run && condition),
    {
        let on = self.last_run && condition;
        self.depth.push(on);
        self.last_run = on;
    }

    /// Ends the innermost block and tells whether there was one. After it,
    /// lines are in force as they were in the block around it, and in force
    /// where there is none. Without an open block nothing changes.
    pub fn end(&mut self) -> (matched: bool)
        ensures
            matched == (old(self).depth@.len() > 0),
            !matched ==> *final(self) == *old(self),
            matched ==> {
                &&& final(self).depth@ == old(self).depth@.drop_last()
                &&& final(self).last_run == if final(self).depth@.len() == 0 {
                    true
                } else {
                    final(self).depth@.last()
                }
            },
    {
        if self.depth.len() == 0 {
            return false;
        }
        self.depth.pop();
        self.last_run = if self.depth.len() == 0 {
            true
        } else {
            self.depth[self.depth.len() - 1]
        };
        true
    }
}

/// How far the text of a statement has been read: what is settled, and what
/// is held back because it may be the beginning of a variable.
pub struct Reading {
    pub done: Seq<char>,
    pub held: Seq<char>,
}

/// The mark that begins a variable.
pub open spec fn var_mark() -> Seq<char> {
    "[d26var:"@
}

/// Reading one more character. What is held back grows by it. If it now
/// begins with the mark of a variable and ends with `]`, and what stands
/// between is the name of a variable, the value of the variable is settled
/// in its place. If it cannot become the mark any more, it is settled as it
/// stands.
pub open spec fn read_char(r: Reading, c: char, vars: Seq<Pair>) -> Reading {
    let held = r.held.push(c);
    if begins_with(held, var_mark()) {
        if c == ']' {
            match lookup(vars, held.subrange(var_mark().len() as int, held.len() - 1)) {
                Some(v) => Reading { done: r.done + v, held: Seq::empty() },
                None => Reading { done: r.done, held },
            }
        } else {
            Reading { done: r.done, held }
        }
    } else if !begins_with(var_mark(), held) {
        Reading { done: r.done + held, held: Seq::empty() }
    } else {
        Reading { done: r.done, held }
    }
}

/// Reading a whole text, from the left.
pub open spec fn read_text(text: Seq<char>, vars: Seq<Pair>) -> Reading
    decreases text.len(),
{
    if text.len() == 0 {
        Reading { done: Seq::empty(), held: Seq::empty() }
    } else {
        read_char(read_text(text.drop_last(), vars), text.last(), vars)
    }
}

/// `s` without the line feeds at its end.
pub open spec fn without_newlines(s: Seq<char>) -> Seq<char>
    decreases s.len(),
{
    if s.len() > 0 && s.last() == '\n' {
        without_newlines(s.drop_last())
    } else {
        s
    }
}

/// The text of a statement with its variables put in. What is still held
/// back at the end is left out, and so are line feeds at the end.
pub open spec fn expanded(text: Seq<char>, vars: Seq<Pair>) -> Seq<char> {
    without_newlines(read_text(text, vars).done)
}

/// Puts the variables into the text of a statement. `vars` holds each
/// variable with its value as a text.
pub fn expand_vars(text: &str, vars: &Vec<(String, String)>) -> (out: String)
    ensures
        out@ == expanded(text@, pairs_view(vars@)),
{
    let ghost pv = pairs_view(vars@);
    let chars = to_chars(text);
    let mark = to_chars("[d26var:");
    let mut done: Vec<char> = Vec::new();
    let mut held: Vec<char> = Vec::new();
    let mut i: usize = 0;
    assert(chars@.take(0) =~= Seq::<char>::empty());
    while i < chars.len()
        invariant
            i <= chars.len(),
            chars@ == text@,
            mark@ == var_mark(),
            pv == pairs_view(vars@),
            read_text(chars@.take(i as int), pv) == (Reading { done: done@, held: held@ }),
        decreases chars.len() - i,
    {
        let c = chars[i];
        let ghost before = Reading { done: done@, held: held@ };
        proof {
            assert(chars@.take(i + 1).drop_last() =~= chars@.take(i as int));
            assert(chars@.take(i + 1).last() == c);
        }
        held.push(c);
        if starts_with(&held, &mark) {
            if c == ']' {
                proof {
                    reveal_strlit("[d26var:");
                    assert(mark@.len() == 8 && mark@[7] == ':');
                    if held@.len() == 8 {
                        assert(held@.take(8) =~= held@);
                    }
                }
                let name = slice_of(&held, mark.len(), held.len() - 1);
                assert(keys_of(pv) =~= names_of(vars@));
                match find_name(vars, &name) {
                    Some(at) => {
                        let value = to_chars(vars[at].1.as_str());
                        extend_chars(&mut done, &value);
                        held = Vec::new();
                    },
                    None => {},
                }
            }
        } else if !starts_with(&mark, &held) {
            extend_chars(&mut done, &held);
            held = Vec::new();
        }
        i += 1;
    }
    assert(chars@.take(i as int) =~= chars@);
    let ghost all = done@;
    let mut n: usize = done.len();
    assert(all.take(n as int) =~= all);
    while n > 0 && done[n - 1] == '\n'
        invariant
            n <= done.len(),
            all == done@,
            without_newlines(all) == without_newlines(all.take(n as int)),
        decreases n,
    {
        assert(all.take(n as int).drop_last() =~= all.take(n - 1));
        n -= 1;
    }
    proof {
        if n > 0 {
            assert(all.take(n as int).last() == all[n - 1]);
        }
        assert(all.take(n as int) =~= all.subrange(0, n as int));
    }
    string_of(&slice_of(&done, 0, n))
}

/// What a statement came to.
#[derive(Debug)]
pub enum Applied {
    /// The settings are changed as the statement says.
    Done,
    /// Another settings file is to be loaded: the text names it.
    Load(String),
    /// `init+` stands before any init command.
    NoInit,
    /// The text after `count` is no number.
    BadCount(String),
    /// The name is that of no statement.
    Unknown(String),
}

/// What a statement came to, as a text.
pub enum Effect {
    Done,
    Load(Seq<char>),
    NoInit,
    BadCount(Seq<char>),
    Unknown(Seq<char>),
}

impl View for Applied {
    type V = Effect;

    open spec fn view(&self) -> Effect {
        match self {
            Applied::Done => Effect::Done,
            Applied::Load(f) => Effect::Load(f@),
            Applied::NoInit => Effect::NoInit,
            Applied::BadCount(t) => Effect::BadCount(t@),
            Applied::Unknown(w) => Effect::Unknown(w@),
        }
    }
}

/// A setting that is set only where it is not set yet.
pub open spec fn or_set(current: Option<Seq<char>>, text: Seq<char>) -> Option<Seq<char>> {
    match current {
        Some(v) => Some(v),
        None => Some(text),
    }
}

/// The groups with more groups added, separated by a comma.
pub open spec fn more_groups(current: Option<Seq<char>>, text: Seq<char>) -> Option<Seq<char>> {
    match current {
        Some(g) => if g.len() == 0 {
            Some(text)
        } else {
            Some(g + seq![','] + text)
        },
        None => Some(text),
    }
}

/// What a statement does to the settings, and what it comes to.
pub open spec fn statement(c: Settings, what: Seq<char>, text: Seq<char>) -> (Settings, Effect) {
    if what == "config"@ {
        (c, Effect::Load(text))
    } else if what == "run"@ {
        if c.noconfcmd {
            (c, Effect::Done)
        } else {
            (Settings { run: c.run.push(text), ..c }, Effect::Done)
        }
    } else if what == "init!"@ {
        (Settings { init: c.init.push((true, seq![text])), ..c }, Effect::Done)
    } else if what == "init_"@ {
        (Settings { init: c.init.push((false, seq![text])), ..c }, Effect::Done)
    } else if what == "init+"@ {
        if c.init.len() == 0 {
            (c, Effect::NoInit)
        } else {
            (
                Settings {
                    init: c.init.update(
                        c.init.len() - 1,
                        (c.init.last().0, c.init.last().1.push(text)),
                    ),
                    ..c
                },
                Effect::Done,
            )
        }
    } else if what == "count"@ {
        match number_value(text, 0xffff_ffff_ffff_ffff) {
            Some(n) => (Settings { count: n, ..c }, Effect::Done),
            None => (c, Effect::BadCount(text)),
        }
    } else if what == "name"@ {
        (Settings { name: or_set(c.name, text), ..c }, Effect::Done)
    } else if what == "setname"@ {
        (Settings { name: Some(text), ..c }, Effect::Done)
    } else if what == "passwd"@ {
        (Settings { passwd: or_set(c.passwd, text), ..c }, Effect::Done)
    } else if what == "setpasswd"@ {
        (Settings { passwd: Some(text), ..c }, Effect::Done)
    } else if what == "group"@ {
        (Settings { group: or_set(c.group, text), ..c }, Effect::Done)
    } else if what == "setgroup"@ {
        (Settings { group: Some(text), ..c }, Effect::Done)
    } else if what == "groups"@ {
        (Settings { groups: or_set(c.groups, text), ..c }, Effect::Done)
    } else if what == "setgroups"@ {
        (Settings { groups: Some(text), ..c }, Effect::Done)
    } else if what == "addgroups"@ {
        (Settings { groups: more_groups(c.groups, text), ..c }, Effect::Done)
    } else if what == "home"@ {
        (Settings { home_dir: or_set(c.home_dir, text), ..c }, Effect::Done)
    } else if what == "sethome"@ {
        (Settings { home_dir: Some(text), ..c }, Effect::Done)
    } else if what == "immuthome"@ {
        (Settings { immutable_home_at: or_set(c.immutable_home_at, text), ..c }, Effect::Done)
    } else if what == "setimmuthome"@ {
        (Settings { immutable_home_at: Some(text), ..c }, Effect::Done)
    } else {
        (c, Effect::Unknown(what))
    }
}

fn set_if_unset(current: &mut Option<String>, text: String)
    ensures
        opt_view(*final(current)) == or_set(opt_view(*old(current)), text@),
{
    if current.is_none() {
        *current = Some(text);
    }
}

impl Conf {
    /// Applies one statement of a settings file: `what` is its name, `args`
    /// the text after it with the variables put in.
    pub fn load(&mut self, what: &str, args: String) -> (r: Applied)
        ensures
            (final(self)@, r@) == statement(old(self)@, what@, args@),
    {
        let w = to_chars(what);
        let ghost run0 = texts_view(self.run@);
        let ghost init0 = init_view(self.init@);
        if is_word(&w, "config") {
            return Applied::Load(args);
        } else if is_word(&w, "run") {
            if !self.noconfcmd {
                self.run.push(args);
                assert(texts_view(self.run@) =~= run0.push(args@));
            }
        } else if is_word(&w, "init!") {
            let mut cmd: Vec<String> = Vec::new();
            cmd.push(args);
            assert(texts_view(cmd@) =~= seq![args@]);
            self.init.push((true, cmd));
            assert(init_view(self.init@) =~= init0.push((true, seq![args@])));
        } else if is_word(&w, "init_") {
            let mut cmd: Vec<String> = Vec::new();
            cmd.push(args);
            assert(texts_view(cmd@) =~= seq![args@]);
            self.init.push((false, cmd));
            assert(init_view(self.init@) =~= init0.push((false, seq![args@])));
        } else if is_word(&w, "init+") {
            match self.init.pop() {
                None => {
                    return Applied::NoInit;
                },
                Some((fatal, cmd)) => {
                    let mut cmd = cmd;
                    let ghost before = texts_view(cmd@);
                    cmd.push(args);
                    assert(texts_view(cmd@) =~= before.push(args@));
                    self.init.push((fatal, cmd));
                    assert(init_view(self.init@) =~= init0.update(
                        init0.len() - 1,
                        (init0.last().0, init0.last().1.push(args@)),
                    ));
                },
            }
        } else if is_word(&w, "count") {
            match parse_number(&to_chars(args.as_str()), 0xffff_ffff_ffff_ffff) {
                Some(n) => {
                    self.count = n as u64;
                },
                None => {
                    return Applied::BadCount(args);
                },
            }
        } else if is_word(&w, "name") {
            set_if_unset(&mut self.name, args);
        } else if is_word(&w, "setname") {
            self.name = Some(args);
        } else if is_word(&w, "passwd") {
            set_if_unset(&mut self.passwd, args);
        } else if is_word(&w, "setpasswd") {
            self.passwd = Some(args);
        } else if is_word(&w, "group") {
            set_if_unset(&mut self.group, args);
        } else if is_word(&w, "setgroup") {
            self.group = Some(args);
        } else if is_word(&w, "groups") {
            set_if_unset(&mut self.groups, args);
        } else if is_word(&w, "setgroups") {
            self.groups = Some(args);
        } else if is_word(&w, "addgroups") {
            match self.groups.take() {
                Some(g) => {
                    let mut buf = to_chars(g.as_str());
                    if buf.len() == 0 {
                        self.groups = Some(args);
                    } else {
                        buf.push(',');
                        extend_chars(&mut buf, &to_chars(args.as_str()));
                        assert(buf@ =~= g@ + seq![','] + args@);
                        self.groups = Some(string_of(&buf));
                    }
                },
                None => {
                    self.groups = Some(args);
                },
            }
        } else if is_word(&w, "home") {
            set_if_unset(&mut self.home_dir, args);
        } else if is_word(&w, "sethome") {
            self.home_dir = Some(args);
        } else if is_word(&w, "immuthome") {
            set_if_unset(&mut self.immutable_home_at, args);
        } else if is_word(&w, "setimmuthome") {
            self.immutable_home_at = Some(args);
        } else {
            return Applied::Unknown(string_of(&w));
        }
        Applied::Done
    }
}

} // verus!
