//! The settings of a one-shot run under a throw-away user: the name of that
//! user, and the texts in which the settings stand for one another.

use vstd::prelude::*;
use crate::number::{decimal, decimal_digits};
use crate::script::{find_chars, find_text};
use crate::template::{opt_view, texts_view};
use crate::text::{extend_chars, extend_str, slice_of, string_of, to_chars};

verus! {

/// The number of the calling thread.
///
/// Trusted: calls `palaver::thread::gettid`. Nothing is promised of the
/// result: it is whatever number the system has given the thread.
#[verifier::external_body]
fn thread_number() -> u64 {
    palaver::thread::gettid()
}

/// The settings as texts.
pub struct Settings {
    pub run: Seq<Seq<char>>,
    pub init: Seq<(bool, Seq<Seq<char>>)>,
    pub count: nat,
    pub test: bool,
    pub name: Option<Seq<char>>,
    pub passwd: Option<Seq<char>>,
    pub group: Option<Seq<char>>,
    pub groups: Option<Seq<char>>,
    pub home_dir: Option<Seq<char>>,
    pub userdel: bool,
    pub userhomedel: bool,
    pub noconfcmd: bool,
    pub immutable_home_at: Option<Seq<char>>,
}

impl Settings {
    /// The settings that a run starts from.
    pub open spec fn start(count: nat) -> Settings {
        Settings {
            run: Seq::empty(),
            init: Seq::empty(),
            count,
            test: false,
            name: None,
            passwd: None,
            group: None,
            groups: None,
            home_dir: None,
            userdel: true,
            userhomedel: false,
            noconfcmd: false,
            immutable_home_at: None,
        }
    }

    /// The name of the throw-away user: `d26r`, the count, `_` and the name
    /// that was set, if one was.
    pub open spec fn username(self) -> Seq<char> {
        "d26r"@ + decimal_digits(self.count) + seq!['_'] + match self.name {
            Some(n) => n,
            None => Seq::empty(),
        }
    }
}

/// The settings of a run.
#[derive(Debug)]
pub struct Conf {
    /// The command to run, and its arguments.
    pub run: Vec<String>,
    /// The commands that prepare the run, each with whether its failure
    /// ends everything.
    pub init: Vec<(bool, Vec<String>)>,
    pub count: u64,
    pub test: bool,
    pub name: Option<String>,
    pub passwd: Option<String>,
    pub group: Option<String>,
    pub groups: Option<String>,
    pub home_dir: Option<String>,
    pub userdel: bool,
    pub userhomedel: bool,
    pub noconfcmd: bool,
    pub immutable_home_at: Option<String>,
}

/// The init commands as texts.
pub open spec fn init_view(v: Seq<(bool, Vec<String>)>) -> Seq<(bool, Seq<Seq<char>>)> {
    Seq::new(v.len(), |i: int| (v[i].0, texts_view(v[i].1@)))
}

impl View for Conf {
    type V = Settings;

    open spec fn view(&self) -> Settings {
        Settings {
            run: texts_view(self.run@),
            init: init_view(self.init@),
            count: self.count as nat,
            test: self.test,
            name: opt_view(self.name),
            passwd: opt_view(self.passwd),
            group: opt_view(self.group),
            groups: opt_view(self.groups),
            home_dir: opt_view(self.home_dir),
            userdel: self.userdel,
            userhomedel: self.userhomedel,
            noconfcmd: self.noconfcmd,
            immutable_home_at: opt_view(self.immutable_home_at),
        }
    }
}

/// `hay` with every occurrence of `needle` replaced by `with`, found from
/// the left, each search beginning after the last occurrence.
pub open spec fn replaced(hay: Seq<char>, needle: Seq<char>, with: Seq<char>) -> Seq<char>
    decreases hay.len(),
{
    match find_text(hay, needle, 0) {
        Some(i) => if needle.len() > 0 && 0 <= i && i + needle.len() <= hay.len() {
            hay.take(i) + with + replaced(hay.skip(i + needle.len()), needle, with)
        } else {
            hay
        },
        None => hay,
    }
}

/// Replaces every occurrence of `needle` in `hay` by `with`. An empty
/// needle is found nowhere.
pub fn replace_all(hay: &Vec<char>, needle: &Vec<char>, with: &Vec<char>) -> (out: Vec<char>)
    ensures
        out@ == replaced(hay@, needle@, with@),
    decreases hay.len(),
{
    if needle.len() == 0 {
        assert(hay@ =~= hay@.subrange(0, hay@.len() as int));
        return slice_of(hay, 0, hay.len());
    }
    match find_chars(hay, needle) {
        Some(i) => {
            let mut out = slice_of(hay, 0, i);
            extend_chars(&mut out, with);
            let rest = slice_of(hay, i + needle.len(), hay.len());
            assert(rest@ =~= hay@.skip(i + needle@.len()));
            assert(hay@.subrange(0, i as int) =~= hay@.take(i as int));
            let tail = replace_all(&rest, needle, with);
            extend_chars(&mut out, &tail);
            out
        },
        None => {
            assert(hay@ =~= hay@.subrange(0, hay@.len() as int));
            slice_of(hay, 0, hay.len())
        },
    }
}

/// Whether `needle` occurs in `hay`.
pub open spec fn holds(hay: Seq<char>, needle: Seq<char>) -> bool {
    find_text(hay, needle, 0) is Some
}

/// `text` with the placeholder replaced by what the setting expands to, if
/// the placeholder occurs and the setting is set.
pub open spec fn with_setting(
    text: Seq<char>,
    placeholder: Seq<char>,
    setting: Option<Seq<char>>,
    c: Settings,
    depth: nat,
) -> Seq<char>
    decreases depth, 0int,
{
    match setting {
        Some(v) => if holds(text, placeholder) && depth > 0 {
            replaced(text, placeholder, applied(c, v, (depth - 1) as nat))
        } else {
            text
        },
        None => text,
    }
}

/// `text` with the placeholders of the settings replaced: the count and the
/// user name first, then group, groups, home directory and the place of the
/// immutable home, each by its own text with the placeholders replaced in
/// turn. `depth` bounds how deep settings may stand for settings; at depth
/// zero only the count and the user name are replaced.
pub open spec fn applied(c: Settings, text: Seq<char>, depth: nat) -> Seq<char>
    decreases depth, 1int,
{
    let a = replaced(text, "[d26%count]"@, decimal_digits(c.count));
    let b = replaced(a, "[d26%username]"@, c.username());
    let d = with_setting(b, "[d26%group]"@, c.group, c, depth);
    let e = with_setting(d, "[d26%groups]"@, c.groups, c, depth);
    let f = with_setting(e, "[d26%home_dir]"@, c.home_dir, c, depth);
    with_setting(f, "[d26%immutable_home_at]"@, c.immutable_home_at, c, depth)
}

/// How deep settings may stand for settings. Four settings can stand for
/// one another; a chain that is longer than four holds one of them twice and
/// would never end.
pub const DEPTH: usize = 4;

impl Conf {
    /// The settings that a run starts from. The count is the number of the
    /// calling thread.
    pub fn new() -> (c: Conf)
        ensures
            c@ == Settings::start(c.count as nat),
    {
        let c = Conf {
            run: Vec::new(),
            init: Vec::new(),
            count: thread_number(),
            test: false,
            name: None,
            passwd: None,
            group: None,
            groups: None,
            home_dir: None,
            userdel: true,
            userhomedel: false,
            noconfcmd: false,
            immutable_home_at: None,
        };
        assert(texts_view(c.run@) =~= Seq::empty());
        assert(init_view(c.init@) =~= Seq::empty());
        c
    }

    /// The name of the throw-away user.
    pub fn get_username(&self) -> (out: String)
        ensures
            out@ == self@.username(),
    {
        let mut buf: Vec<char> = Vec::new();
        extend_str(&mut buf, "d26r");
        extend_chars(&mut buf, &decimal(self.count as u128));
        buf.push('_');
        match &self.name {
            Some(n) => {
                extend_str(&mut buf, n.as_str());
            },
            None => {},
        }
        assert(buf@ =~= self@.username());
        string_of(&buf)
    }

    fn apply_setting(
        &self,
        text: Vec<char>,
        placeholder: &str,
        setting: &Option<String>,
        depth: usize,
    ) -> (out: Vec<char>)
        ensures
            out@ == with_setting(text@, placeholder@, opt_view(*setting), self@, depth as nat),
        decreases depth, 0int,
    {
        match setting {
            Some(v) => {
                let p = to_chars(placeholder);
                if depth > 0 && find_chars(&text, &p).is_some() {
                    let value = self.apply_chars(&to_chars(v.as_str()), depth - 1);
                    replace_all(&text, &p, &value)
                } else {
                    text
                }
            },
            None => text,
        }
    }

    fn apply_chars(&self, text: &Vec<char>, depth: usize) -> (out: Vec<char>)
        ensures
            out@ == applied(self@, text@, depth as nat),
        decreases depth, 1int,
    {
        let a = replace_all(text, &to_chars("[d26%count]"), &decimal(self.count as u128));
        let b = replace_all(&a, &to_chars("[d26%username]"), &to_chars(self.get_username().as_str()));
        let d = self.apply_setting(b, "[d26%group]", &self.group, depth);
        let e = self.apply_setting(d, "[d26%groups]", &self.groups, depth);
        let f = self.apply_setting(e, "[d26%home_dir]", &self.home_dir, depth);
        self.apply_setting(f, "[d26%immutable_home_at]", &self.immutable_home_at, depth)
    }

    /// `string` with the placeholders of the settings replaced.
    pub fn apply_to_string(&self, string: &str) -> (out: String)
        ensures
            out@ == applied(self@, string@, DEPTH as nat),
    {
        string_of(&self.apply_chars(&to_chars(string), DEPTH))
    }

    fn apply_to_texts(&self, texts: &Vec<String>) -> (out: Vec<String>)
        ensures
            texts_view(out@) == applied_each(self@, texts_view(texts@)),
    {
        let mut out: Vec<String> = Vec::new();
        let mut i: usize = 0;
        while i < texts.len()
            invariant
                i <= texts.len(),
                out.len() == i,
                forall|j: int|
                    0 <= j < i ==> (#[trigger] out@[j])@ == applied(
                        self@,
                        texts@[j]@,
                        DEPTH as nat,
                    ),
            decreases texts.len() - i,
        {
            out.push(self.apply_to_string(texts[i].as_str()));
            i += 1;
        }
        assert(texts_view(out@) =~= applied_each(self@, texts_view(texts@)));
        out
    }

    /// Replaces the placeholders in every text of the settings: in the
    /// command and the init commands first, then in the name, the group, the
    /// groups, the home directory and the place of the immutable home, one
    /// after the other. While the placeholders of one of these five are
    /// replaced, that setting itself counts as not set, and those before it
    /// stand as they have become.
    pub fn apply_to_all_strings(&mut self)
        ensures
            final(self)@ == applied_all(old(self)@),
    {
        let run = self.apply_to_texts(&self.run);
        let mut init: Vec<(bool, Vec<String>)> = Vec::new();
        let mut i: usize = 0;
        while i < self.init.len()
            invariant
                i <= self.init.len(),
                init.len() == i,
                *self == *old(self),
                forall|j: int|
                    0 <= j < i ==> {
                        &&& (#[trigger] init@[j]).0 == self.init@[j].0
                        &&& texts_view(init@[j].1@) == applied_each(
                            self@,
                            texts_view(self.init@[j].1@),
                        )
                    },
            decreases self.init.len() - i,
        {
            let texts = self.apply_to_texts(&self.init[i].1);
            init.push((self.init[i].0, texts));
            i += 1;
        }
        assert(init_view(init@) =~= applied_init(self@, init_view(self.init@)));
        self.run = run;
        self.init = init;
        let ghost c1 = self@;
        match self.name.take() {
            Some(v) => {
                let n = self.apply_to_string(v.as_str());
                self.name = Some(n);
            },
            None => {},
        }
        let ghost c2 = self@;
        assert(c2 == with_name(c1));
        match self.group.take() {
            Some(v) => {
                let n = self.apply_to_string(v.as_str());
                self.group = Some(n);
            },
            None => {},
        }
        let ghost c3 = self@;
        assert(c3 == with_group(c2));
        match self.groups.take() {
            Some(v) => {
                let n = self.apply_to_string(v.as_str());
                self.groups = Some(n);
            },
            None => {},
        }
        let ghost c4 = self@;
        assert(c4 == with_groups(c3));
        match self.home_dir.take() {
            Some(v) => {
                let n = self.apply_to_string(v.as_str());
                self.home_dir = Some(n);
            },
            None => {},
        }
        let ghost c5 = self@;
        assert(c5 == with_home(c4));
        match self.immutable_home_at.take() {
            Some(v) => {
                let n = self.apply_to_string(v.as_str());
                self.immutable_home_at = Some(n);
            },
            None => {},
        }
        assert(self@ == with_immutable_home(c5));
    }
}

/// Each text with the placeholders of the settings replaced.
pub open spec fn applied_each(c: Settings, texts: Seq<Seq<char>>) -> Seq<Seq<char>> {
    Seq::new(texts.len(), |i: int| applied(c, texts[i], DEPTH as nat))
}

/// Each init command with the placeholders of the settings replaced.
pub open spec fn applied_init(c: Settings, init: Seq<(bool, Seq<Seq<char>>)>) -> Seq<
    (bool, Seq<Seq<char>>),
> {
    Seq::new(init.len(), |i: int| (init[i].0, applied_each(c, init[i].1)))
}

/// The settings with the placeholders of the name replaced.
pub open spec fn with_name(c: Settings) -> Settings {
    match c.name {
        Some(v) => Settings {
            name: Some(applied(Settings { name: None, ..c }, v, DEPTH as nat)),
            ..c
        },
        None => c,
    }
}

/// The settings with the placeholders of the group replaced.
pub open spec fn with_group(c: Settings) -> Settings {
    match c.group {
        Some(v) => Settings {
            group: Some(applied(Settings { group: None, ..c }, v, DEPTH as nat)),
            ..c
        },
        None => c,
    }
}

/// The settings with the placeholders of the groups replaced.
pub open spec fn with_groups(c: Settings) -> Settings {
    match c.groups {
        Some(v) => Settings {
            groups: Some(applied(Settings { groups: None, ..c }, v, DEPTH as nat)),
            ..c
        },
        None => c,
    }
}

/// The settings with the placeholders of the home directory replaced.
pub open spec fn with_home(c: Settings) -> Settings {
    match c.home_dir {
        Some(v) => Settings {
            home_dir: Some(applied(Settings { home_dir: None, ..c }, v, DEPTH as nat)),
            ..c
        },
        None => c,
    }
}

/// The settings with the placeholders of the place of the immutable home
/// replaced.
pub open spec fn with_immutable_home(c: Settings) -> Settings {
    match c.immutable_home_at {
        Some(v) => Settings {
            immutable_home_at: Some(
                applied(Settings { immutable_home_at: None, ..c }, v, DEPTH as nat),
            ),
            ..c
        },
        None => c,
    }
}

/// The settings with the placeholders replaced in every text.
pub open spec fn applied_all(c: Settings) -> Settings {
    with_immutable_home(
        with_home(
            with_groups(
                with_group(
                    with_name(
                        Settings { run: applied_each(c, c.run), init: applied_init(c, c.init), ..c },
                    ),
                ),
            ),
        ),
    )
}

} // verus!
