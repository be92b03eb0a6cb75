//! The configuration model: run templates as the loader builds them, the
//! concrete invocations that a template resolves to, and the mathematical
//! view of each, over which every contract of the crate is stated.

use vstd::prelude::*;
use crate::text::{same_chars, to_chars};

verus! {

/// Where the value of a variable comes from.
pub enum VarSource {
    /// A fixed text.
    Literal(Seq<char>),
    /// The captured standard output of a program run with arguments.
    CommandOutput(Seq<char>, Seq<Seq<char>>),
    /// A variable supplied by the client. Missing input is an error.
    Input(Seq<char>),
    /// A variable supplied by the client, or else another source.
    InputOrDefault(Seq<char>, Box<VarSource>),
    /// The serial id of the current connection.
    ConnectionId,
}

/// A user or group: a numeric id, or a name that has yet to be looked up.
pub type Identity = Result<u32, Seq<char>>;

/// The value of an environment entry: a value to set, or inheritance from
/// the broker's own environment with an optional default.
pub type EnvSource = Result<Seq<char>, Option<Seq<char>>>;

/// A run template.
pub struct Template {
    pub vars: Seq<(Seq<char>, VarSource)>,
    pub allow: Option<Seq<char>>,
    pub prep: Seq<Template>,
    pub clean: Seq<Template>,
    pub command: Option<Seq<char>>,
    pub args: Seq<Seq<char>>,
    pub user: Option<Identity>,
    pub group: Option<Identity>,
    pub groups: Seq<Identity>,
    pub env: Seq<(Seq<char>, EnvSource)>,
    pub working_dir: Option<Seq<char>>,
}

/// A concrete invocation: every text expanded, every identity numeric.
pub struct Invocation {
    pub command: Seq<char>,
    pub args: Seq<Seq<char>>,
    pub user: u32,
    pub group: u32,
    pub groups: Seq<u32>,
    pub env: Seq<(Seq<char>, EnvSource)>,
    pub working_dir: Option<Seq<char>>,
    pub clean: Seq<Invocation>,
}

impl Invocation {
    /// The invocation with every field empty and every id zero.
    pub open spec fn idle() -> Invocation {
        Invocation {
            command: Seq::empty(),
            args: Seq::empty(),
            user: 0,
            group: 0,
            groups: Seq::empty(),
            env: Seq::empty(),
            working_dir: None,
            clean: Seq::empty(),
        }
    }
}

impl Template {
    /// The template that a loader starts from: nothing set.
    pub open spec fn empty() -> Template {
        Template {
            vars: Seq::empty(),
            allow: None,
            prep: Seq::empty(),
            clean: Seq::empty(),
            command: None,
            args: Seq::empty(),
            user: None,
            group: None,
            groups: Seq::empty(),
            env: Seq::empty(),
            working_dir: None,
        }
    }
}

/// The first position at or after `from` whose key is `name`.
pub open spec fn key_index(keys: Seq<Seq<char>>, name: Seq<char>, from: int) -> Option<int>
    decreases keys.len() - from,
{
    if from < 0 || from >= keys.len() {
        None
    } else if keys[from] == name {
        Some(from)
    } else {
        key_index(keys, name, from + 1)
    }
}

/// `key_index` gives the least position at or after `from` that holds `name`.
pub proof fn lemma_key_index(keys: Seq<Seq<char>>, name: Seq<char>, from: int)
    requires
        0 <= from,
    ensures
        match key_index(keys, name, from) {
            Some(i) => from <= i < keys.len() && keys[i] == name && forall|j: int|
                from <= j < i ==> keys[j] != name,
            None => forall|j: int| from <= j < keys.len() ==> keys[j] != name,
        },
    decreases keys.len() - from,
{
    if from < keys.len() && keys[from] != name {
        lemma_key_index(keys, name, from + 1);
    }
}

/// The keys of a list of named entries.
pub open spec fn keys_of<V>(entries: Seq<(Seq<char>, V)>) -> Seq<Seq<char>> {
    Seq::new(entries.len(), |i: int| entries[i].0)
}

/// The value of the first entry named `name`.
pub open spec fn lookup<V>(entries: Seq<(Seq<char>, V)>, name: Seq<char>) -> Option<V> {
    match key_index(keys_of(entries), name, 0) {
        Some(i) => Some(entries[i].1),
        None => None,
    }
}

/// The entries with `name` bound to `value`: in place where the name is
/// already bound, at the end where it is new.
pub open spec fn upsert<V>(entries: Seq<(Seq<char>, V)>, name: Seq<char>, value: V) -> Seq<
    (Seq<char>, V),
> {
    match key_index(keys_of(entries), name, 0) {
        Some(i) => entries.update(i, (name, value)),
        None => entries.push((name, value)),
    }
}

/// No key occurs twice.
pub open spec fn distinct_keys(keys: Seq<Seq<char>>) -> bool {
    forall|i: int, j: int| 0 <= i < j < keys.len() ==> keys[i] != keys[j]
}

/// Binding a name keeps the keys distinct.
pub proof fn lemma_upsert_distinct<V>(entries: Seq<(Seq<char>, V)>, name: Seq<char>, value: V)
    requires
        distinct_keys(keys_of(entries)),
    ensures
        distinct_keys(keys_of(upsert(entries, name, value))),
        lookup(upsert(entries, name, value), name) == Some(value),
{
    let keys = keys_of(entries);
    let after = upsert(entries, name, value);
    lemma_key_index(keys, name, 0);
    lemma_key_index(keys_of(after), name, 0);
    match key_index(keys, name, 0) {
        Some(i) => {
            assert(keys_of(after) =~= keys);
        },
        None => {
            assert(keys_of(after) =~= keys.push(name));
            assert(keys_of(after)[keys.len() as int] == name);
        },
    }
}

/// The keys of a list of named entries as they are held in memory.
pub open spec fn names_of<V>(entries: Seq<(String, V)>) -> Seq<Seq<char>> {
    Seq::new(entries.len(), |i: int| entries[i].0@)
}

/// The position of the first entry named `name`.
pub fn find_name<V>(entries: &Vec<(String, V)>, name: &Vec<char>) -> (r: Option<usize>)
    ensures
        match r {
            Some(i) => i < entries.len() && key_index(names_of(entries@), name@, 0) == Some(
                i as int,
            ),
            None => key_index(names_of(entries@), name@, 0) is None,
        },
{
    let ghost keys = names_of(entries@);
    let mut i: usize = 0;
    while i < entries.len()
        invariant
            i <= entries.len(),
            keys == names_of(entries@),
            key_index(keys, name@, 0) == key_index(keys, name@, i as int),
        decreases entries.len() - i,
    {
        let key = to_chars(entries[i].0.as_str());
        assert(keys[i as int] == key@);
        if same_chars(&key, name) {
            return Some(i);
        }
        i += 1;
    }
    None
}

} // verus!
