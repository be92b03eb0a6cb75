//! Run templates and invocations as they are held in memory.

use vstd::prelude::*;
use crate::model::{EnvSource, Identity, Invocation, Template, VarSource};
use crate::roundtrip::printable;

verus! {

/// Where the value of a variable comes from.
#[derive(Debug)]
pub enum VarValue {
    Val(String),
    OutputOf(String, Vec<String>),
    Input(String),
    InputOrDefault(String, Box<VarValue>),
    ConId,
}

/// The texts of a list of strings.
pub open spec fn texts_view(v: Seq<String>) -> Seq<Seq<char>> {
    Seq::new(v.len(), |i: int| v[i]@)
}

/// The text of an optional string.
pub open spec fn opt_view(o: Option<String>) -> Option<Seq<char>> {
    match o {
        Some(s) => Some(s@),
        None => None,
    }
}

/// A user or group as the model sees it.
pub open spec fn identity_view(r: Result<u32, String>) -> Identity {
    match r {
        Ok(id) => Ok(id),
        Err(name) => Err(name@),
    }
}

/// An optional user or group as the model sees it.
pub open spec fn opt_identity_view(o: Option<Result<u32, String>>) -> Option<Identity> {
    match o {
        Some(r) => Some(identity_view(r)),
        None => None,
    }
}

/// A list of users or groups as the model sees it.
pub open spec fn identities_view(v: Seq<Result<u32, String>>) -> Seq<Identity> {
    Seq::new(v.len(), |i: int| identity_view(v[i]))
}

/// The value of an environment entry as the model sees it.
pub open spec fn env_source_view(e: Result<String, Option<String>>) -> EnvSource {
    match e {
        Ok(v) => Ok(v@),
        Err(None) => Err(None),
        Err(Some(d)) => Err(Some(d@)),
    }
}

/// An environment as the model sees it.
pub open spec fn env_view(v: Seq<(String, Result<String, Option<String>>)>) -> Seq<
    (Seq<char>, EnvSource),
> {
    Seq::new(v.len(), |i: int| (v[i].0@, env_source_view(v[i].1)))
}

impl VarValue {
    /// The source that this value stands for.
    pub open spec fn model(&self) -> VarSource
        decreases self,
    {
        match self {
            VarValue::Val(v) => VarSource::Literal(v@),
            VarValue::OutputOf(program, args) => VarSource::CommandOutput(
                program@,
                texts_view(args@),
            ),
            VarValue::Input(name) => VarSource::Input(name@),
            VarValue::InputOrDefault(name, default) => VarSource::InputOrDefault(
                name@,
                Box::new(default.model()),
            ),
            VarValue::ConId => VarSource::ConnectionId,
        }
    }
}

impl View for VarValue {
    type V = VarSource;

    open spec fn view(&self) -> VarSource {
        self.model()
    }
}

/// The variables of a template as the model sees them.
pub open spec fn vars_view(v: Seq<(String, VarValue)>) -> Seq<(Seq<char>, VarSource)> {
    Seq::new(v.len(), |i: int| (v[i].0@, v[i].1.model()))
}

/// A run template under construction. In a well-formed one (`wf`), as the
/// loader gives it, `vars` binds each name once: a later binding of a name
/// replaces the earlier one in place.
#[derive(Debug)]
pub struct RunCmdBuilder {
    pub vars: Vec<(String, VarValue)>,
    pub allow: Option<String>,
    pub command_prep: Vec<RunCmdBuilder>,
    pub command_clean: Vec<RunCmdBuilder>,
    pub command: Option<String>,
    pub args: Vec<String>,
    pub user: Option<Result<u32, String>>,
    pub group: Option<Result<u32, String>>,
    pub groups: Vec<Result<u32, String>>,
    pub env: Vec<(String, Result<String, Option<String>>)>,
    pub working_dir: Option<String>,
}

impl RunCmdBuilder {
    /// The template that this builder holds.
    pub open spec fn model(&self) -> Template
        decreases self,
    {
        Template {
            vars: vars_view(self.vars@),
            allow: opt_view(self.allow),
            prep: Seq::new(
                self.command_prep.len() as nat,
                |i: int|
                    if 0 <= i < self.command_prep.len() {
                        self.command_prep[i].model()
                    } else {
                        Template::empty()
                    },
            ),
            clean: Seq::new(
                self.command_clean.len() as nat,
                |i: int|
                    if 0 <= i < self.command_clean.len() {
                        self.command_clean[i].model()
                    } else {
                        Template::empty()
                    },
            ),
            command: opt_view(self.command),
            args: texts_view(self.args@),
            user: opt_identity_view(self.user),
            group: opt_identity_view(self.group),
            groups: identities_view(self.groups@),
            env: env_view(self.env@),
            working_dir: opt_view(self.working_dir),
        }
    }

    /// What holds of every template that the loader gives, and of the blocks
    /// in it: no variable is bound twice, every name of a variable can name
    /// one, no text that a statement needs is empty, and the template can be
    /// written out and read back.
    pub open spec fn wf(&self) -> bool {
        printable(self@)
    }

    /// A builder with nothing set.
    pub fn new() -> (b: RunCmdBuilder)
        ensures
            b@ == Template::empty(),
            b.wf(),
    {
        let b = RunCmdBuilder {
            vars: Vec::new(),
            allow: None,
            command_prep: Vec::new(),
            command_clean: Vec::new(),
            command: None,
            args: Vec::new(),
            user: None,
            group: None,
            groups: Vec::new(),
            env: Vec::new(),
            working_dir: None,
        };
        proof {
            let m = b.model();
            let e = Template::empty();
            assert(m.vars =~= e.vars);
            assert(m.prep =~= e.prep);
            assert(m.clean =~= e.clean);
            assert(m.args =~= e.args);
            assert(m.groups =~= e.groups);
            assert(m.env =~= e.env);
        }
        b
    }
}

impl View for RunCmdBuilder {
    type V = Template;

    open spec fn view(&self) -> Template {
        self.model()
    }
}

impl Default for RunCmdBuilder {
    fn default() -> (b: RunCmdBuilder)
        ensures
            b@ == Template::empty(),
            b.wf(),
    {
        RunCmdBuilder::new()
    }
}

/// A concrete invocation, ready to be spawned.
#[derive(Debug)]
pub struct RunCmd {
    pub command: String,
    pub args: Vec<String>,
    pub user: u32,
    pub group: u32,
    pub groups: Vec<u32>,
    pub env: Vec<(String, Result<String, Option<String>>)>,
    pub working_dir: Option<String>,
    pub command_clean: Vec<RunCmd>,
}

impl RunCmd {
    /// The invocation that this value holds.
    pub open spec fn model(&self) -> Invocation
        decreases self,
    {
        Invocation {
            command: self.command@,
            args: texts_view(self.args@),
            user: self.user,
            group: self.group,
            groups: self.groups@,
            env: env_view(self.env@),
            working_dir: opt_view(self.working_dir),
            clean: Seq::new(
                self.command_clean.len() as nat,
                |i: int|
                    if 0 <= i < self.command_clean.len() {
                        self.command_clean[i].model()
                    } else {
                        Invocation::idle()
                    },
            ),
        }
    }
}

impl View for RunCmd {
    type V = Invocation;

    open spec fn view(&self) -> Invocation {
        self.model()
    }
}

/// The invocations of a list as the model sees them.
pub open spec fn invocations_view(v: Seq<RunCmd>) -> Seq<Invocation> {
    Seq::new(v.len(), |i: int| v[i]@)
}

/// The templates of a list as the model sees them.
pub open spec fn templates_view(v: Seq<RunCmdBuilder>) -> Seq<Template> {
    Seq::new(v.len(), |i: int| v[i]@)
}

/// What a template is resolved against besides the client's input.
pub struct ToRunCmdInfo {
    pub con_id: u128,
}

} // verus!
