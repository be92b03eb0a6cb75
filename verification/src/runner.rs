//! The life of one invocation: what the child is given, and what is left to
//! do once it has exited.

use vstd::prelude::*;
use crate::template::RunCmd;

verus! {

/// The value that a child gets for one environment entry: the value that
/// was set; or, for an inherited entry, the broker's own value if it has one,
/// else the default if there is one, else nothing.
pub open spec fn chosen<T>(source: Result<T, Option<T>>, inherited: Option<T>) -> Option<T> {
    match source {
        Ok(v) => Some(v),
        Err(default) => match inherited {
            Some(v) => Some(v),
            None => default,
        },
    }
}

/// What the broker's own environment holds for entry `i`.
pub open spec fn inherited_at<T>(inherited: Seq<Option<T>>, i: int) -> Option<T> {
    if 0 <= i < inherited.len() {
        inherited[i]
    } else {
        None
    }
}

/// The environment of a child: every entry that has a value, in order.
pub open spec fn child_env_of<T>(
    env: Seq<(String, Result<T, Option<T>>)>,
    inherited: Seq<Option<T>>,
) -> Seq<(String, T)>
    decreases env.len(),
{
    if env.len() == 0 {
        Seq::empty()
    } else {
        let before = child_env_of(env.drop_last(), inherited);
        match chosen(env.last().1, inherited_at(inherited, env.len() - 1)) {
            Some(v) => before.push((env.last().0, v)),
            None => before,
        }
    }
}

/// The environment of a child. `inherited` holds, for each entry of `env`
/// at the same place, the value that the broker's own environment has under
/// the entry's name, if it has one.
pub fn child_env<T>(env: Vec<(String, Result<T, Option<T>>)>, inherited: Vec<Option<T>>) -> (out:
    Vec<(String, T)>)
    ensures
        out@ == child_env_of(env@, inherited@),
{
    let ghost env0 = env@;
    let ghost inh0 = inherited@;
    let mut env = env;
    let mut inherited = inherited;
    let mut back: Vec<(String, T)> = Vec::new();
    assert(env0.take(env0.len() as int) =~= env0);
    assert(child_env_of(env0, inh0) + back@.reverse() =~= child_env_of(env0, inh0));
    while env.len() > 0
        invariant
            env@ == env0.take(env@.len() as int),
            env@.len() <= env0.len(),
            inherited@.len() <= inh0.len(),
            inherited@ == inh0.take(inherited@.len() as int),
            inherited@.len() >= env@.len() || inherited@.len() == inh0.len(),
            child_env_of(env0, inh0) == child_env_of(env@, inh0) + back@.reverse(),
        decreases env.len() + inherited.len(),
    {
        if inherited.len() > env.len() {
            inherited.pop();
            assert(inherited@ =~= inh0.take(inherited@.len() as int));
        } else {
            let ghost before = env@;
            let ghost rev = back@.reverse();
            let i = env.len() - 1;
            let own = if inherited.len() == env.len() {
                let v = inherited.pop().unwrap();
                assert(inherited@ =~= inh0.take(inherited@.len() as int));
                v
            } else {
                None
            };
            assert(own == inherited_at(inh0, i as int));
            let (name, source) = env.pop().unwrap();
            assert(env@ =~= env0.take(env@.len() as int));
            assert(before.drop_last() =~= env@);
            assert(before.last() == (name, source));
            let value = match source {
                Ok(v) => Some(v),
                Err(default) => match own {
                    Some(v) => Some(v),
                    None => default,
                },
            };
            match value {
                Some(v) => {
                    back.push((name, v));
                    assert(back@.reverse() =~= seq![(name, v)] + rev);
                    assert(child_env_of(env@, inh0).push((name, v)) + rev =~= child_env_of(
                        env@,
                        inh0,
                    ) + (seq![(name, v)] + rev));
                },
                None => {},
            }
        }
    }
    let mut out: Vec<(String, T)> = Vec::new();
    let ghost goal = back@.reverse();
    assert(child_env_of(env@, inh0) + goal =~= goal);
    assert(out@ + back@.reverse() =~= goal);
    while back.len() > 0
        invariant
            out@ + back@.reverse() == goal,
        decreases back.len(),
    {
        let ghost before = back@;
        let ghost done = out@;
        let e = back.pop().unwrap();
        out.push(e);
        assert(before.reverse() =~= seq![e] + back@.reverse());
        assert(done.push(e) + back@.reverse() =~= done + (seq![e] + back@.reverse()));
    }
    assert(out@ + back@.reverse() =~= out@);
    out
}

/// Whether two invocations differ in their clean invocations at most.
pub open spec fn same_but_clean(a: RunCmd, b: RunCmd) -> bool {
    &&& a.command == b.command
    &&& a.args == b.args
    &&& a.user == b.user
    &&& a.group == b.group
    &&& a.groups == b.groups
    &&& a.env == b.env
    &&& a.working_dir == b.working_dir
}

/// One invocation on its way: not yet started, running, or waited for.
#[derive(Debug)]
pub struct Runner {
    /// The invocation.
    pub cmd: RunCmd,
    /// Whether this runs a prep or clean invocation, which uses the
    /// standard streams of the broker, and not the invocation of a run,
    /// whose standard streams are pipes.
    pub is_inner: bool,
    /// Whether a child was spawned and has not been waited for.
    pub spawned: bool,
}

impl Runner {
    /// The runner of the invocation of a run.
    pub fn new(cmd: RunCmd) -> (r: Runner)
        ensures
            r.cmd == cmd,
            !r.is_inner,
            !r.spawned,
    {
        Runner { cmd, is_inner: false, spawned: false }
    }

    /// The runner of a prep or clean invocation.
    pub fn new_prep_or_clean(cmd: RunCmd) -> (r: Runner)
        ensures
            r.cmd == cmd,
            r.is_inner,
            !r.spawned,
    {
        Runner { cmd, is_inner: true, spawned: false }
    }

    /// Whether the child's standard streams are pipes.
    pub fn piped(&self) -> (r: bool)
        ensures
            r == !self.is_inner,
    {
        !self.is_inner
    }

    /// Records whether spawning the child succeeded.
    pub fn start(&mut self, spawned: bool)
        ensures
            final(self).spawned == spawned,
            final(self).cmd == old(self).cmd,
            final(self).is_inner == old(self).is_inner,
    {
        self.spawned = spawned;
    }

    /// Ends the life of the invocation once its child has exited, and hands
    /// out the clean invocations that are now to be run, in order. A runner
    /// whose child was spawned hands out every clean invocation, once: it
    /// keeps none, and a second call finds no child and hands out nothing,
    /// as does a call on a runner that never spawned. Nothing else of the
    /// invocation changes.
    pub fn wait(&mut self) -> (clean: Vec<RunCmd>)
        ensures
            old(self).spawned ==> {
                &&& clean@ == old(self).cmd.command_clean@
                &&& final(self).cmd.command_clean@ == Seq::<RunCmd>::empty()
            },
            !old(self).spawned ==> {
                &&& clean@ == Seq::<RunCmd>::empty()
                &&& final(self).cmd.command_clean@ == old(self).cmd.command_clean@
            },
            !final(self).spawned,
            final(self).is_inner == old(self).is_inner,
            same_but_clean(final(self).cmd, old(self).cmd),
    {
        let mut clean: Vec<RunCmd> = Vec::new();
        if self.spawned {
            self.spawned = false;
            clean.append(&mut self.cmd.command_clean);
            assert(clean@ =~= old(self).cmd.command_clean@);
        }
        clean
    }
}

} // verus!
