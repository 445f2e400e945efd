use vstd::prelude::*;

use crate::config::{asset, asset_at};
use crate::filesystem::{expand_path, expands_to};
use crate::task::{Task, TaskType, height, lemma_prefix_ops, ops, ops_of, task_ops};

verus! {

/// A leaf operation with every path resolved, ready to be carried out.
pub enum Action {
    Copy { src: String, dst: String, mode: Option<u32> },
    Symlink { src: String, dst: String },
    /// Render the named template, then write the text to `dst`.
    Render { template: String, dst: String, mode: Option<u32> },
    Write { dst: String, text: String, mode: Option<u32> },
    /// The operation failed before touching anything (its template did not render).
    Fail,
    Shell(String),
}

/// `a` is what the leaf operation `op` comes to, with assets under `root`.
pub open spec fn prepared(op: TaskType, a: Action, root: Seq<char>) -> bool {
    match op {
        TaskType::Copy(c) => match a {
            Action::Copy { src, dst, mode } => asset_at(root, "files"@, c.src@, src@)
                && expands_to(c.dst@, dst@) && mode == c.mode,
            _ => false,
        },
        TaskType::Symlink(c) => match a {
            Action::Symlink { src, dst } => asset_at(root, "files"@, c.src@, src@)
                && expands_to(c.dst@, dst@),
            _ => false,
        },
        TaskType::Template(c) => match a {
            Action::Render { template, dst, mode } => template@ == c.src@ && expands_to(c.dst@, dst@)
                && mode == c.mode,
            _ => false,
        },
        TaskType::Shell(c) => match a {
            Action::Shell(cmd) => cmd@ == c.0@,
            _ => false,
        },
        _ => false,
    }
}

impl Action {
    /// The action once its template was rendered (or failed to render): a render becomes a
    /// write of exactly the rendered text, or, when rendering failed, a failure that writes
    /// nothing. Any other action is left as it is.
    pub fn rendered(self, text: Option<String>) -> (r: Action)
        ensures
            match self {
                Action::Render { template: _, dst, mode } => match text {
                    Some(t) => r == (Action::Write { dst, text: t, mode }),
                    None => r is Fail,
                },
                _ => r == self,
            },
    {
        match self {
            Action::Render { template: _, dst, mode } => match text {
                Some(t) => Action::Write { dst, text: t, mode },
                None => Action::Fail,
            },
            other => other,
        }
    }
}

impl TaskType {
    /// Resolves a leaf operation.
    pub fn prepare(&self, root: &str) -> (r: Action)
        requires
            self is Copy || self is Symlink || self is Template || self is Shell,
        ensures
            prepared(*self, r, root@),
    {
        match self {
            TaskType::Copy(c) => {
                let src = asset(root, "files", c.src.as_str());
                let dst = expand_path(c.dst.as_str());
                Action::Copy { src, dst, mode: c.mode }
            },
            TaskType::Symlink(c) => {
                let src = asset(root, "files", c.src.as_str());
                let dst = expand_path(c.dst.as_str());
                Action::Symlink { src, dst }
            },
            TaskType::Template(c) => {
                let dst = expand_path(c.dst.as_str());
                Action::Render { template: c.src.clone(), dst, mode: c.mode }
            },
            TaskType::Shell(c) => Action::Shell(c.0.clone()),
            TaskType::Unknown | TaskType::Group(_) => Action::Fail,
        }
    }

    /// Appends to `out` the resolved operations of a node that is allowed to run, in
    /// execution order.
    pub fn plan(&self, root: &str, out: &mut Vec<Action>)
        ensures
            final(out)@.len() == old(out)@.len() + ops(*self).len(),
            final(out)@.subrange(0, old(out)@.len() as int) == old(out)@,
            forall|j: int|
                0 <= j < ops(*self).len() ==> prepared(
                    #[trigger] ops(*self)[j],
                    final(out)@[old(out)@.len() + j],
                    root@,
                ),
        decreases height(*self), 0nat,
    {
        let ghost base = out@;
        match self {
            TaskType::Group(tasks) => {
                let mut i: usize = 0;
                assert(tasks@.take(0) =~= Seq::<Task>::empty());
                while i < tasks.len()
                    invariant
                        0 <= i <= tasks.len(),
                        ops(*self) == ops_of(tasks@),
                        height(*self) == 1 + crate::task::heights_of(tasks@),
                        out@.len() == base.len() + ops_of(tasks@.take(i as int)).len(),
                        out@.subrange(0, base.len() as int) == base,
                        forall|j: int|
                            0 <= j < ops_of(tasks@.take(i as int)).len() ==> prepared(
                                #[trigger] ops_of(tasks@.take(i as int))[j],
                                out@[base.len() + j],
                                root@,
                            ),
                    decreases tasks.len() - i,
                {
                    proof {
                        lemma_prefix_ops(tasks@, i as int);
                        crate::task::lemma_heights(tasks@, i as int);
                    }
                    let ghost mid = out@;
                    let ghost prev = ops_of(tasks@.take(i as int));
                    tasks[i].plan(root, out);
                    proof {
                        let now = ops_of(tasks@.take(i + 1));
                        assert(now == prev + task_ops(tasks@[i as int]));
                        assert(out@.subrange(0, base.len() as int) =~= base) by {
                            assert(out@.subrange(0, base.len() as int) =~= mid.subrange(0, base.len() as int));
                        }
                        assert forall|j: int| 0 <= j < now.len() implies prepared(
                            #[trigger] now[j],
                            out@[base.len() + j],
                            root@,
                        ) by {
                            if j < prev.len() {
                                assert(out@[base.len() + j] == mid[base.len() + j]);
                            } else {
                                assert(now[j] == task_ops(tasks@[i as int])[j - prev.len()]);
                            }
                        }
                    }
                    i = i + 1;
                }
                assert(tasks@.take(i as int) =~= tasks@);
            },
            TaskType::Unknown => {
                assert(out@.subrange(0, base.len() as int) =~= base);
            },
            _ => {
                let a = self.prepare(root);
                out.push(a);
                assert(out@.subrange(0, base.len() as int) =~= base);
            },
        }
    }
}

impl Task {
    /// Appends to `out` the resolved operations of the node, in execution order.
    pub fn plan(&self, root: &str, out: &mut Vec<Action>)
        ensures
            final(out)@.len() == old(out)@.len() + task_ops(*self).len(),
            final(out)@.subrange(0, old(out)@.len() as int) == old(out)@,
            forall|j: int|
                0 <= j < task_ops(*self).len() ==> prepared(
                    #[trigger] task_ops(*self)[j],
                    final(out)@[old(out)@.len() + j],
                    root@,
                ),
        decreases height(self.variant), 1nat,
    {
        if !self.as_superuser {
            self.variant.plan(root, out);
        } else {
            assert(out@.subrange(0, out@.len() as int) =~= out@);
        }
    }
}

} // verus!
