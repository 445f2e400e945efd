use vstd::prelude::*;

use crate::config::Params;

verus! {

/// Outcome of running one task node.
#[derive(Clone, Copy, Debug, PartialEq, Eq, Structural)]
pub enum Status {
    Success,
    Failure,
    Skipped,
}

pub open spec fn status_label(s: Status) -> Seq<char> {
    match s {
        Status::Success => "SUCCESS"@,
        Status::Failure => "FAILURE"@,
        Status::Skipped => "SKIPPED"@,
    }
}

impl Status {
    /// The upper-case word under which a status is reported.
    pub fn label(&self) -> (r: &'static str)
        ensures
            r@ == status_label(*self),
    {
        match self {
            Status::Success => "SUCCESS",
            Status::Failure => "FAILURE",
            Status::Skipped => "SKIPPED",
        }
    }
}

pub struct CopyTask {
    pub src: String,
    pub dst: String,
    pub mode: Option<u32>,
}

pub struct SymlinkTask {
    pub src: String,
    pub dst: String,
}

pub struct TemplateTask {
    pub src: String,
    pub dst: String,
    pub mode: Option<u32>,
}

pub struct ShellTask(pub String);

/// The kind of a task node, with the data that kind needs.
pub enum TaskType {
    Unknown,
    Group(Vec<Task>),
    Copy(CopyTask),
    Symlink(SymlinkTask),
    Template(TemplateTask),
    Shell(ShellTask),
}

/// A node of the task tree.
pub struct Task {
    /// Used only in the report.
    pub name: String,
    /// Marks a task that needs elevated privileges. Elevation is not performed: such a task
    /// carries out nothing and is reported as skipped.
    pub as_superuser: bool,
    pub variant: TaskType,
}

/// The leaf operations that a node carries out, in execution order.
pub open spec fn task_ops(t: Task) -> Seq<TaskType>
    decreases t,
{
    if t.as_superuser {
        Seq::empty()
    } else {
        ops(t.variant)
    }
}

pub open spec fn ops(v: TaskType) -> Seq<TaskType>
    decreases v,
{
    match v {
        TaskType::Unknown => Seq::empty(),
        TaskType::Group(ch) => ops_of(ch@),
        _ => seq![v],
    }
}

pub open spec fn ops_of(s: Seq<Task>) -> Seq<TaskType>
    decreases s,
{
    if s.len() == 0 {
        Seq::empty()
    } else {
        ops_of(s.drop_last()) + task_ops(s.last())
    }
}

/// Deepest nesting of groups below a node.
pub open spec fn height(v: TaskType) -> nat
    decreases v,
{
    match v {
        TaskType::Group(ch) => 1 + heights_of(ch@),
        _ => 0,
    }
}

pub open spec fn heights_of(s: Seq<Task>) -> nat
    decreases s,
{
    if s.len() == 0 {
        0
    } else {
        let a = heights_of(s.drop_last());
        let b = height(s.last().variant);
        if a >= b { a } else { b }
    }
}

/// Status of a node, given the outcomes of its leaf operations in order.
pub open spec fn task_status(t: Task, outs: Seq<bool>) -> Status
    decreases t,
{
    if t.as_superuser {
        Status::Skipped
    } else {
        run_status(t.variant, outs)
    }
}

pub open spec fn run_status(v: TaskType, outs: Seq<bool>) -> Status
    decreases v,
{
    match v {
        TaskType::Unknown => Status::Skipped,
        TaskType::Group(ch) => group_status(ch@, outs),
        _ => if outs.len() > 0 && outs[0] { Status::Success } else { Status::Failure },
    }
}

/// Aggregate of a sequence of siblings: a failure among them fails the group.
pub open spec fn group_status(s: Seq<Task>, outs: Seq<bool>) -> Status
    decreases s,
{
    if s.len() == 0 {
        Status::Success
    } else {
        let k = ops_of(s.drop_last()).len() as int;
        if group_status(s.drop_last(), outs.subrange(0, k)) == Status::Failure
            || task_status(s.last(), outs.subrange(k, outs.len() as int)) == Status::Failure {
            Status::Failure
        } else {
            Status::Success
        }
    }
}

/// Report entries (depth, name, status) of a node and its descendants, in the order emitted.
pub open spec fn task_reports(t: Task, outs: Seq<bool>, depth: nat) -> Seq<(nat, Seq<char>, Status)>
    decreases t,
{
    let inner = if t.as_superuser { Seq::empty() } else { run_reports(t.variant, outs, depth) };
    inner.push((depth, t.name@, task_status(t, outs)))
}

pub open spec fn run_reports(v: TaskType, outs: Seq<bool>, depth: nat) -> Seq<(nat, Seq<char>, Status)>
    decreases v,
{
    match v {
        TaskType::Group(ch) => reports_of(ch@, outs, depth + 1),
        _ => Seq::empty(),
    }
}

pub open spec fn reports_of(s: Seq<Task>, outs: Seq<bool>, depth: nat) -> Seq<(nat, Seq<char>, Status)>
    decreases s,
{
    if s.len() == 0 {
        Seq::empty()
    } else {
        let k = ops_of(s.drop_last()).len() as int;
        reports_of(s.drop_last(), outs.subrange(0, k), depth)
            + task_reports(s.last(), outs.subrange(k, outs.len() as int), depth)
    }
}

/// One line of the run's report.
pub struct Report {
    pub depth: usize,
    pub name: String,
    pub status: Status,
}

pub open spec fn report_view(r: Report) -> (nat, Seq<char>, Status) {
    (r.depth as nat, r.name@, r.status)
}

pub open spec fn reports_view(s: Seq<Report>) -> Seq<(nat, Seq<char>, Status)> {
    s.map_values(|r: Report| report_view(r))
}

/// `n` spaces.
pub open spec fn indent(n: nat) -> Seq<char> {
    Seq::new(n, |_i: int| ' ')
}

/// Text of a report line: two spaces per level of depth, the name, a colon and the status.
pub open spec fn report_text(depth: nat, name: Seq<char>, status: Status) -> Seq<char> {
    indent(2 * depth) + name + seq![':', ' '] + status_label(status)
}

impl Report {
    pub fn line(&self) -> (r: String)
        requires
            2 * self.depth <= usize::MAX,
        ensures
            r@ == report_text(self.depth as nat, self.name@, self.status),
    {
        let mut r = String::new();
        let n: usize = 2 * self.depth;
        let mut i: usize = 0;
        proof {
            reveal_strlit(" ");
            reveal_strlit(": ");
        }
        while i < n
            invariant
                i <= n,
                r@ == indent(i as nat),
                " "@ == seq![' '],
            decreases n - i,
        {
            r.append(" ");
            assert(r@ =~= indent((i + 1) as nat));
            i = i + 1;
        }
        r.append(self.name.as_str());
        r.append(": ");
        r.append(self.status.label());
        assert(": "@ =~= seq![':', ' ']);
        r
    }
}

/// Whether a finished shell command counts as a success: only a zero exit code does; a
/// process ended by a signal has no code and fails.
pub fn exit_succeeded(code: Option<i32>) -> (r: bool)
    ensures
        r == (code == Some(0i32)),
{
    match code {
        Some(c) => c == 0,
        None => false,
    }
}

impl Task {
    pub fn new(name: &str, variant: TaskType) -> (r: Task)
        ensures
            r.name@ == name@,
            !r.as_superuser,
            r.variant == variant,
    {
        Task { name: name.to_owned(), as_superuser: false, variant }
    }

    pub fn group(name: &str, tasks: Vec<Task>) -> (r: Task)
        ensures
            r.name@ == name@,
            !r.as_superuser,
            r.variant == TaskType::Group(tasks),
    {
        Task::new(name, TaskType::Group(tasks))
    }

    /// Runs the node: `outcomes[*next..]` holds, in order, whether each leaf operation of the
    /// node succeeded. Appends the node's report entries, and those of its descendants, to `log`.
    pub fn run(&self, params: &mut Params, outcomes: &Vec<bool>, next: &mut usize, log: &mut Vec<Report>) -> (st: Status)
        requires
            *old(next) + task_ops(*self).len() <= outcomes.len(),
            old(params).depth + height(self.variant) <= usize::MAX,
        ensures
            *final(next) == *old(next) + task_ops(*self).len(),
            st == task_status(*self, outcomes@.subrange(*old(next) as int, *final(next) as int)),
            reports_view(final(log)@) == reports_view(old(log)@) + task_reports(
                *self,
                outcomes@.subrange(*old(next) as int, *final(next) as int),
                old(params).depth as nat,
            ),
            final(params).depth == old(params).depth,
            final(params).context == old(params).context,
        decreases height(self.variant), 1nat,
    {
        let status = if !self.as_superuser {
            self.variant.run(params, outcomes, next, log)
        } else {
            Status::Skipped
        };
        let ghost before = log@;
        log.push(Report { depth: params.depth, name: self.name.clone(), status });
        proof {
            assert(reports_view(log@) =~= reports_view(before).push(report_view(log@.last())));
        }
        status
    }
}

impl TaskType {
    /// Carries out the operation of a node that is allowed to run.
    pub fn run(&self, params: &mut Params, outcomes: &Vec<bool>, next: &mut usize, log: &mut Vec<Report>) -> (st: Status)
        requires
            *old(next) + ops(*self).len() <= outcomes.len(),
            old(params).depth + height(*self) <= usize::MAX,
        ensures
            *final(next) == *old(next) + ops(*self).len(),
            st == run_status(*self, outcomes@.subrange(*old(next) as int, *final(next) as int)),
            reports_view(final(log)@) == reports_view(old(log)@) + run_reports(
                *self,
                outcomes@.subrange(*old(next) as int, *final(next) as int),
                old(params).depth as nat,
            ),
            final(params).depth == old(params).depth,
            final(params).context == old(params).context,
        decreases height(*self), 0nat,
    {
        match self {
            TaskType::Unknown => {
                assert(reports_view(log@) =~= reports_view(log@) + Seq::empty());
                Status::Skipped
            },
            TaskType::Group(tasks) => {
                let ghost start = *next as int;
                let ghost outs = outcomes@.subrange(start, start + ops(*self).len());
                let ghost log0 = reports_view(log@);
                let ghost d = params.depth as nat;
                params.depth = params.depth + 1;
                let mut status = Status::Success;
                let mut i: usize = 0;
                assert(tasks@.take(0) =~= Seq::<Task>::empty());
                assert(reports_view(log@) =~= log0 + reports_of(tasks@.take(0), outs.subrange(0, 0), d + 1));
                while i < tasks.len()
                    invariant
                        0 <= i <= tasks.len(),
                        0 <= start,
                        ops(*self) == ops_of(tasks@),
                        height(*self) == 1 + heights_of(tasks@),
                        start + ops_of(tasks@).len() <= outcomes.len(),
                        outs == outcomes@.subrange(start, start + ops_of(tasks@).len()),
                        *next == start + ops_of(tasks@.take(i as int)).len(),
                        ops_of(tasks@.take(i as int)).len() <= ops_of(tasks@).len(),
                        status == group_status(tasks@.take(i as int), outs.subrange(0, *next - start)),
                        reports_view(log@) == log0 + reports_of(tasks@.take(i as int), outs.subrange(0, *next - start), d + 1),
                        params.depth == d + 1,
                        d + 1 + heights_of(tasks@) <= usize::MAX,
                        params.context == old(params).context,
                    decreases tasks.len() - i,
                {
                    proof {
                        lemma_prefix_ops(tasks@, i as int);
                        lemma_heights(tasks@, i as int);
                    }
                    let ghost k = *next - start;
                    proof {
                    }
                    let s = tasks[i].run(params, outcomes, next, log);
                    if s == Status::Failure {
                        status = Status::Failure;
                    }
                    proof {
                        let pre = tasks@.take(i + 1);
                        assert(pre.drop_last() =~= tasks@.take(i as int));
                        assert(pre.last() == tasks@[i as int]);
                        assert(*next - start == ops_of(pre).len());
                        assert(k <= *next - start);
                        assert(outs.len() == ops_of(tasks@).len());
                        assert(*next - start <= outs.len());
                        let w = outs.subrange(0, *next - start);
                        assert(w.subrange(0, k) =~= outs.subrange(0, k));
                        assert(w.subrange(k, w.len() as int) =~= outcomes@.subrange(start + k, *next as int));
                    }
                    i = i + 1;
                }
                assert(tasks@.take(i as int) =~= tasks@);
                assert(outs.subrange(0, *next - start) =~= outs);
                params.depth = params.depth - 1;
                status
            },
            TaskType::Copy(_) | TaskType::Symlink(_) | TaskType::Template(_) | TaskType::Shell(_) => {
                let ok = outcomes[*next];
                *next = *next + 1;
                assert(reports_view(log@) =~= reports_view(log@) + Seq::empty());
                if ok { Status::Success } else { Status::Failure }
            },
        }
    }
}

/// Operations of a prefix of siblings come before those of the next sibling.
pub proof fn lemma_prefix_ops(s: Seq<Task>, i: int)
    requires
        0 <= i < s.len(),
    ensures
        ops_of(s.take(i + 1)) == ops_of(s.take(i)) + task_ops(s[i]),
        ops_of(s.take(i + 1)).len() <= ops_of(s).len(),
    decreases s.len(),
{
    assert(s.take(i + 1).drop_last() =~= s.take(i));
    if i + 1 < s.len() {
        lemma_prefix_ops(s.drop_last(), i);
        assert(s.drop_last().take(i + 1) =~= s.take(i + 1));
    } else {
        assert(s.take(i + 1) =~= s);
    }
}

pub proof fn lemma_heights(s: Seq<Task>, i: int)
    requires
        0 <= i < s.len(),
    ensures
        height(s[i].variant) <= heights_of(s),
    decreases s.len(),
{
    if i + 1 < s.len() {
        lemma_heights(s.drop_last(), i);
    }
}

} // verus!
