use vstd::prelude::*;

use crate::task::{
    Status, Task, TaskType, group_status, ops, ops_of, reports_of, run_reports,
    task_ops, task_reports, task_status,
};

verus! {

/// The outcomes that belong to the `i`-th of a sequence of siblings.
pub open spec fn child_outcomes(s: Seq<Task>, outs: Seq<bool>, i: int) -> Seq<bool> {
    let k = ops_of(s.take(i)).len() as int;
    outs.subrange(k, k + task_ops(s[i]).len())
}

proof fn lemma_prefix_windows(s: Seq<Task>, outs: Seq<bool>, i: int)
    requires
        s.len() > 0,
        outs.len() == ops_of(s).len(),
        0 <= i < s.len() - 1,
    ensures
        ops_of(s.take(i)).len() + task_ops(s[i]).len() <= ops_of(s.drop_last()).len(),
        child_outcomes(s.drop_last(), outs.subrange(0, ops_of(s.drop_last()).len() as int), i)
            == child_outcomes(s, outs, i),
{
    let init = s.drop_last();
    crate::task::lemma_prefix_ops(init, i);
    assert(init.take(i) =~= s.take(i));
    assert(init.take(i + 1) =~= s.take(i + 1));
    let k = ops_of(s.take(i)).len() as int;
    let w = outs.subrange(0, ops_of(init).len() as int);
    assert(w.subrange(k, k + task_ops(s[i]).len()) =~= outs.subrange(k, k + task_ops(s[i]).len()));
}

/// A group fails exactly when at least one of its direct children fails, and succeeds
/// otherwise; it is never skipped, not even when it has no children.
pub proof fn lemma_group_status(g: Task, outs: Seq<bool>)
    requires
        !g.as_superuser,
        g.variant is Group,
        outs.len() == task_ops(g).len(),
    ensures
        task_status(g, outs) != Status::Skipped,
        task_status(g, outs) == Status::Failure <==> some_child_fails(g.variant->Group_0@, outs),
{
    lemma_siblings_status(g.variant->Group_0@, outs);
}

/// Whether the `i`-th of a sequence of siblings fails.
pub open spec fn child_fails(s: Seq<Task>, outs: Seq<bool>, i: int) -> bool {
    task_status(s[i], child_outcomes(s, outs, i)) == Status::Failure
}

pub open spec fn some_child_fails(s: Seq<Task>, outs: Seq<bool>) -> bool {
    exists|i: int| 0 <= i < s.len() && #[trigger] child_fails(s, outs, i)
}

proof fn lemma_init_windows(s: Seq<Task>, outs: Seq<bool>)
    requires
        s.len() > 0,
        outs.len() == ops_of(s).len(),
    ensures
        forall|i: int|
            0 <= i < s.len() - 1 ==> #[trigger] child_fails(
                s.drop_last(),
                outs.subrange(0, ops_of(s.drop_last()).len() as int),
                i,
            ) == child_fails(s, outs, i),
        child_fails(s, outs, s.len() - 1) == (task_status(
            s.last(),
            outs.subrange(ops_of(s.drop_last()).len() as int, outs.len() as int),
        ) == Status::Failure),
{
    let n = s.len() - 1;
    assert(s.take(n) =~= s.drop_last());
    assert(child_outcomes(s, outs, n) =~= outs.subrange(
        ops_of(s.drop_last()).len() as int,
        outs.len() as int,
    ));
    assert forall|i: int| 0 <= i < n implies #[trigger] child_fails(
        s.drop_last(),
        outs.subrange(0, ops_of(s.drop_last()).len() as int),
        i,
    ) == child_fails(s, outs, i) by {
        lemma_prefix_windows(s, outs, i);
        assert(s.drop_last()[i] == s[i]);
    }
}

proof fn lemma_siblings_status(s: Seq<Task>, outs: Seq<bool>)
    requires
        outs.len() == ops_of(s).len(),
    ensures
        group_status(s, outs) != Status::Skipped,
        group_status(s, outs) == Status::Failure <==> some_child_fails(s, outs),
    decreases s.len(),
{
    if s.len() > 0 {
        let init = s.drop_last();
        let k = ops_of(init).len() as int;
        let w = outs.subrange(0, k);
        let n = s.len() - 1;
        lemma_siblings_status(init, w);
        lemma_init_windows(s, outs);
        if group_status(init, w) == Status::Failure {
            let i = choose|i: int| 0 <= i < init.len() && #[trigger] child_fails(init, w, i);
            assert(child_fails(s, outs, i));
        }
        if child_fails(s, outs, n) {
            assert(some_child_fails(s, outs));
        }
        if some_child_fails(s, outs) {
            let i = choose|i: int| 0 <= i < s.len() && #[trigger] child_fails(s, outs, i);
            if i < n {
                assert(child_fails(init, w, i));
            }
        }
    }
}

/// A node marked as privileged carries out no operation and is reported as skipped,
/// whatever its kind.
pub proof fn lemma_privileged_skipped(t: Task, outs: Seq<bool>)
    requires
        t.as_superuser,
    ensures
        task_ops(t).len() == 0,
        task_status(t, outs) == Status::Skipped,
{
}

/// An unknown node carries out no operation and is reported as skipped.
pub proof fn lemma_unknown_skipped(t: Task, outs: Seq<bool>)
    requires
        t.variant is Unknown,
    ensures
        task_ops(t).len() == 0,
        task_status(t, outs) == Status::Skipped,
{
}

/// Every child's operations belong to its group's operations, whatever the outcomes of
/// earlier siblings: nothing in a group is cut short by a failure.
pub proof fn lemma_siblings_all_run(s: Seq<Task>, i: int)
    requires
        0 <= i < s.len(),
    ensures
        ops_of(s).subrange(
            ops_of(s.take(i)).len() as int,
            (ops_of(s.take(i)).len() + task_ops(s[i]).len()) as int,
        ) == task_ops(s[i]),
    decreases s.len(),
{
    crate::task::lemma_prefix_ops(s, i);
    if i + 1 < s.len() {
        lemma_siblings_all_run(s.drop_last(), i);
        assert(s.drop_last().take(i) =~= s.take(i));
        lemma_ops_prefix_of(s.drop_last(), i + 1);
        assert(s.drop_last().take(i + 1) =~= s.take(i + 1));
        let a = ops_of(s.take(i)).len() as int;
        let b = a + task_ops(s[i]).len();
        assert(ops_of(s).subrange(a, b) =~= ops_of(s.drop_last()).subrange(a, b));
    } else {
        assert(s.take(i + 1) =~= s);
        assert(ops_of(s).subrange(
            ops_of(s.take(i)).len() as int,
            (ops_of(s.take(i)).len() + task_ops(s[i]).len()) as int,
        ) =~= task_ops(s[i]));
    }
}

proof fn lemma_ops_prefix_of(s: Seq<Task>, j: int)
    requires
        0 <= j <= s.len(),
    ensures
        ops_of(s.take(j)).len() <= ops_of(s).len(),
        ops_of(s.take(j)) == ops_of(s).take(ops_of(s.take(j)).len() as int),
    decreases s.len(),
{
    if j < s.len() {
        lemma_ops_prefix_of(s.drop_last(), j);
        assert(s.drop_last().take(j) =~= s.take(j));
        assert(ops_of(s).take(ops_of(s.take(j)).len() as int) =~= ops_of(s.drop_last()).take(
            ops_of(s.take(j)).len() as int,
        ));
    } else {
        assert(s.take(j) =~= s);
        assert(ops_of(s).take(ops_of(s).len() as int) =~= ops_of(s));
    }
}

/// A node reports last, at its own depth; everything reported before it comes from its
/// descendants, each one level deeper or more.
pub proof fn lemma_report_depths(t: Task, outs: Seq<bool>, depth: nat)
    ensures
        task_reports(t, outs, depth).last() == (depth, t.name@, task_status(t, outs)),
        forall|j: int|
            0 <= j < task_reports(t, outs, depth).len() - 1 ==> #[trigger] task_reports(
                t,
                outs,
                depth,
            )[j].0 >= depth + 1,
        forall|j: int|
            0 <= j < task_reports(t, outs, depth).len() ==> #[trigger] task_reports(
                t,
                outs,
                depth,
            )[j].0 >= depth,
    decreases t,
{
    let r = task_reports(t, outs, depth);
    let inner = if t.as_superuser { Seq::empty() } else { run_reports(t.variant, outs, depth) };
    assert forall|j: int| 0 <= j < r.len() - 1 implies #[trigger] r[j].0 >= depth + 1 by {
        assert(r[j] == inner[j]);
        if !t.as_superuser {
            if let TaskType::Group(ch) = t.variant {
                lemma_reports_of_depths(ch@, outs, depth + 1);
                assert(inner[j] == reports_of(ch@, outs, depth + 1)[j]);
            }
        }
    }
}

proof fn lemma_reports_of_depths(s: Seq<Task>, outs: Seq<bool>, depth: nat)
    ensures
        forall|j: int|
            0 <= j < reports_of(s, outs, depth).len() ==> #[trigger] reports_of(s, outs, depth)[j].0
                >= depth,
    decreases s,
{
    if s.len() > 0 {
        let k = ops_of(s.drop_last()).len() as int;
        lemma_reports_of_depths(s.drop_last(), outs.subrange(0, k), depth);
        lemma_report_depths(s.last(), outs.subrange(k, outs.len() as int), depth);
        let a = reports_of(s.drop_last(), outs.subrange(0, k), depth);
        let b = task_reports(s.last(), outs.subrange(k, outs.len() as int), depth);
        let r = reports_of(s, outs, depth);
        assert forall|j: int| 0 <= j < r.len() implies #[trigger] r[j].0 >= depth by {
            if j < a.len() {
                assert(r[j] == a[j]);
            } else {
                assert(r[j] == b[j - a.len()]);
            }
        }
    }
}

/// Within the lines of a sequence of siblings reported at `depth`, the `i`-th sibling's lines
/// come as one block after those of the siblings before it; by `lemma_report_depths` that block
/// ends with the sibling's own line at `depth`. A group run at depth `d` reports its children
/// at `d + 1`, so the children of the root, run at depth 0, report at depth 1.
pub proof fn lemma_child_lines(s: Seq<Task>, outs: Seq<bool>, depth: nat, i: int)
    requires
        0 <= i < s.len(),
        outs.len() == ops_of(s).len(),
    ensures
        ({
            let k = ops_of(s.take(i)).len() as int;
            let pre = reports_of(s.take(i), outs.subrange(0, k), depth);
            let own = task_reports(s[i], child_outcomes(s, outs, i), depth);
            &&& pre.len() + own.len() <= reports_of(s, outs, depth).len()
            &&& reports_of(s, outs, depth).subrange(pre.len() as int, (pre.len() + own.len()) as int) == own
        }),
    decreases s.len(),
{
    let n = s.len() - 1;
    let init = s.drop_last();
    let kl = ops_of(init).len() as int;
    let w = outs.subrange(0, kl);
    lemma_init_windows(s, outs);
    let k = ops_of(s.take(i)).len() as int;
    if i < n {
        lemma_prefix_windows(s, outs, i);
        lemma_child_lines(init, w, depth, i);
        assert(init.take(i) =~= s.take(i));
        assert(init[i] == s[i]);
        crate::task::lemma_prefix_ops(init, i);
        assert(w.subrange(0, k) =~= outs.subrange(0, k));
        let pre = reports_of(s.take(i), outs.subrange(0, k), depth);
        let own = task_reports(s[i], child_outcomes(s, outs, i), depth);
        let a = reports_of(init, w, depth);
        let r = reports_of(s, outs, depth);
        assert(r.subrange(pre.len() as int, (pre.len() + own.len()) as int) =~= a.subrange(
            pre.len() as int,
            (pre.len() + own.len()) as int,
        ));
    } else {
        assert(s.take(i) =~= init);
        let r = reports_of(s, outs, depth);
        let pre = reports_of(init, w, depth);
        let own = task_reports(s[i], child_outcomes(s, outs, i), depth);
        assert(r.subrange(pre.len() as int, (pre.len() + own.len()) as int) =~= own);
    }
}

/// Whether any of the given operation outcomes is a failure.
pub open spec fn any_failed(outs: Seq<bool>) -> bool {
    exists|j: int| 0 <= j < outs.len() && !#[trigger] outs[j]
}

/// A node fails exactly when one of the operations it carries out fails, however deep in its
/// subtree: a failure propagates to every enclosing group up to the root.
pub proof fn lemma_failure_propagates(t: Task, outs: Seq<bool>)
    requires
        outs.len() == task_ops(t).len(),
    ensures
        task_status(t, outs) == Status::Failure <==> any_failed(outs),
    decreases t,
{
    if !t.as_superuser {
        match t.variant {
            TaskType::Group(ch) => {
                lemma_group_fails(ch@, outs);
            },
            TaskType::Unknown => {},
            _ => {
                if !outs[0] {
                    assert(any_failed(outs));
                }
            },
        }
    }
}

proof fn lemma_group_fails(s: Seq<Task>, outs: Seq<bool>)
    requires
        outs.len() == ops_of(s).len(),
    ensures
        group_status(s, outs) == Status::Failure <==> any_failed(outs),
    decreases s,
{
    if s.len() > 0 {
        let k = ops_of(s.drop_last()).len() as int;
        let a = outs.subrange(0, k);
        let b = outs.subrange(k, outs.len() as int);
        lemma_group_fails(s.drop_last(), a);
        lemma_failure_propagates(s.last(), b);
        if any_failed(a) {
            let j = choose|j: int| 0 <= j < a.len() && !#[trigger] a[j];
            assert(!outs[j]);
        }
        if any_failed(b) {
            let j = choose|j: int| 0 <= j < b.len() && !#[trigger] b[j];
            assert(!outs[k + j]);
        }
        if any_failed(outs) {
            let j = choose|j: int| 0 <= j < outs.len() && !#[trigger] outs[j];
            if j < k {
                assert(!a[j]);
            } else {
                assert(!b[j - k]);
            }
        }
    }
}

} // verus!
