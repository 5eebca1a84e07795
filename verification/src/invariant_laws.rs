//! What the invariants promise as a whole.

use vstd::prelude::*;

use crate::event::{JobEventKindView, TimelineEventView};
use crate::invariants::{
    collected, early_activity_rule, early_job_exit, is_connect, is_first_connect,
    is_first_job_exited, is_first_task_exited, is_job_exited, is_node_allocated, is_task_exited,
    is_task_started, late_recv_rule, unallocated_start, unallocated_start_rule, unstarted_exit,
    unstarted_exit_rule, violations, ViolationView,
};

verus! {

/// A task cannot exit before it started.
pub open spec fn exits_follow_starts(ev: Seq<TimelineEventView>) -> bool {
    forall|i: int, step_id: Seq<char>, task_id: Seq<char>, node: Seq<char>|
        0 <= i < ev.len() && #[trigger] is_task_exited(ev[i], step_id, task_id, node)
            ==> exists|k: int|
            0 <= k < i && is_task_started(#[trigger] ev[k], step_id, task_id, node)
}

/// Nothing follows the exit of the Job.
pub open spec fn job_exit_is_last(ev: Seq<TimelineEventView>) -> bool {
    forall|i: int| 0 <= i < ev.len() && is_job_exited(#[trigger] ev[i]) ==> i + 1 == ev.len()
}

/// The start of a task on a node.
pub open spec fn is_start_on(e: TimelineEventView, on: Seq<char>) -> bool {
    e matches TimelineEventView::Boundary(job_event) && (job_event.kind matches
        JobEventKindView::TaskStarted { node, .. } && node == on)
}

/// A task cannot start on an unallocated node.
pub open spec fn starts_follow_allocations(ev: Seq<TimelineEventView>) -> bool {
    forall|i: int, node: Seq<char>|
        0 <= i < ev.len() && #[trigger] is_start_on(ev[i], node) ==> exists|k: int|
            0 <= k < i && is_node_allocated(#[trigger] ev[k], node)
}

/// A send or a receive on a process's socket.
pub open spec fn is_activity(e: TimelineEventView, pid: u32, fd: i32) -> bool {
    e matches TimelineEventView::Message(msg) && msg.pid == pid && msg.fd == fd && (msg.direction
        == "send"@ || msg.direction == "recv"@)
}

/// A send or a receive cannot precede every connect of its own process and
/// socket, if any connect was logged.
pub open spec fn activity_follows_connects(ev: Seq<TimelineEventView>) -> bool {
    forall|i: int, c: int, pid: u32, fd: i32|
        0 <= i < c < ev.len() && #[trigger] is_activity(ev[i], pid, fd) && #[trigger] is_connect(
            ev[c],
            pid,
            fd,
        ) ==> exists|k: int| 0 <= k < i && is_connect(#[trigger] ev[k], pid, fd)
}

/// A receive that is attributed to a task.
pub open spec fn is_task_recv(
    e: TimelineEventView,
    step_id: Seq<char>,
    task_id: Seq<char>,
    node: Seq<char>,
) -> bool {
    e matches TimelineEventView::Message(msg) && msg.direction == "recv"@ && msg.step_id == Some(
        step_id,
    ) && msg.task_id == Some(task_id) && msg.node == Some(node)
}

/// A task cannot receive a message after it has exited.
pub open spec fn recvs_precede_exits(ev: Seq<TimelineEventView>) -> bool {
    forall|i: int, x: int, step_id: Seq<char>, task_id: Seq<char>, node: Seq<char>|
        0 <= i < ev.len() && 0 <= x < ev.len() && #[trigger] is_task_recv(
            ev[i],
            step_id,
            task_id,
            node,
        ) && #[trigger] is_task_exited(ev[x], step_id, task_id, node) ==> i < x
}

/// The names of the invariants.
pub open spec fn is_registered(name: Seq<char>) -> bool {
    ||| name == "task_exited_requires_prior_task_started"@
    ||| name == "job_exited_is_last"@
    ||| name == "task_started_requires_prior_node_allocated"@
    ||| name == "connect_precedes_activity"@
    ||| name == "recv_precedes_task_exited"@
}

proof fn lemma_collected_empty(n: nat, rule: spec_fn(int) -> Option<ViolationView>)
    ensures
        collected(n, rule).len() == 0 <==> forall|i: int|
            0 <= i < n ==> (#[trigger] rule(i)) is None,
    decreases n,
{
    if n > 0 {
        lemma_collected_empty((n - 1) as nat, rule);
        if rule(n - 1) is None && collected((n - 1) as nat, rule).len() == 0 {
            assert forall|i: int| 0 <= i < n implies (#[trigger] rule(i)) is None by {
                if i < n - 1 {
                    assert(rule(i) is None);
                }
            }
        }
    }
}

proof fn lemma_collected_from(n: nat, rule: spec_fn(int) -> Option<ViolationView>)
    ensures
        forall|k: int|
            0 <= k < collected(n, rule).len() ==> exists|i: int|
                0 <= i < n && #[trigger] rule(i) == Some(#[trigger] collected(n, rule)[k]),
    decreases n,
{
    if n > 0 {
        let before = collected((n - 1) as nat, rule);
        let all = collected(n, rule);
        lemma_collected_from((n - 1) as nat, rule);
        assert forall|k: int| 0 <= k < all.len() implies exists|i: int|
            0 <= i < n && #[trigger] rule(i) == Some(#[trigger] all[k]) by {
            if k < before.len() {
                assert(all[k] == before[k]);
                let i = choose|i: int| 0 <= i < n - 1 && #[trigger] rule(i) == Some(before[k]);
                assert(rule(i) == Some(all[k]));
            } else {
                assert(rule(n - 1) == Some(all[k]));
            }
        }
    }
}

/// The invariant on task exits finds nothing exactly where every exit follows
/// its start.
pub proof fn law_task_exited_requires_prior_task_started(ev: Seq<TimelineEventView>)
    ensures
        collected(ev.len(), unstarted_exit_rule(ev)).len() == 0 <==> exits_follow_starts(ev),
{
    let rule = unstarted_exit_rule(ev);
    lemma_collected_empty(ev.len(), rule);
    if collected(ev.len(), rule).len() == 0 {
        assert forall|i: int, step_id: Seq<char>, task_id: Seq<char>, node: Seq<char>|
            0 <= i < ev.len() && #[trigger] is_task_exited(
                ev[i],
                step_id,
                task_id,
                node,
            ) implies exists|k: int|
            0 <= k < i && is_task_started(#[trigger] ev[k], step_id, task_id, node) by {
            assert(rule(i) is None);
        }
    }
    if exits_follow_starts(ev) {
        assert forall|i: int| 0 <= i < ev.len() implies (#[trigger] rule(i)) is None by {
            if let TimelineEventView::Boundary(job_event) = ev[i] {
                if let JobEventKindView::TaskExited { step_id, task_id, node } = job_event.kind {
                    assert(is_task_exited(ev[i], step_id, task_id, node));
                }
            }
        }
    }
}

/// The invariant on the Job's exit finds nothing exactly where nothing,
/// message or other, follows that exit.
pub proof fn law_job_exited_is_last(ev: Seq<TimelineEventView>)
    ensures
        early_job_exit(ev).len() == 0 <==> job_exit_is_last(ev),
        early_job_exit(ev).len() <= 1,
{
    if !job_exit_is_last(ev) {
        let i = choose|i: int|
            0 <= i < ev.len() && is_job_exited(#[trigger] ev[i]) && i + 1 != ev.len();
        lemma_first_job_exited(ev, i);
        let pos = choose|pos: int| is_first_job_exited(ev, pos) && pos <= i;
        assert(is_first_job_exited(ev, pos) && pos + 1 < ev.len());
    }
}

proof fn lemma_first_job_exited(ev: Seq<TimelineEventView>, i: int)
    requires
        0 <= i < ev.len(),
        is_job_exited(ev[i]),
    ensures
        exists|pos: int| is_first_job_exited(ev, pos) && pos <= i,
    decreases i,
{
    if forall|k: int| 0 <= k < i ==> !is_job_exited(#[trigger] ev[k]) {
        assert(is_first_job_exited(ev, i));
    } else {
        let k = choose|k: int| 0 <= k < i && is_job_exited(#[trigger] ev[k]);
        lemma_first_job_exited(ev, k);
    }
}

/// The invariant on task starts finds nothing exactly where every start
/// follows an allocation of its node.
pub proof fn law_task_started_requires_prior_node_allocated(ev: Seq<TimelineEventView>)
    ensures
        collected(ev.len(), unallocated_start_rule(ev)).len() == 0 <==> starts_follow_allocations(
            ev,
        ),
{
    let rule = unallocated_start_rule(ev);
    lemma_collected_empty(ev.len(), rule);
    if collected(ev.len(), rule).len() == 0 {
        assert forall|i: int, node: Seq<char>|
            0 <= i < ev.len() && #[trigger] is_start_on(ev[i], node) implies exists|k: int|
            0 <= k < i && is_node_allocated(#[trigger] ev[k], node) by {
            assert(rule(i) is None);
        }
    }
    if starts_follow_allocations(ev) {
        assert forall|i: int| 0 <= i < ev.len() implies (#[trigger] rule(i)) is None by {
            if let TimelineEventView::Boundary(job_event) = ev[i] {
                if let JobEventKindView::TaskStarted { step_id, task_id, node } = job_event.kind {
                    assert(is_start_on(ev[i], node));
                }
            }
        }
    }
}

proof fn lemma_first_connect(ev: Seq<TimelineEventView>, pid: u32, fd: i32, c: int)
    requires
        0 <= c < ev.len(),
        is_connect(ev[c], pid, fd),
    ensures
        exists|f: int| is_first_connect(ev, pid, fd, f) && f <= c,
    decreases c,
{
    if forall|k: int| 0 <= k < c ==> !is_connect(#[trigger] ev[k], pid, fd) {
        assert(is_first_connect(ev, pid, fd, c));
    } else {
        let k = choose|k: int| 0 <= k < c && is_connect(#[trigger] ev[k], pid, fd);
        lemma_first_connect(ev, pid, fd, k);
    }
}

/// The invariant on connects finds nothing exactly where every send and
/// receive whose socket has a connect follows one.
pub proof fn law_connect_precedes_activity(ev: Seq<TimelineEventView>)
    ensures
        collected(ev.len(), early_activity_rule(ev)).len() == 0 <==> activity_follows_connects(ev),
{
    let rule = early_activity_rule(ev);
    lemma_collected_empty(ev.len(), rule);
    if collected(ev.len(), rule).len() == 0 {
        assert forall|i: int, c: int, pid: u32, fd: i32|
            0 <= i < c < ev.len() && #[trigger] is_activity(ev[i], pid, fd)
                && #[trigger] is_connect(ev[c], pid, fd) implies exists|k: int|
            0 <= k < i && is_connect(#[trigger] ev[k], pid, fd) by {
            assert(rule(i) is None);
            lemma_first_connect(ev, pid, fd, c);
            let f = choose|f: int| is_first_connect(ev, pid, fd, f) && f <= c;
            assert(f <= i);
            assert(f != i) by {
                if f == i {
                    reveal_strlit("connect");
                    reveal_strlit("send");
                    reveal_strlit("recv");
                    assert("connect"@.len() == 7);
                    assert("send"@.len() == 4 && "recv"@.len() == 4);
                }
            }
            assert(is_connect(ev[f], pid, fd));
        }
    }
    if activity_follows_connects(ev) {
        assert forall|i: int| 0 <= i < ev.len() implies (#[trigger] rule(i)) is None by {
            if let TimelineEventView::Message(msg) = ev[i] {
                if rule(i) is Some {
                    let c = choose|c: int| i < c && is_first_connect(ev, msg.pid, msg.fd, c);
                    assert(is_activity(ev[i], msg.pid, msg.fd));
                    assert(is_connect(ev[c], msg.pid, msg.fd));
                    let k = choose|k: int|
                        0 <= k < i && is_connect(#[trigger] ev[k], msg.pid, msg.fd);
                    assert(!is_connect(ev[k], msg.pid, msg.fd));
                }
            }
        }
    }
}

proof fn lemma_first_task_exited(
    ev: Seq<TimelineEventView>,
    step_id: Seq<char>,
    task_id: Seq<char>,
    node: Seq<char>,
    x: int,
)
    requires
        0 <= x < ev.len(),
        is_task_exited(ev[x], step_id, task_id, node),
    ensures
        exists|f: int| is_first_task_exited(ev, step_id, task_id, node, f) && f <= x,
    decreases x,
{
    if forall|k: int| 0 <= k < x ==> !is_task_exited(#[trigger] ev[k], step_id, task_id, node) {
        assert(is_first_task_exited(ev, step_id, task_id, node, x));
    } else {
        let k = choose|k: int|
            0 <= k < x && is_task_exited(#[trigger] ev[k], step_id, task_id, node);
        lemma_first_task_exited(ev, step_id, task_id, node, k);
    }
}

/// The invariant on receives finds nothing exactly where every attributed
/// receive precedes every exit of its own task.
pub proof fn law_recv_precedes_task_exited(ev: Seq<TimelineEventView>)
    ensures
        collected(ev.len(), late_recv_rule(ev)).len() == 0 <==> recvs_precede_exits(ev),
{
    let rule = late_recv_rule(ev);
    lemma_collected_empty(ev.len(), rule);
    if collected(ev.len(), rule).len() == 0 {
        assert forall|i: int, x: int, step_id: Seq<char>, task_id: Seq<char>, node: Seq<char>|
            0 <= i < ev.len() && 0 <= x < ev.len() && #[trigger] is_task_recv(
                ev[i],
                step_id,
                task_id,
                node,
            ) && #[trigger] is_task_exited(ev[x], step_id, task_id, node) implies i < x by {
            assert(rule(i) is None);
            lemma_first_task_exited(ev, step_id, task_id, node, x);
            let f = choose|f: int|
                is_first_task_exited(ev, step_id, task_id, node, f) && f <= x;
            assert(!(f < i));
        }
    }
    if recvs_precede_exits(ev) {
        assert forall|i: int| 0 <= i < ev.len() implies (#[trigger] rule(i)) is None by {
            if let TimelineEventView::Message(msg) = ev[i] {
                if rule(i) is Some {
                    let step_id = msg.step_id->0;
                    let task_id = msg.task_id->0;
                    let node = msg.node->0;
                    let x = choose|x: int|
                        x < i && is_first_task_exited(ev, step_id, task_id, node, x);
                    assert(is_task_recv(ev[i], step_id, task_id, node));
                    assert(is_task_exited(ev[x], step_id, task_id, node));
                }
            }
        }
    }
}

/// A timeline is clean exactly where all five rules hold of it.
pub proof fn law_clean_iff_consistent(ev: Seq<TimelineEventView>)
    ensures
        violations(ev).len() == 0 <==> {
            &&& exits_follow_starts(ev)
            &&& job_exit_is_last(ev)
            &&& starts_follow_allocations(ev)
            &&& activity_follows_connects(ev)
            &&& recvs_precede_exits(ev)
        },
{
    law_task_exited_requires_prior_task_started(ev);
    law_job_exited_is_last(ev);
    law_task_started_requires_prior_node_allocated(ev);
    law_connect_precedes_activity(ev);
    law_recv_precedes_task_exited(ev);
}

/// Every violation bears the name of a registered invariant.
pub proof fn law_violations_are_registered(ev: Seq<TimelineEventView>)
    ensures
        forall|k: int|
            0 <= k < violations(ev).len() ==> is_registered(
                (#[trigger] violations(ev)[k]).invariant,
            ),
{
    let a = collected(ev.len(), unstarted_exit_rule(ev));
    let b = early_job_exit(ev);
    let c = collected(ev.len(), unallocated_start_rule(ev));
    let d = collected(ev.len(), early_activity_rule(ev));
    let e = collected(ev.len(), late_recv_rule(ev));
    lemma_collected_from(ev.len(), unstarted_exit_rule(ev));
    lemma_collected_from(ev.len(), unallocated_start_rule(ev));
    lemma_collected_from(ev.len(), early_activity_rule(ev));
    lemma_collected_from(ev.len(), late_recv_rule(ev));
    assert forall|k: int| 0 <= k < violations(ev).len() implies is_registered(
        (#[trigger] violations(ev)[k]).invariant,
    ) by {
        let v = violations(ev)[k];
        if k < a.len() {
            assert(v == a[k]);
        } else if k < a.len() + b.len() {
            assert(v == b[k - a.len()]);
        } else if k < a.len() + b.len() + c.len() {
            assert(v == c[k - a.len() - b.len()]);
        } else if k < a.len() + b.len() + c.len() + d.len() {
            assert(v == d[k - a.len() - b.len() - c.len()]);
        } else {
            assert(v == e[k - a.len() - b.len() - c.len() - d.len()]);
        }
    }
}

/// The boundary rows of a timeline, in order.
pub open spec fn boundary_rows(ev: Seq<TimelineEventView>) -> Seq<TimelineEventView>
    decreases ev.len(),
{
    if ev.len() == 0 {
        Seq::empty()
    } else if ev.last() is Boundary {
        boundary_rows(ev.drop_last()).push(ev.last())
    } else {
        boundary_rows(ev.drop_last())
    }
}

/// A boundary event is among the first `n` of a timeline exactly where it is
/// among the boundary rows of those.
proof fn lemma_boundary_rows_hold(ev: Seq<TimelineEventView>)
    ensures
        forall|k: int|
            0 <= k < ev.len() && (#[trigger] ev[k]) is Boundary ==> exists|l: int|
                0 <= l < boundary_rows(ev).len() && #[trigger] boundary_rows(ev)[l] == ev[k],
        forall|l: int|
            0 <= l < boundary_rows(ev).len() ==> exists|k: int|
                0 <= k < ev.len() && #[trigger] ev[k] == #[trigger] boundary_rows(ev)[l],
    decreases ev.len(),
{
    if ev.len() > 0 {
        let pre = ev.drop_last();
        let n = pre.len() as int;
        let rows = boundary_rows(ev);
        let rows_pre = boundary_rows(pre);
        lemma_boundary_rows_hold(pre);
        assert forall|k: int| 0 <= k < ev.len() && (#[trigger] ev[k]) is Boundary implies exists|
            l: int,
        |
            0 <= l < rows.len() && #[trigger] rows[l] == ev[k] by {
            if k < n {
                assert(pre[k] == ev[k]);
                let l = choose|l: int| 0 <= l < rows_pre.len() && #[trigger] rows_pre[l] == pre[k];
                assert(rows[l] == ev[k]);
            } else {
                assert(rows[rows_pre.len() as int] == ev[k]);
            }
        }
        assert forall|l: int| 0 <= l < rows.len() implies exists|k: int|
            0 <= k < ev.len() && #[trigger] ev[k] == #[trigger] rows[l] by {
            if l < rows_pre.len() {
                assert(rows[l] == rows_pre[l]);
                let k = choose|k: int| 0 <= k < pre.len() && #[trigger] pre[k] == rows_pre[l];
                assert(ev[k] == rows[l]);
            } else {
                assert(ev[n] == rows[l]);
            }
        }
    }
}

proof fn lemma_collected_agree(
    n: nat,
    a: spec_fn(int) -> Option<ViolationView>,
    b: spec_fn(int) -> Option<ViolationView>,
)
    requires
        forall|i: int| 0 <= i < n ==> #[trigger] a(i) == b(i),
    ensures
        collected(n, a) == collected(n, b),
    decreases n,
{
    if n > 0 {
        lemma_collected_agree((n - 1) as nat, a, b);
        assert(a(n - 1) == b(n - 1));
    }
}

proof fn lemma_unstarted_exit_prefix(ev: Seq<TimelineEventView>, n: int, i: int)
    requires
        0 <= i < n <= ev.len(),
    ensures
        unstarted_exit(ev, i) == unstarted_exit(ev.take(n), i),
{
    let pre = ev.take(n);
    if let TimelineEventView::Boundary(job_event) = ev[i] {
        if let JobEventKindView::TaskExited { step_id, task_id, node } = job_event.kind {
            if exists|k: int|
                0 <= k < i && is_task_started(#[trigger] ev[k], step_id, task_id, node) {
                let k = choose|k: int|
                    0 <= k < i && is_task_started(#[trigger] ev[k], step_id, task_id, node);
                assert(is_task_started(pre[k], step_id, task_id, node));
            }
            if exists|k: int|
                0 <= k < i && is_task_started(#[trigger] pre[k], step_id, task_id, node) {
                let k = choose|k: int|
                    0 <= k < i && is_task_started(#[trigger] pre[k], step_id, task_id, node);
                assert(is_task_started(ev[k], step_id, task_id, node));
            }
        }
    }
}

proof fn lemma_unallocated_start_prefix(ev: Seq<TimelineEventView>, n: int, i: int)
    requires
        0 <= i < n <= ev.len(),
    ensures
        unallocated_start(ev, i) == unallocated_start(ev.take(n), i),
{
    let pre = ev.take(n);
    if let TimelineEventView::Boundary(job_event) = ev[i] {
        if let JobEventKindView::TaskStarted { step_id, task_id, node } = job_event.kind {
            if exists|k: int| 0 <= k < i && is_node_allocated(#[trigger] ev[k], node) {
                let k = choose|k: int| 0 <= k < i && is_node_allocated(#[trigger] ev[k], node);
                assert(is_node_allocated(pre[k], node));
            }
            if exists|k: int| 0 <= k < i && is_node_allocated(#[trigger] pre[k], node) {
                let k = choose|k: int| 0 <= k < i && is_node_allocated(#[trigger] pre[k], node);
                assert(is_node_allocated(ev[k], node));
            }
        }
    }
}

/// Run rows and messages, wherever they stand in a timeline, do not bear on
/// the invariants on task exits and task starts: each finds in the timeline
/// what it finds in the boundary rows alone.
pub proof fn law_only_boundary_rows_matter(ev: Seq<TimelineEventView>)
    ensures
        collected(ev.len(), unstarted_exit_rule(ev)) == collected(
            boundary_rows(ev).len(),
            unstarted_exit_rule(boundary_rows(ev)),
        ),
        collected(ev.len(), unallocated_start_rule(ev)) == collected(
            boundary_rows(ev).len(),
            unallocated_start_rule(boundary_rows(ev)),
        ),
    decreases ev.len(),
{
    if ev.len() > 0 {
        let pre = ev.drop_last();
        let n = pre.len() as int;
        let rows = boundary_rows(ev);
        let rows_pre = boundary_rows(pre);
        let m = rows_pre.len() as int;
        law_only_boundary_rows_matter(pre);
        assert(ev.take(n) =~= pre);
        assert forall|i: int| 0 <= i < n implies #[trigger] unstarted_exit_rule(ev)(i)
            == unstarted_exit_rule(pre)(i) by {
            lemma_unstarted_exit_prefix(ev, n, i);
        }
        lemma_collected_agree(n as nat, unstarted_exit_rule(ev), unstarted_exit_rule(pre));
        assert forall|i: int| 0 <= i < n implies #[trigger] unallocated_start_rule(ev)(i)
            == unallocated_start_rule(pre)(i) by {
            lemma_unallocated_start_prefix(ev, n, i);
        }
        lemma_collected_agree(n as nat, unallocated_start_rule(ev), unallocated_start_rule(pre));
        if ev.last() is Boundary {
            assert(rows.take(m) =~= rows_pre);
            assert forall|i: int| 0 <= i < m implies #[trigger] unstarted_exit_rule(rows)(i)
                == unstarted_exit_rule(rows_pre)(i) by {
                lemma_unstarted_exit_prefix(rows, m, i);
            }
            lemma_collected_agree(
                m as nat,
                unstarted_exit_rule(rows),
                unstarted_exit_rule(rows_pre),
            );
            assert forall|i: int| 0 <= i < m implies #[trigger] unallocated_start_rule(rows)(i)
                == unallocated_start_rule(rows_pre)(i) by {
                lemma_unallocated_start_prefix(rows, m, i);
            }
            lemma_collected_agree(
                m as nat,
                unallocated_start_rule(rows),
                unallocated_start_rule(rows_pre),
            );
            lemma_boundary_rows_hold(pre);
            lemma_last_agrees(ev, rows, pre, rows_pre);
        }
    }
}

/// At the end of a timeline both invariants find what they find at the end of
/// its boundary rows.
proof fn lemma_last_agrees(
    ev: Seq<TimelineEventView>,
    rows: Seq<TimelineEventView>,
    pre: Seq<TimelineEventView>,
    rows_pre: Seq<TimelineEventView>,
)
    requires
        ev.len() > 0,
        pre == ev.drop_last(),
        rows == rows_pre.push(ev.last()),
        forall|k: int|
            0 <= k < pre.len() && (#[trigger] pre[k]) is Boundary ==> exists|l: int|
                0 <= l < rows_pre.len() && #[trigger] rows_pre[l] == pre[k],
        forall|l: int|
            0 <= l < rows_pre.len() ==> exists|k: int|
                0 <= k < pre.len() && #[trigger] pre[k] == #[trigger] rows_pre[l],
    ensures
        unstarted_exit(ev, ev.len() - 1) == unstarted_exit(rows, rows.len() - 1),
        unallocated_start(ev, ev.len() - 1) == unallocated_start(rows, rows.len() - 1),
{
    let n = pre.len() as int;
    let m = rows_pre.len() as int;
    if let TimelineEventView::Boundary(job_event) = ev.last() {
        if let JobEventKindView::TaskExited { step_id, task_id, node } = job_event.kind {
            if exists|k: int|
                0 <= k < n && is_task_started(#[trigger] ev[k], step_id, task_id, node) {
                let k = choose|k: int|
                    0 <= k < n && is_task_started(#[trigger] ev[k], step_id, task_id, node);
                assert(pre[k] is Boundary);
                let l = choose|l: int| 0 <= l < m && #[trigger] rows_pre[l] == pre[k];
                assert(is_task_started(rows[l], step_id, task_id, node));
            }
            if exists|l: int|
                0 <= l < m && is_task_started(#[trigger] rows[l], step_id, task_id, node) {
                let l = choose|l: int|
                    0 <= l < m && is_task_started(#[trigger] rows[l], step_id, task_id, node);
                assert(rows_pre[l] == rows[l]);
                let k = choose|k: int| 0 <= k < n && #[trigger] pre[k] == rows_pre[l];
                assert(is_task_started(ev[k], step_id, task_id, node));
            }
        }
        if let JobEventKindView::TaskStarted { step_id, task_id, node } = job_event.kind {
            if exists|k: int| 0 <= k < n && is_node_allocated(#[trigger] ev[k], node) {
                let k = choose|k: int| 0 <= k < n && is_node_allocated(#[trigger] ev[k], node);
                assert(pre[k] is Boundary);
                let l = choose|l: int| 0 <= l < m && #[trigger] rows_pre[l] == pre[k];
                assert(is_node_allocated(rows[l], node));
            }
            if exists|l: int| 0 <= l < m && is_node_allocated(#[trigger] rows[l], node) {
                let l = choose|l: int| 0 <= l < m && is_node_allocated(#[trigger] rows[l], node);
                assert(rows_pre[l] == rows[l]);
                let k = choose|k: int| 0 <= k < n && #[trigger] pre[k] == rows_pre[l];
                assert(is_node_allocated(ev[k], node));
            }
        }
    }
}

} // verus!
