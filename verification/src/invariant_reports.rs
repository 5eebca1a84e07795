//! What the report on a timeline holds, event by event.

use vstd::prelude::*;
use vstd::set_lib::set_int_range;

use crate::event::{JobEventKindView, TimelineEventView};
use crate::invariants::{
    collected, early_activity_rule, early_job_exit, is_connect, is_first_connect,
    is_first_job_exited, is_first_task_exited, is_job_exited, is_node_allocated, is_task_exited,
    is_task_started, late_recv_rule, unallocated_start_rule, unstarted_exit_rule, violations,
    ViolationView,
};
use crate::listing::{
    law_one_for_each_counts, lemma_one_for_next, lemma_one_for_none, one_for_each,
};
use crate::text::{decimal, signed_decimal};

verus! {

/// The event at position `i` is the exit of a task, and no earlier event starts
/// that task on that node.
pub open spec fn exits_unstarted(ev: Seq<TimelineEventView>, i: int) -> bool {
    match ev[i] {
        TimelineEventView::Boundary(e) => match e.kind {
            JobEventKindView::TaskExited { step_id, task_id, node } => forall|k: int|
                0 <= k < i ==> !(#[trigger] ev[k] matches TimelineEventView::Boundary(s) && s.kind
                    == (JobEventKindView::TaskStarted { step_id, task_id, node })),
            _ => false,
        },
        _ => false,
    }
}

/// The report on the exit of a task at position `i`.
pub open spec fn exit_report(ev: Seq<TimelineEventView>, i: int) -> ViolationView {
    match ev[i] {
        TimelineEventView::Boundary(e) => match e.kind {
            JobEventKindView::TaskExited { step_id, task_id, node } => ViolationView {
                invariant: "task_exited_requires_prior_task_started"@,
                description: "task_exited "@ + "step_id="@ + step_id + " task_id="@ + task_id
                    + " node="@ + node + " with no prior task_started"@,
            },
            _ => arbitrary(),
        },
        _ => arbitrary(),
    }
}

/// The event at position `i` starts a task on a node that no earlier event
/// allocates.
pub open spec fn starts_unallocated(ev: Seq<TimelineEventView>, i: int) -> bool {
    match ev[i] {
        TimelineEventView::Boundary(e) => match e.kind {
            JobEventKindView::TaskStarted { step_id, task_id, node } => forall|k: int|
                0 <= k < i ==> !(#[trigger] ev[k] matches TimelineEventView::Boundary(a) && (a.kind
                    matches JobEventKindView::NodeAllocated { node: allocated, .. } && allocated
                    == node)),
            _ => false,
        },
        _ => false,
    }
}

/// The report on the start of a task at position `i`.
pub open spec fn start_report(ev: Seq<TimelineEventView>, i: int) -> ViolationView {
    match ev[i] {
        TimelineEventView::Boundary(e) => match e.kind {
            JobEventKindView::TaskStarted { step_id, task_id, node } => ViolationView {
                invariant: "task_started_requires_prior_node_allocated"@,
                description: "task_started "@ + "step_id="@ + step_id + " task_id="@ + task_id
                    + " node="@ + node + " with no prior node_allocated"@,
            },
            _ => arbitrary(),
        },
        _ => arbitrary(),
    }
}

/// The event at position `i` is the first exit of the Job, and another event
/// follows it.
pub open spec fn job_exits_early(ev: Seq<TimelineEventView>, i: int) -> bool {
    &&& i + 1 < ev.len()
    &&& ev[i] matches TimelineEventView::Boundary(e) && e.kind is JobExited
    &&& forall|k: int|
        0 <= k < i ==> !(#[trigger] ev[k] matches TimelineEventView::Boundary(e)
            && e.kind is JobExited)
}

/// The report on the exit of the Job at position `i`.
pub open spec fn job_exit_report(ev: Seq<TimelineEventView>, i: int) -> ViolationView {
    ViolationView {
        invariant: "job_exited_is_last"@,
        description: "job_exited at position "@ + decimal(i as nat) + " is not the last event ("@
            + decimal((ev.len() - i - 1) as nat) + " more event(s) follow)"@,
    }
}

/// The event at position `c` connects a process's socket.
pub open spec fn connects_at(ev: Seq<TimelineEventView>, pid: u32, fd: i32, c: int) -> bool {
    &&& 0 <= c < ev.len()
    &&& ev[c] matches TimelineEventView::Message(m) && m.direction == "connect"@ && m.pid == pid
        && m.fd == fd
}

/// The event at position `c` is the first to connect a process's socket.
pub open spec fn connects_first(ev: Seq<TimelineEventView>, pid: u32, fd: i32, c: int) -> bool {
    connects_at(ev, pid, fd, c) && forall|k: int| k < c ==> !#[trigger] connects_at(ev, pid, fd, k)
}

/// The event at position `i` is a send or a receive on a socket that is
/// connected by a later event, and by none before it.
pub open spec fn acts_unconnected(ev: Seq<TimelineEventView>, i: int) -> bool {
    match ev[i] {
        TimelineEventView::Message(m) => {
            &&& m.direction == "send"@ || m.direction == "recv"@
            &&& exists|c: int| i < c && #[trigger] connects_at(ev, m.pid, m.fd, c)
            &&& forall|k: int| k < i ==> !#[trigger] connects_at(ev, m.pid, m.fd, k)
        },
        _ => false,
    }
}

/// The report on a send or a receive at position `i`.
pub open spec fn activity_report(ev: Seq<TimelineEventView>, i: int) -> ViolationView {
    match ev[i] {
        TimelineEventView::Message(m) => ViolationView {
            invariant: "connect_precedes_activity"@,
            description: "pid="@ + decimal(m.pid as nat) + " fd="@ + signed_decimal(m.fd as int)
                + " "@ + m.direction + " at position "@ + decimal(i as nat) + " (timestamp_ms="@
                + decimal(m.timestamp_ms as nat) + ") precedes its own connect at position "@
                + decimal((choose|c: int| connects_first(ev, m.pid, m.fd, c)) as nat),
        },
        _ => arbitrary(),
    }
}

/// The event at position `x` is the exit of a task.
pub open spec fn exits_at(
    ev: Seq<TimelineEventView>,
    step_id: Seq<char>,
    task_id: Seq<char>,
    node: Seq<char>,
    x: int,
) -> bool {
    &&& 0 <= x < ev.len()
    &&& ev[x] matches TimelineEventView::Boundary(e) && e.kind == (JobEventKindView::TaskExited {
        step_id,
        task_id,
        node,
    })
}

/// The event at position `x` is the first exit of a task.
pub open spec fn exits_first(
    ev: Seq<TimelineEventView>,
    step_id: Seq<char>,
    task_id: Seq<char>,
    node: Seq<char>,
    x: int,
) -> bool {
    exits_at(ev, step_id, task_id, node, x) && forall|k: int|
        k < x ==> !#[trigger] exits_at(ev, step_id, task_id, node, k)
}

/// The event at position `i` is a receive of a task that an earlier event
/// exits.
pub open spec fn receives_exited(ev: Seq<TimelineEventView>, i: int) -> bool {
    match ev[i] {
        TimelineEventView::Message(m) => match (m.step_id, m.task_id, m.node) {
            (Some(step_id), Some(task_id), Some(node)) => m.direction == "recv"@ && exists|x: int|
                x < i && #[trigger] exits_at(ev, step_id, task_id, node, x),
            _ => false,
        },
        _ => false,
    }
}

/// The report on a receive at position `i`.
pub open spec fn receive_report(ev: Seq<TimelineEventView>, i: int) -> ViolationView {
    match ev[i] {
        TimelineEventView::Message(m) => match (m.step_id, m.task_id, m.node) {
            (Some(step_id), Some(task_id), Some(node)) => ViolationView {
                invariant: "recv_precedes_task_exited"@,
                description: "step_id="@ + step_id + " task_id="@ + task_id + " node="@ + node
                    + " recv at position "@ + decimal(i as nat) + " (pid="@ + decimal(m.pid as nat)
                    + ", fd="@ + signed_decimal(m.fd as int)
                    + ") follows its own task_exited at position "@ + decimal(
                    (choose|x: int| exits_first(ev, step_id, task_id, node, x)) as nat,
                ),
            },
            _ => arbitrary(),
        },
        _ => arbitrary(),
    }
}

/// One report for each exit of a task that was not started, in order.
pub open spec fn tells_exits(ev: Seq<TimelineEventView>, found: Seq<ViolationView>) -> bool {
    one_for_each(
        found,
        ev.len() as int,
        |i: int| exits_unstarted(ev, i),
        |i: int| exit_report(ev, i),
    )
}

/// One report for the first exit of the Job, where something follows it.
pub open spec fn tells_job_exit(ev: Seq<TimelineEventView>, found: Seq<ViolationView>) -> bool {
    one_for_each(
        found,
        ev.len() as int,
        |i: int| job_exits_early(ev, i),
        |i: int| job_exit_report(ev, i),
    )
}

/// One report for each start of a task on a node that was not allocated, in
/// order.
pub open spec fn tells_starts(ev: Seq<TimelineEventView>, found: Seq<ViolationView>) -> bool {
    one_for_each(
        found,
        ev.len() as int,
        |i: int| starts_unallocated(ev, i),
        |i: int| start_report(ev, i),
    )
}

/// One report for each send or receive that comes before the connect of its
/// socket, in order.
pub open spec fn tells_activity(ev: Seq<TimelineEventView>, found: Seq<ViolationView>) -> bool {
    one_for_each(
        found,
        ev.len() as int,
        |i: int| acts_unconnected(ev, i),
        |i: int| activity_report(ev, i),
    )
}

/// One report for each receive of a task that has exited, in order.
pub open spec fn tells_receives(ev: Seq<TimelineEventView>, found: Seq<ViolationView>) -> bool {
    one_for_each(
        found,
        ev.len() as int,
        |i: int| receives_exited(ev, i),
        |i: int| receive_report(ev, i),
    )
}

/// A report on a timeline has one violation for each event that breaks an
/// invariant: those of the exits of tasks first, then that of the Job's exit,
/// those of the starts of tasks, of sends and receives, and of receives of
/// exited tasks.
pub open spec fn tells_all(ev: Seq<TimelineEventView>, found: Seq<ViolationView>) -> bool {
    exists|
        exits: Seq<ViolationView>,
        job_exit: Seq<ViolationView>,
        starts: Seq<ViolationView>,
        activity: Seq<ViolationView>,
        receives: Seq<ViolationView>,
    |
        {
            &&& found == exits + job_exit + starts + activity + receives
            &&& #[trigger] tells_exits(ev, exits)
            &&& #[trigger] tells_job_exit(ev, job_exit)
            &&& #[trigger] tells_starts(ev, starts)
            &&& #[trigger] tells_activity(ev, activity)
            &&& #[trigger] tells_receives(ev, receives)
        }
}

proof fn lemma_collected_tells(
    n: nat,
    rule: spec_fn(int) -> Option<ViolationView>,
    p: spec_fn(int) -> bool,
    item: spec_fn(int) -> ViolationView,
)
    requires
        forall|i: int|
            0 <= i < n ==> #[trigger] rule(i) == if p(i) {
                Some(item(i))
            } else {
                None
            },
    ensures
        one_for_each(collected(n, rule), n as int, p, item),
    decreases n,
{
    if n == 0 {
        lemma_one_for_none(p, item);
    } else {
        let before = collected((n - 1) as nat, rule);
        lemma_collected_tells((n - 1) as nat, rule, p, item);
        lemma_one_for_next(before, n - 1, p, item);
        assert(rule(n - 1) == if p(n - 1) {
            Some(item(n - 1))
        } else {
            None
        });
    }
}

proof fn lemma_exits(ev: Seq<TimelineEventView>)
    ensures
        tells_exits(ev, collected(ev.len(), unstarted_exit_rule(ev))),
{
    let p = |i: int| exits_unstarted(ev, i);
    let item = |i: int| exit_report(ev, i);
    let rule = unstarted_exit_rule(ev);
    assert forall|i: int| 0 <= i < ev.len() implies #[trigger] rule(i) == if p(i) {
        Some(item(i))
    } else {
        None
    } by {
        if let TimelineEventView::Boundary(e) = ev[i] {
            if let JobEventKindView::TaskExited { step_id, task_id, node } = e.kind {
                if exits_unstarted(ev, i) {
                    assert forall|k: int| 0 <= k < i implies !is_task_started(
                        #[trigger] ev[k],
                        step_id,
                        task_id,
                        node,
                    ) by {}
                    assert(rule(i)->0.description =~= exit_report(ev, i).description);
                } else {
                    let k = choose|k: int|
                        0 <= k < i && (#[trigger] ev[k] matches TimelineEventView::Boundary(s)
                            && s.kind == (JobEventKindView::TaskStarted {
                            step_id,
                            task_id,
                            node,
                        }));
                    assert(is_task_started(ev[k], step_id, task_id, node));
                }
            }
        }
    }
    lemma_collected_tells(ev.len(), rule, p, item);
}

proof fn lemma_starts(ev: Seq<TimelineEventView>)
    ensures
        tells_starts(ev, collected(ev.len(), unallocated_start_rule(ev))),
{
    let p = |i: int| starts_unallocated(ev, i);
    let item = |i: int| start_report(ev, i);
    let rule = unallocated_start_rule(ev);
    assert forall|i: int| 0 <= i < ev.len() implies #[trigger] rule(i) == if p(i) {
        Some(item(i))
    } else {
        None
    } by {
        if let TimelineEventView::Boundary(e) = ev[i] {
            if let JobEventKindView::TaskStarted { step_id, task_id, node } = e.kind {
                if starts_unallocated(ev, i) {
                    assert forall|k: int| 0 <= k < i implies !is_node_allocated(
                        #[trigger] ev[k],
                        node,
                    ) by {}
                    assert(rule(i)->0.description =~= start_report(ev, i).description);
                } else {
                    let k = choose|k: int|
                        0 <= k < i && (#[trigger] ev[k] matches TimelineEventView::Boundary(a) && (
                        a.kind matches JobEventKindView::NodeAllocated { node: allocated, .. }
                            && allocated == node));
                    assert(is_node_allocated(ev[k], node));
                }
            }
        }
    }
    lemma_collected_tells(ev.len(), rule, p, item);
}

proof fn lemma_job_exit_upto(ev: Seq<TimelineEventView>, n: int)
    requires
        0 <= n <= ev.len(),
    ensures
        one_for_each(
            if exists|i: int| 0 <= i < n && job_exits_early(ev, i) {
                seq![job_exit_report(ev, choose|i: int| 0 <= i < n && job_exits_early(ev, i))]
            } else {
                Seq::empty()
            },
            n,
            |i: int| job_exits_early(ev, i),
            |i: int| job_exit_report(ev, i),
        ),
    decreases n,
{
    let p = |i: int| job_exits_early(ev, i);
    let item = |i: int| job_exit_report(ev, i);
    if n == 0 {
        lemma_one_for_none(p, item);
    } else {
        let m = n - 1;
        lemma_job_exit_upto(ev, m);
        let before = if exists|i: int| 0 <= i < m && job_exits_early(ev, i) {
            seq![job_exit_report(ev, choose|i: int| 0 <= i < m && job_exits_early(ev, i))]
        } else {
            Seq::empty()
        };
        lemma_one_for_next(before, m, p, item);
        assert forall|i: int, j: int|
            0 <= i && 0 <= j && #[trigger] job_exits_early(ev, i) && #[trigger] job_exits_early(
                ev,
                j,
            ) implies i == j by {
            if i < j {
                assert(!(ev[i] matches TimelineEventView::Boundary(e) && e.kind is JobExited));
            } else if j < i {
                assert(!(ev[j] matches TimelineEventView::Boundary(e) && e.kind is JobExited));
            }
        }
        if job_exits_early(ev, m) {
            assert(before =~= Seq::empty());
            assert(before.push(item(m)) =~= seq![job_exit_report(ev, m)]);
        } else {
            if exists|i: int| 0 <= i < n && job_exits_early(ev, i) {
                let i = choose|i: int| 0 <= i < n && job_exits_early(ev, i);
                assert(0 <= i < m && job_exits_early(ev, i));
            }
        }
    }
}

proof fn lemma_job_exit(ev: Seq<TimelineEventView>)
    ensures
        tells_job_exit(ev, early_job_exit(ev)),
{
    lemma_job_exit_upto(ev, ev.len() as int);
    let early = early_job_exit(ev);
    assert forall|i: int|
        0 <= i < ev.len() implies (#[trigger] job_exits_early(ev, i) <==> is_first_job_exited(
        ev,
        i,
    ) && i + 1 < ev.len()) by {
        if job_exits_early(ev, i) {
            assert forall|k: int| 0 <= k < i implies !is_job_exited(#[trigger] ev[k]) by {}
        }
        if is_first_job_exited(ev, i) {
            assert forall|k: int| 0 <= k < i implies !(#[trigger] ev[k] matches
                TimelineEventView::Boundary(e) && e.kind is JobExited) by {
                assert(!is_job_exited(ev[k]));
            }
        }
    }
    if exists|i: int| 0 <= i < ev.len() && job_exits_early(ev, i) {
        let i = choose|i: int| 0 <= i < ev.len() && job_exits_early(ev, i);
        assert(is_first_job_exited(ev, i) && i + 1 < ev.len());
        let pos = choose|pos: int| is_first_job_exited(ev, pos) && pos + 1 < ev.len();
        assert(job_exits_early(ev, pos));
        assert(pos == i) by {
            if pos < i {
                assert(!(ev[pos] matches TimelineEventView::Boundary(e) && e.kind is JobExited));
            } else if i < pos {
                assert(!(ev[i] matches TimelineEventView::Boundary(e) && e.kind is JobExited));
            }
        }
        assert(early =~= seq![job_exit_report(ev, i)]);
    } else {
        if exists|pos: int| is_first_job_exited(ev, pos) && pos + 1 < ev.len() {
            let pos = choose|pos: int| is_first_job_exited(ev, pos) && pos + 1 < ev.len();
            assert(job_exits_early(ev, pos));
        }
    }
}

proof fn lemma_connects_first(ev: Seq<TimelineEventView>, pid: u32, fd: i32)
    ensures
        forall|c: int| #[trigger] connects_first(ev, pid, fd, c) <==> is_first_connect(
            ev,
            pid,
            fd,
            c,
        ),
        forall|c: int, d: int| #[trigger]
            connects_first(ev, pid, fd, c) && #[trigger] connects_first(ev, pid, fd, d) ==> c == d,
{
    assert forall|c: int| #[trigger] connects_first(ev, pid, fd, c) <==> is_first_connect(
        ev,
        pid,
        fd,
        c,
    ) by {
        if connects_first(ev, pid, fd, c) {
            assert forall|k: int| 0 <= k < c implies !is_connect(#[trigger] ev[k], pid, fd) by {
                assert(!connects_at(ev, pid, fd, k));
            }
        }
        if is_first_connect(ev, pid, fd, c) {
            assert forall|k: int| k < c implies !#[trigger] connects_at(ev, pid, fd, k) by {
                if 0 <= k {
                    assert(!is_connect(ev[k], pid, fd));
                }
            }
        }
    }
    assert forall|c: int, d: int| #[trigger]
        connects_first(ev, pid, fd, c) && #[trigger] connects_first(ev, pid, fd, d) implies c
        == d by {
        if c < d {
            assert(!connects_at(ev, pid, fd, c));
        } else if d < c {
            assert(!connects_at(ev, pid, fd, d));
        }
    }
}

proof fn lemma_some_connects_first(ev: Seq<TimelineEventView>, pid: u32, fd: i32, c: int) -> (f:
    int)
    requires
        connects_at(ev, pid, fd, c),
    ensures
        connects_first(ev, pid, fd, f),
        f <= c,
    decreases c,
{
    if exists|k: int| k < c && connects_at(ev, pid, fd, k) {
        let k = choose|k: int| k < c && connects_at(ev, pid, fd, k);
        lemma_some_connects_first(ev, pid, fd, k)
    } else {
        c
    }
}

proof fn lemma_activity(ev: Seq<TimelineEventView>)
    ensures
        tells_activity(ev, collected(ev.len(), early_activity_rule(ev))),
{
    let p = |i: int| acts_unconnected(ev, i);
    let item = |i: int| activity_report(ev, i);
    let rule = early_activity_rule(ev);
    assert forall|i: int| 0 <= i < ev.len() implies #[trigger] rule(i) == if p(i) {
        Some(item(i))
    } else {
        None
    } by {
        if let TimelineEventView::Message(m) = ev[i] {
            lemma_connects_first(ev, m.pid, m.fd);
            if m.direction == "send"@ || m.direction == "recv"@ {
                if acts_unconnected(ev, i) {
                    let later = choose|c: int| i < c && #[trigger] connects_at(ev, m.pid, m.fd, c);
                    let f = lemma_some_connects_first(ev, m.pid, m.fd, later);
                    assert(f != i) by {
                        if f == i {
                            reveal_strlit("connect");
                            reveal_strlit("send");
                            reveal_strlit("recv");
                            assert("connect"@.len() != "send"@.len());
                            assert("connect"@.len() != "recv"@.len());
                        }
                    }
                    if f < i {
                        assert(!connects_at(ev, m.pid, m.fd, f));
                    }
                    assert(is_first_connect(ev, m.pid, m.fd, f));
                    let c = choose|c: int| i < c && is_first_connect(ev, m.pid, m.fd, c);
                    assert(connects_first(ev, m.pid, m.fd, c) && connects_first(
                        ev,
                        m.pid,
                        m.fd,
                        f,
                    ));
                    let d = choose|c: int| connects_first(ev, m.pid, m.fd, c);
                    assert(connects_first(ev, m.pid, m.fd, d));
                    assert(c == d);
                } else if exists|c: int| i < c && is_first_connect(ev, m.pid, m.fd, c) {
                    let c = choose|c: int| i < c && is_first_connect(ev, m.pid, m.fd, c);
                    assert(connects_first(ev, m.pid, m.fd, c));
                    assert(connects_at(ev, m.pid, m.fd, c));
                    assert forall|k: int| k < i implies !#[trigger] connects_at(
                        ev,
                        m.pid,
                        m.fd,
                        k,
                    ) by {}
                    assert(acts_unconnected(ev, i));
                }
            }
        }
    }
    lemma_collected_tells(ev.len(), rule, p, item);
}

proof fn lemma_exits_first(
    ev: Seq<TimelineEventView>,
    step_id: Seq<char>,
    task_id: Seq<char>,
    node: Seq<char>,
)
    ensures
        forall|x: int| #[trigger]
            exits_first(ev, step_id, task_id, node, x) <==> is_first_task_exited(
                ev,
                step_id,
                task_id,
                node,
                x,
            ),
        forall|x: int, y: int| #[trigger]
            exits_first(ev, step_id, task_id, node, x) && #[trigger] exits_first(
                ev,
                step_id,
                task_id,
                node,
                y,
            ) ==> x == y,
{
    assert forall|x: int| #[trigger]
        exits_first(ev, step_id, task_id, node, x) <==> is_first_task_exited(
            ev,
            step_id,
            task_id,
            node,
            x,
        ) by {
        if exits_first(ev, step_id, task_id, node, x) {
            assert forall|k: int| 0 <= k < x implies !is_task_exited(
                #[trigger] ev[k],
                step_id,
                task_id,
                node,
            ) by {
                assert(!exits_at(ev, step_id, task_id, node, k));
            }
        }
        if is_first_task_exited(ev, step_id, task_id, node, x) {
            assert forall|k: int| k < x implies !#[trigger] exits_at(
                ev,
                step_id,
                task_id,
                node,
                k,
            ) by {
                if 0 <= k {
                    assert(!is_task_exited(ev[k], step_id, task_id, node));
                }
            }
        }
    }
    assert forall|x: int, y: int| #[trigger]
        exits_first(ev, step_id, task_id, node, x) && #[trigger] exits_first(
            ev,
            step_id,
            task_id,
            node,
            y,
        ) implies x == y by {
        if x < y {
            assert(!exits_at(ev, step_id, task_id, node, x));
        } else if y < x {
            assert(!exits_at(ev, step_id, task_id, node, y));
        }
    }
}

proof fn lemma_some_exits_first(
    ev: Seq<TimelineEventView>,
    step_id: Seq<char>,
    task_id: Seq<char>,
    node: Seq<char>,
    x: int,
) -> (f: int)
    requires
        exits_at(ev, step_id, task_id, node, x),
    ensures
        exits_first(ev, step_id, task_id, node, f),
        f <= x,
    decreases x,
{
    if exists|k: int| k < x && exits_at(ev, step_id, task_id, node, k) {
        let k = choose|k: int| k < x && exits_at(ev, step_id, task_id, node, k);
        lemma_some_exits_first(ev, step_id, task_id, node, k)
    } else {
        x
    }
}

proof fn lemma_receives(ev: Seq<TimelineEventView>)
    ensures
        tells_receives(ev, collected(ev.len(), late_recv_rule(ev))),
{
    let p = |i: int| receives_exited(ev, i);
    let item = |i: int| receive_report(ev, i);
    let rule = late_recv_rule(ev);
    assert forall|i: int| 0 <= i < ev.len() implies #[trigger] rule(i) == if p(i) {
        Some(item(i))
    } else {
        None
    } by {
        if let TimelineEventView::Message(m) = ev[i] {
            if let (Some(step_id), Some(task_id), Some(node)) = (m.step_id, m.task_id, m.node) {
                lemma_exits_first(ev, step_id, task_id, node);
                if m.direction == "recv"@ {
                    if receives_exited(ev, i) {
                        let earlier = choose|x: int|
                            x < i && #[trigger] exits_at(ev, step_id, task_id, node, x);
                        let f = lemma_some_exits_first(ev, step_id, task_id, node, earlier);
                        assert(is_first_task_exited(ev, step_id, task_id, node, f));
                        let x = choose|x: int|
                            x < i && is_first_task_exited(ev, step_id, task_id, node, x);
                        assert(exits_first(ev, step_id, task_id, node, x));
                        let d = choose|x: int| exits_first(ev, step_id, task_id, node, x);
                        assert(exits_first(ev, step_id, task_id, node, d));
                        assert(x == d);
                        assert(rule(i)->0.description =~= receive_report(ev, i).description);
                    } else if exists|x: int|
                        x < i && is_first_task_exited(ev, step_id, task_id, node, x) {
                        let x = choose|x: int|
                            x < i && is_first_task_exited(ev, step_id, task_id, node, x);
                        assert(exits_first(ev, step_id, task_id, node, x));
                        assert(exits_at(ev, step_id, task_id, node, x));
                    }
                }
            }
        }
    }
    lemma_collected_tells(ev.len(), rule, p, item);
}

/// Each invariant reports every event that breaks it, one violation for each,
/// in the order of the events.
pub proof fn law_each_invariant_reports_every_event(ev: Seq<TimelineEventView>)
    ensures
        tells_exits(ev, collected(ev.len(), unstarted_exit_rule(ev))),
        tells_job_exit(ev, early_job_exit(ev)),
        tells_starts(ev, collected(ev.len(), unallocated_start_rule(ev))),
        tells_activity(ev, collected(ev.len(), early_activity_rule(ev))),
        tells_receives(ev, collected(ev.len(), late_recv_rule(ev))),
{
    lemma_exits(ev);
    lemma_job_exit(ev);
    lemma_starts(ev);
    lemma_activity(ev);
    lemma_receives(ev);
}

/// The report on a timeline holds one violation for each event that breaks an
/// invariant, and no others.
pub proof fn law_report_is_complete(ev: Seq<TimelineEventView>)
    ensures
        tells_all(ev, violations(ev)),
{
    law_each_invariant_reports_every_event(ev);
}

/// Each invariant reports as many violations as there are events that break it,
/// and the report on a timeline has all of them.
pub proof fn law_violations_are_counted(ev: Seq<TimelineEventView>)
    ensures
        ({
            let all = set_int_range(0, ev.len() as int);
            let exits = all.filter(|i: int| exits_unstarted(ev, i)).len();
            let job_exit = all.filter(|i: int| job_exits_early(ev, i)).len();
            let starts = all.filter(|i: int| starts_unallocated(ev, i)).len();
            let activity = all.filter(|i: int| acts_unconnected(ev, i)).len();
            let receives = all.filter(|i: int| receives_exited(ev, i)).len();
            &&& collected(ev.len(), unstarted_exit_rule(ev)).len() == exits
            &&& early_job_exit(ev).len() == job_exit
            &&& collected(ev.len(), unallocated_start_rule(ev)).len() == starts
            &&& collected(ev.len(), early_activity_rule(ev)).len() == activity
            &&& collected(ev.len(), late_recv_rule(ev)).len() == receives
            &&& violations(ev).len() == exits + job_exit + starts + activity + receives
        }),
{
    let n = ev.len() as int;
    law_each_invariant_reports_every_event(ev);
    law_one_for_each_counts(
        collected(ev.len(), unstarted_exit_rule(ev)),
        n,
        |i: int| exits_unstarted(ev, i),
        |i: int| exit_report(ev, i),
    );
    law_one_for_each_counts(
        early_job_exit(ev),
        n,
        |i: int| job_exits_early(ev, i),
        |i: int| job_exit_report(ev, i),
    );
    law_one_for_each_counts(
        collected(ev.len(), unallocated_start_rule(ev)),
        n,
        |i: int| starts_unallocated(ev, i),
        |i: int| start_report(ev, i),
    );
    law_one_for_each_counts(
        collected(ev.len(), early_activity_rule(ev)),
        n,
        |i: int| acts_unconnected(ev, i),
        |i: int| activity_report(ev, i),
    );
    law_one_for_each_counts(
        collected(ev.len(), late_recv_rule(ev)),
        n,
        |i: int| receives_exited(ev, i),
        |i: int| receive_report(ev, i),
    );
}

} // verus!
