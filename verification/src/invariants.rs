//! The structural invariants of a Job's timeline.
//!
//! Each invariant is an independent, pure function from a timeline to the
//! violations that it finds. `check` runs them all.

use vstd::prelude::*;

use crate::event::{
    timeline, JobEventKind, JobEventKindView, MessageEvent, TimelineEvent, TimelineEventView,
};
use crate::invariant_reports::{
    law_each_invariant_reports_every_event, law_report_is_complete, tells_activity, tells_all,
    tells_exits, tells_job_exit, tells_receives, tells_starts,
};
use crate::text::{decimal, push_decimal, push_signed_decimal, same_text, signed_decimal};

verus! {

/// One structural inconsistency found in a timeline.
#[derive(Debug, Clone, PartialEq)]
pub struct Violation {
    /// The name of the invariant that the timeline violates.
    pub invariant: &'static str,
    pub description: String,
}

/// The model of a `Violation`.
#[verifier::ext_equal]
pub struct ViolationView {
    pub invariant: Seq<char>,
    pub description: Seq<char>,
}

impl View for Violation {
    type V = ViolationView;

    open spec fn view(&self) -> ViolationView {
        ViolationView { invariant: self.invariant@, description: self.description@ }
    }
}

/// The models of a list of violations.
pub open spec fn reports(violations: Seq<Violation>) -> Seq<ViolationView> {
    violations.map_values(|v: Violation| v@)
}

/// What a rule finds at the positions below `n`, in order.
pub open spec fn collected(n: nat, rule: spec_fn(int) -> Option<ViolationView>) -> Seq<
    ViolationView,
>
    decreases n,
{
    if n == 0 {
        Seq::empty()
    } else {
        let before = collected((n - 1) as nat, rule);
        match rule(n - 1) {
            Some(v) => before.push(v),
            None => before,
        }
    }
}

/// The start of a task.
pub open spec fn is_task_started(
    e: TimelineEventView,
    step_id: Seq<char>,
    task_id: Seq<char>,
    node: Seq<char>,
) -> bool {
    e matches TimelineEventView::Boundary(job_event) && job_event.kind
        == (JobEventKindView::TaskStarted { step_id, task_id, node })
}

/// The exit of a task.
pub open spec fn is_task_exited(
    e: TimelineEventView,
    step_id: Seq<char>,
    task_id: Seq<char>,
    node: Seq<char>,
) -> bool {
    e matches TimelineEventView::Boundary(job_event) && job_event.kind
        == (JobEventKindView::TaskExited { step_id, task_id, node })
}

/// The allocation of a node.
pub open spec fn is_node_allocated(e: TimelineEventView, allocated: Seq<char>) -> bool {
    e matches TimelineEventView::Boundary(job_event) && (job_event.kind matches
        JobEventKindView::NodeAllocated { node, .. } && node == allocated)
}

/// The exit of the Job.
pub open spec fn is_job_exited(e: TimelineEventView) -> bool {
    e matches TimelineEventView::Boundary(job_event) && job_event.kind is JobExited
}

/// The connection of a process's socket.
pub open spec fn is_connect(e: TimelineEventView, pid: u32, fd: i32) -> bool {
    e matches TimelineEventView::Message(msg) && msg.direction == "connect"@ && msg.pid == pid
        && msg.fd == fd
}

/// `at` lists, in ascending order, positions below `n`, among them each whose
/// event meets `p`.
spec fn lists(
    at: Seq<usize>,
    ev: Seq<TimelineEventView>,
    n: int,
    p: spec_fn(TimelineEventView) -> bool,
) -> bool {
    &&& forall|m: int| 0 <= m < at.len() ==> (#[trigger] at[m]) < n
    &&& forall|m: int, l: int| 0 <= m < l < at.len() ==> (#[trigger] at[m]) < (#[trigger] at[l])
    &&& forall|k: int|
        0 <= k < n && p(#[trigger] ev[k]) ==> exists|m: int|
            0 <= m < at.len() && #[trigger] at[m] == k
}

proof fn lemma_lists_push(
    at: Seq<usize>,
    ev: Seq<TimelineEventView>,
    n: usize,
    p: spec_fn(TimelineEventView) -> bool,
)
    requires
        lists(at, ev, n as int, p),
    ensures
        lists(at.push(n), ev, n + 1, p),
{
    let pushed = at.push(n);
    assert forall|k: int| 0 <= k < n + 1 && p(#[trigger] ev[k]) implies exists|m: int|
        0 <= m < pushed.len() && #[trigger] pushed[m] == k by {
        if k < n {
            let m = choose|m: int| 0 <= m < at.len() && #[trigger] at[m] == k;
            assert(pushed[m] == k);
        } else {
            assert(pushed[at.len() as int] == k);
        }
    }
}

spec fn any_task_started() -> spec_fn(TimelineEventView) -> bool {
    |e: TimelineEventView|
        e matches TimelineEventView::Boundary(job_event) && job_event.kind is TaskStarted
}

/// What identifies a task in a report.
pub open spec fn task_key(step_id: Seq<char>, task_id: Seq<char>, node: Seq<char>) -> Seq<char> {
    "step_id="@ + step_id + " task_id="@ + task_id + " node="@ + node
}

/// Appends to a report what identifies a task.
pub fn push_task_key(out: &mut String, step_id: &str, task_id: &str, node: &str)
    ensures
        final(out)@ == old(out)@ + task_key(step_id@, task_id@, node@),
{
    out.append("step_id=");
    out.append(step_id);
    out.append(" task_id=");
    out.append(task_id);
    out.append(" node=");
    out.append(node);
    assert(out@ =~= old(out)@ + task_key(step_id@, task_id@, node@));
}

/// The violation at position `i`, if the event there is the exit of a task
/// that no earlier event starts.
pub open spec fn unstarted_exit(ev: Seq<TimelineEventView>, i: int) -> Option<ViolationView> {
    match ev[i] {
        TimelineEventView::Boundary(job_event) => match job_event.kind {
            JobEventKindView::TaskExited { step_id, task_id, node } => if exists|k: int|
                0 <= k < i && is_task_started(#[trigger] ev[k], step_id, task_id, node) {
                None
            } else {
                Some(
                    ViolationView {
                        invariant: "task_exited_requires_prior_task_started"@,
                        description: "task_exited "@ + task_key(step_id, task_id, node)
                            + " with no prior task_started"@,
                    },
                )
            },
            _ => None,
        },
        _ => None,
    }
}

pub open spec fn unstarted_exit_rule(ev: Seq<TimelineEventView>) -> spec_fn(int) -> Option<
    ViolationView,
> {
    |i: int| unstarted_exit(ev, i)
}

fn starts(event: &TimelineEvent, step: &String, task: &String, at: &String) -> (res: bool)
    ensures
        res == is_task_started(event@, step@, task@, at@),
{
    match event {
        TimelineEvent::Boundary(job_event) => match &job_event.kind {
            JobEventKind::TaskStarted { step_id, task_id, node } => *step_id == *step && *task_id
                == *task && *node == *at,
            _ => false,
        },
        _ => false,
    }
}

/// Whether one of the listed events starts a task.
fn any_starts(
    events: &[TimelineEvent],
    started: &Vec<usize>,
    n: usize,
    step: &String,
    task: &String,
    node: &String,
) -> (res: bool)
    requires
        n <= events@.len(),
        lists(started@, timeline(events@), n as int, any_task_started()),
    ensures
        res == exists|k: int|
            0 <= k < n && is_task_started(#[trigger] timeline(events@)[k], step@, task@, node@),
{
    let ghost ev = timeline(events@);
    let mut m: usize = 0;
    while m < started.len()
        invariant
            m <= started@.len(),
            n <= events@.len(),
            ev == timeline(events@),
            lists(started@, ev, n as int, any_task_started()),
            forall|l: int|
                0 <= l < m ==> !is_task_started(
                    ev[#[trigger] started@[l] as int],
                    step@,
                    task@,
                    node@,
                ),
        decreases started@.len() - m,
    {
        let k: usize = started[m];
        if starts(&events[k], step, task, node) {
            assert(is_task_started(ev[k as int], step@, task@, node@));
            return true;
        }
        m = m + 1;
    }
    assert forall|k: int| 0 <= k < n implies !is_task_started(
        #[trigger] ev[k],
        step@,
        task@,
        node@,
    ) by {
        if is_task_started(ev[k], step@, task@, node@) {
            assert(any_task_started()(ev[k]));
            let l = choose|l: int| 0 <= l < started@.len() && #[trigger] started@[l] == k;
            assert(!is_task_started(ev[started@[l] as int], step@, task@, node@));
        }
    }
    false
}

/// Every `TaskExited` must have an earlier `TaskStarted` for the same step,
/// task and node. One violation for each that has none, in timeline order.
pub fn task_exited_requires_prior_task_started(events: &[TimelineEvent]) -> (res: Vec<Violation>)
    ensures
        reports(res@) == collected(
            events@.len(),
            unstarted_exit_rule(timeline(events@)),
        ),
        tells_exits(timeline(events@), reports(res@)),
{
    let ghost ev = timeline(events@);
    let ghost rule = unstarted_exit_rule(ev);
    let mut started: Vec<usize> = Vec::new();
    let mut violations: Vec<Violation> = Vec::new();
    let mut i: usize = 0;
    assert(reports(violations@) =~= Seq::<ViolationView>::empty());
    while i < events.len()
        invariant
            i <= events@.len(),
            ev == timeline(events@),
            rule == unstarted_exit_rule(ev),
            lists(started@, ev, i as int, any_task_started()),
            reports(violations@) == collected(i as nat, rule),
        decreases events@.len() - i,
    {
        let ghost before = violations@;
        assert(ev[i as int] == events@[i as int]@);
        match &events[i] {
            TimelineEvent::Boundary(job_event) => match &job_event.kind {
                JobEventKind::TaskStarted { .. } => {
                    proof {
                        lemma_lists_push(started@, ev, i, any_task_started());
                    }
                    started.push(i);
                },
                JobEventKind::TaskExited { step_id, task_id, node } => {
                    if !any_starts(events, &started, i, step_id, task_id, node) {
                        let mut description = String::from_str("task_exited ");
                        push_task_key(
                            &mut description,
                            step_id.as_str(),
                            task_id.as_str(),
                            node.as_str(),
                        );
                        description.append(" with no prior task_started");
                        violations.push(
                            Violation {
                                invariant: "task_exited_requires_prior_task_started",
                                description,
                            },
                        );
                        assert(reports(violations@) =~= reports(before).push(
                            violations@[before.len() as int]@,
                        ));
                    }
                },
                _ => {},
            },
            _ => {},
        }
        assert(reports(violations@) == collected((i + 1) as nat, rule));
        i = i + 1;
    }
    proof {
        law_each_invariant_reports_every_event(ev);
    }
    violations
}

/// `pos` is the position of the first `JobExited`.
pub open spec fn is_first_job_exited(ev: Seq<TimelineEventView>, pos: int) -> bool {
    &&& 0 <= pos < ev.len()
    &&& is_job_exited(ev[pos])
    &&& forall|k: int| 0 <= k < pos ==> !is_job_exited(#[trigger] ev[k])
}

/// The violation of a timeline in which something follows the first
/// `JobExited`; at most one.
pub open spec fn early_job_exit(ev: Seq<TimelineEventView>) -> Seq<ViolationView> {
    if exists|pos: int| is_first_job_exited(ev, pos) && pos + 1 < ev.len() {
        let pos = choose|pos: int| is_first_job_exited(ev, pos) && pos + 1 < ev.len();
        seq![
            ViolationView {
                invariant: "job_exited_is_last"@,
                description: "job_exited at position "@ + decimal(pos as nat)
                    + " is not the last event ("@ + decimal((ev.len() - pos - 1) as nat)
                    + " more event(s) follow)"@,
            },
        ]
    } else {
        Seq::empty()
    }
}

/// `JobExited`, if present, must be the last event of the timeline. At most
/// one violation: that of the first `JobExited`, if anything follows it.
pub fn job_exited_is_last(events: &[TimelineEvent]) -> (res: Vec<Violation>)
    ensures
        reports(res@) == early_job_exit(timeline(events@)),
        tells_job_exit(timeline(events@), reports(res@)),
{
    let ghost ev = timeline(events@);
    let mut violations: Vec<Violation> = Vec::new();
    let mut pos: usize = 0;
    while pos < events.len()
        invariant_except_break
            violations@.len() == 0,
            forall|k: int| 0 <= k < pos ==> !is_job_exited(#[trigger] ev[k]),
        invariant
            pos <= events@.len(),
            ev == timeline(events@),
        ensures
            reports(violations@) == early_job_exit(ev),
        decreases events@.len() - pos,
    {
        assert(ev[pos as int] == events@[pos as int]@);
        let found: bool = match &events[pos] {
            TimelineEvent::Boundary(job_event) => match &job_event.kind {
                JobEventKind::JobExited { .. } => true,
                _ => false,
            },
            _ => false,
        };
        if found {
            proof {
                assert(is_first_job_exited(ev, pos as int));
                assert forall|q: int| is_first_job_exited(ev, q) implies q == pos by {
                    if q < pos {
                        assert(!is_job_exited(ev[q]));
                    } else if q > pos {
                        assert(!is_job_exited(ev[pos as int]));
                    }
                }
            }
            if pos + 1 < events.len() {
                let mut description = String::from_str("job_exited at position ");
                push_decimal(&mut description, pos as u128);
                description.append(" is not the last event (");
                push_decimal(&mut description, (events.len() - pos - 1) as u128);
                description.append(" more event(s) follow)");
                violations.push(Violation { invariant: "job_exited_is_last", description });
            }
            assert(reports(violations@) =~= early_job_exit(ev));
            break;
        }
        pos = pos + 1;
        assert(pos == events@.len() ==> reports(violations@) =~= early_job_exit(ev));
    }
    assert(events@.len() == 0 ==> reports(violations@) =~= early_job_exit(ev));
    proof {
        law_each_invariant_reports_every_event(ev);
    }
    violations
}

spec fn any_node_allocated() -> spec_fn(TimelineEventView) -> bool {
    |e: TimelineEventView|
        e matches TimelineEventView::Boundary(job_event) && job_event.kind is NodeAllocated
}

/// The violation at position `i`, if the event there starts a task on a node
/// that no earlier event allocates.
pub open spec fn unallocated_start(ev: Seq<TimelineEventView>, i: int) -> Option<ViolationView> {
    match ev[i] {
        TimelineEventView::Boundary(job_event) => match job_event.kind {
            JobEventKindView::TaskStarted { step_id, task_id, node } => if exists|k: int|
                0 <= k < i && is_node_allocated(#[trigger] ev[k], node) {
                None
            } else {
                Some(
                    ViolationView {
                        invariant: "task_started_requires_prior_node_allocated"@,
                        description: "task_started "@ + task_key(step_id, task_id, node)
                            + " with no prior node_allocated"@,
                    },
                )
            },
            _ => None,
        },
        _ => None,
    }
}

pub open spec fn unallocated_start_rule(ev: Seq<TimelineEventView>) -> spec_fn(int) -> Option<
    ViolationView,
> {
    |i: int| unallocated_start(ev, i)
}

fn allocates(event: &TimelineEvent, wanted: &String) -> (res: bool)
    ensures
        res == is_node_allocated(event@, wanted@),
{
    match event {
        TimelineEvent::Boundary(job_event) => match &job_event.kind {
            JobEventKind::NodeAllocated { node, .. } => *node == *wanted,
            _ => false,
        },
        _ => false,
    }
}

/// Whether one of the listed events allocates a node.
fn any_allocates(
    events: &[TimelineEvent],
    allocated: &Vec<usize>,
    n: usize,
    node: &String,
) -> (res: bool)
    requires
        n <= events@.len(),
        lists(allocated@, timeline(events@), n as int, any_node_allocated()),
    ensures
        res == exists|k: int|
            0 <= k < n && is_node_allocated(#[trigger] timeline(events@)[k], node@),
{
    let ghost ev = timeline(events@);
    let mut m: usize = 0;
    while m < allocated.len()
        invariant
            m <= allocated@.len(),
            n <= events@.len(),
            ev == timeline(events@),
            lists(allocated@, ev, n as int, any_node_allocated()),
            forall|l: int|
                0 <= l < m ==> !is_node_allocated(ev[#[trigger] allocated@[l] as int], node@),
        decreases allocated@.len() - m,
    {
        let k: usize = allocated[m];
        if allocates(&events[k], node) {
            assert(is_node_allocated(ev[k as int], node@));
            return true;
        }
        m = m + 1;
    }
    assert forall|k: int| 0 <= k < n implies !is_node_allocated(#[trigger] ev[k], node@) by {
        if is_node_allocated(ev[k], node@) {
            assert(any_node_allocated()(ev[k]));
            let l = choose|l: int| 0 <= l < allocated@.len() && #[trigger] allocated@[l] == k;
            assert(!is_node_allocated(ev[allocated@[l] as int], node@));
        }
    }
    false
}

/// Every `TaskStarted` must have an earlier `NodeAllocated` for the same node.
/// One violation for each that has none, in timeline order.
pub fn task_started_requires_prior_node_allocated(events: &[TimelineEvent]) -> (res: Vec<
    Violation,
>)
    ensures
        reports(res@) == collected(
            events@.len(),
            unallocated_start_rule(timeline(events@)),
        ),
        tells_starts(timeline(events@), reports(res@)),
{
    let ghost ev = timeline(events@);
    let ghost rule = unallocated_start_rule(ev);
    let mut allocated: Vec<usize> = Vec::new();
    let mut violations: Vec<Violation> = Vec::new();
    let mut i: usize = 0;
    assert(reports(violations@) =~= Seq::<ViolationView>::empty());
    while i < events.len()
        invariant
            i <= events@.len(),
            ev == timeline(events@),
            rule == unallocated_start_rule(ev),
            lists(allocated@, ev, i as int, any_node_allocated()),
            reports(violations@) == collected(i as nat, rule),
        decreases events@.len() - i,
    {
        let ghost before = violations@;
        assert(ev[i as int] == events@[i as int]@);
        match &events[i] {
            TimelineEvent::Boundary(job_event) => match &job_event.kind {
                JobEventKind::NodeAllocated { .. } => {
                    proof {
                        lemma_lists_push(allocated@, ev, i, any_node_allocated());
                    }
                    allocated.push(i);
                },
                JobEventKind::TaskStarted { step_id, task_id, node } => {
                    if !any_allocates(events, &allocated, i, node) {
                        let mut description = String::from_str("task_started ");
                        push_task_key(
                            &mut description,
                            step_id.as_str(),
                            task_id.as_str(),
                            node.as_str(),
                        );
                        description.append(" with no prior node_allocated");
                        violations.push(
                            Violation {
                                invariant: "task_started_requires_prior_node_allocated",
                                description,
                            },
                        );
                        assert(reports(violations@) =~= reports(before).push(
                            violations@[before.len() as int]@,
                        ));
                    }
                },
                _ => {},
            },
            _ => {},
        }
        assert(reports(violations@) == collected((i + 1) as nat, rule));
        i = i + 1;
    }
    proof {
        law_each_invariant_reports_every_event(ev);
    }
    violations
}

spec fn any_connect() -> spec_fn(TimelineEventView) -> bool {
    |e: TimelineEventView|
        e matches TimelineEventView::Message(msg) && msg.direction == "connect"@
}

/// `c` is the position of the first connect of a process's socket.
pub open spec fn is_first_connect(ev: Seq<TimelineEventView>, pid: u32, fd: i32, c: int) -> bool {
    &&& 0 <= c < ev.len()
    &&& is_connect(ev[c], pid, fd)
    &&& forall|k: int| 0 <= k < c ==> !is_connect(#[trigger] ev[k], pid, fd)
}

/// The violation at position `i`, if the event there is a send or a receive
/// on a socket whose first connect comes later.
pub open spec fn early_activity(ev: Seq<TimelineEventView>, i: int) -> Option<ViolationView> {
    match ev[i] {
        TimelineEventView::Message(msg) => if (msg.direction == "send"@ || msg.direction
            == "recv"@) && exists|c: int| i < c && is_first_connect(ev, msg.pid, msg.fd, c) {
            let c = choose|c: int| i < c && is_first_connect(ev, msg.pid, msg.fd, c);
            Some(
                ViolationView {
                    invariant: "connect_precedes_activity"@,
                    description: "pid="@ + decimal(msg.pid as nat) + " fd="@ + signed_decimal(
                        msg.fd as int,
                    ) + " "@ + msg.direction + " at position "@ + decimal(i as nat)
                        + " (timestamp_ms="@ + decimal(msg.timestamp_ms as nat)
                        + ") precedes its own connect at position "@ + decimal(c as nat),
                },
            )
        } else {
            None
        },
        _ => None,
    }
}

pub open spec fn early_activity_rule(ev: Seq<TimelineEventView>) -> spec_fn(int) -> Option<
    ViolationView,
> {
    |i: int| early_activity(ev, i)
}

fn connects(event: &TimelineEvent, pid: u32, fd: i32) -> (res: bool)
    ensures
        res == is_connect(event@, pid, fd),
{
    match event {
        TimelineEvent::Message(msg) => msg.pid == pid && msg.fd == fd && same_text(
            msg.direction.as_str(),
            "connect",
        ),
        _ => false,
    }
}

/// The first of the listed events that connects a process's socket.
fn first_connect(events: &[TimelineEvent], at: &Vec<usize>, pid: u32, fd: i32) -> (res: Option<
    usize,
>)
    requires
        lists(at@, timeline(events@), events@.len() as int, any_connect()),
    ensures
        match res {
            Some(c) => is_first_connect(timeline(events@), pid, fd, c as int),
            None => forall|c: int| !is_first_connect(timeline(events@), pid, fd, c),
        },
{
    let ghost ev = timeline(events@);
    let mut m: usize = 0;
    while m < at.len()
        invariant
            m <= at@.len(),
            ev == timeline(events@),
            lists(at@, ev, ev.len() as int, any_connect()),
            forall|l: int| 0 <= l < m ==> !is_connect(ev[#[trigger] at@[l] as int], pid, fd),
        decreases at@.len() - m,
    {
        let c: usize = at[m];
        if connects(&events[c], pid, fd) {
            assert forall|k: int| 0 <= k < c implies !is_connect(#[trigger] ev[k], pid, fd) by {
                if is_connect(ev[k], pid, fd) {
                    assert(any_connect()(ev[k]));
                    let l = choose|l: int| 0 <= l < at@.len() && #[trigger] at@[l] == k;
                    assert(at@[l] < at@[m as int]);
                }
            }
            assert(is_connect(ev[c as int], pid, fd));
            return Some(c);
        }
        m = m + 1;
    }
    assert forall|c: int| !is_first_connect(ev, pid, fd, c) by {
        if is_first_connect(ev, pid, fd, c) {
            assert(any_connect()(ev[c]));
            let l = choose|l: int| 0 <= l < at@.len() && #[trigger] at@[l] == c;
            assert(!is_connect(ev[at@[l] as int], pid, fd));
        }
    }
    None
}

/// The positions of all connects, in order.
fn connect_positions(events: &[TimelineEvent]) -> (at: Vec<usize>)
    ensures
        lists(at@, timeline(events@), events@.len() as int, any_connect()),
{
    let ghost ev = timeline(events@);
    let mut at: Vec<usize> = Vec::new();
    let mut i: usize = 0;
    while i < events.len()
        invariant
            i <= events@.len(),
            ev == timeline(events@),
            lists(at@, ev, i as int, any_connect()),
        decreases events@.len() - i,
    {
        assert(ev[i as int] == events@[i as int]@);
        match &events[i] {
            TimelineEvent::Message(msg) => {
                if same_text(msg.direction.as_str(), "connect") {
                    proof {
                        lemma_lists_push(at@, ev, i, any_connect());
                    }
                    at.push(i);
                }
            },
            _ => {},
        }
        i = i + 1;
    }
    at
}

fn early_activity_report(msg: &MessageEvent, i: usize, c: usize) -> (res: Violation)
    ensures
        res@ == (ViolationView {
            invariant: "connect_precedes_activity"@,
            description: "pid="@ + decimal(msg.pid as nat) + " fd="@ + signed_decimal(
                msg.fd as int,
            ) + " "@ + msg.direction@ + " at position "@ + decimal(i as nat)
                + " (timestamp_ms="@ + decimal(msg.timestamp_ms as nat)
                + ") precedes its own connect at position "@ + decimal(c as nat),
        }),
{
    let mut description = String::from_str("pid=");
    push_decimal(&mut description, msg.pid as u128);
    description.append(" fd=");
    push_signed_decimal(&mut description, msg.fd as i64);
    description.append(" ");
    description.append(msg.direction.as_str());
    description.append(" at position ");
    push_decimal(&mut description, i as u128);
    description.append(" (timestamp_ms=");
    push_decimal(&mut description, msg.timestamp_ms);
    description.append(") precedes its own connect at position ");
    push_decimal(&mut description, c as u128);
    Violation { invariant: "connect_precedes_activity", description }
}

/// Every send or receive must not come before the first connect of its own
/// process and socket, where one was logged. Checked by position, and for
/// each pair of process and socket on its own.
pub fn connect_precedes_activity(events: &[TimelineEvent]) -> (res: Vec<Violation>)
    ensures
        reports(res@) == collected(events@.len(), early_activity_rule(timeline(events@))),
        tells_activity(timeline(events@), reports(res@)),
{
    let ghost ev = timeline(events@);
    let ghost rule = early_activity_rule(ev);
    let at = connect_positions(events);
    let mut violations: Vec<Violation> = Vec::new();
    let mut i: usize = 0;
    assert(reports(violations@) =~= Seq::<ViolationView>::empty());
    while i < events.len()
        invariant
            i <= events@.len(),
            ev == timeline(events@),
            rule == early_activity_rule(ev),
            lists(at@, ev, ev.len() as int, any_connect()),
            reports(violations@) == collected(i as nat, rule),
        decreases events@.len() - i,
    {
        let ghost before = violations@;
        assert(ev[i as int] == events@[i as int]@);
        match &events[i] {
            TimelineEvent::Message(msg) => {
                if same_text(msg.direction.as_str(), "send") || same_text(
                    msg.direction.as_str(),
                    "recv",
                ) {
                    match first_connect(events, &at, msg.pid, msg.fd) {
                        Some(c) => {
                            proof {
                                lemma_first_connect_unique(ev, msg.pid, msg.fd, c as int);
                            }
                            if i < c {
                                violations.push(early_activity_report(msg, i, c));
                                assert(reports(violations@) =~= reports(before).push(
                                    violations@[before.len() as int]@,
                                ));
                            }
                        },
                        None => {},
                    }
                }
            },
            _ => {},
        }
        assert(reports(violations@) == collected((i + 1) as nat, rule));
        i = i + 1;
    }
    proof {
        law_each_invariant_reports_every_event(ev);
    }
    violations
}

proof fn lemma_first_connect_unique(ev: Seq<TimelineEventView>, pid: u32, fd: i32, c: int)
    requires
        is_first_connect(ev, pid, fd, c),
    ensures
        forall|d: int| is_first_connect(ev, pid, fd, d) ==> d == c,
{
    assert forall|d: int| is_first_connect(ev, pid, fd, d) implies d == c by {
        if d < c {
            assert(!is_connect(ev[d], pid, fd));
        } else if c < d {
            assert(!is_connect(ev[c], pid, fd));
        }
    }
}

spec fn any_task_exited() -> spec_fn(TimelineEventView) -> bool {
    |e: TimelineEventView|
        e matches TimelineEventView::Boundary(job_event) && job_event.kind is TaskExited
}

/// `x` is the position of the first exit of a task.
pub open spec fn is_first_task_exited(
    ev: Seq<TimelineEventView>,
    step_id: Seq<char>,
    task_id: Seq<char>,
    node: Seq<char>,
    x: int,
) -> bool {
    &&& 0 <= x < ev.len()
    &&& is_task_exited(ev[x], step_id, task_id, node)
    &&& forall|k: int| 0 <= k < x ==> !is_task_exited(#[trigger] ev[k], step_id, task_id, node)
}

/// The violation at position `i`, if the event there is a receive that is
/// attributed to a task whose first exit comes earlier.
pub open spec fn late_recv(ev: Seq<TimelineEventView>, i: int) -> Option<ViolationView> {
    match ev[i] {
        TimelineEventView::Message(msg) => match (msg.step_id, msg.task_id, msg.node) {
            (Some(step_id), Some(task_id), Some(node)) => if msg.direction == "recv"@ && exists|
                x: int,
            |
                x < i && is_first_task_exited(ev, step_id, task_id, node, x) {
                let x = choose|x: int|
                    x < i && is_first_task_exited(ev, step_id, task_id, node, x);
                Some(
                    ViolationView {
                        invariant: "recv_precedes_task_exited"@,
                        description: task_key(step_id, task_id, node) + " recv at position "@
                            + decimal(i as nat) + " (pid="@ + decimal(msg.pid as nat) + ", fd="@
                            + signed_decimal(msg.fd as int)
                            + ") follows its own task_exited at position "@ + decimal(x as nat),
                    },
                )
            } else {
                None
            },
            _ => None,
        },
        _ => None,
    }
}

pub open spec fn late_recv_rule(ev: Seq<TimelineEventView>) -> spec_fn(int) -> Option<
    ViolationView,
> {
    |i: int| late_recv(ev, i)
}

fn exits(event: &TimelineEvent, step: &String, task: &String, at: &String) -> (res: bool)
    ensures
        res == is_task_exited(event@, step@, task@, at@),
{
    match event {
        TimelineEvent::Boundary(job_event) => match &job_event.kind {
            JobEventKind::TaskExited { step_id, task_id, node } => *step_id == *step && *task_id
                == *task && *node == *at,
            _ => false,
        },
        _ => false,
    }
}

/// The first of the listed events that is the exit of a task.
fn first_task_exited(
    events: &[TimelineEvent],
    at: &Vec<usize>,
    step: &String,
    task: &String,
    node: &String,
) -> (res: Option<usize>)
    requires
        lists(at@, timeline(events@), events@.len() as int, any_task_exited()),
    ensures
        match res {
            Some(x) => is_first_task_exited(timeline(events@), step@, task@, node@, x as int),
            None => forall|x: int|
                !is_first_task_exited(timeline(events@), step@, task@, node@, x),
        },
{
    let ghost ev = timeline(events@);
    let mut m: usize = 0;
    while m < at.len()
        invariant
            m <= at@.len(),
            ev == timeline(events@),
            lists(at@, ev, ev.len() as int, any_task_exited()),
            forall|l: int|
                0 <= l < m ==> !is_task_exited(
                    ev[#[trigger] at@[l] as int],
                    step@,
                    task@,
                    node@,
                ),
        decreases at@.len() - m,
    {
        let x: usize = at[m];
        if exits(&events[x], step, task, node) {
            assert forall|k: int| 0 <= k < x implies !is_task_exited(
                #[trigger] ev[k],
                step@,
                task@,
                node@,
            ) by {
                if is_task_exited(ev[k], step@, task@, node@) {
                    assert(any_task_exited()(ev[k]));
                    let l = choose|l: int| 0 <= l < at@.len() && #[trigger] at@[l] == k;
                    assert(at@[l] < at@[m as int]);
                }
            }
            assert(is_task_exited(ev[x as int], step@, task@, node@));
            return Some(x);
        }
        m = m + 1;
    }
    assert forall|x: int| !is_first_task_exited(ev, step@, task@, node@, x) by {
        if is_first_task_exited(ev, step@, task@, node@, x) {
            assert(any_task_exited()(ev[x]));
            let l = choose|l: int| 0 <= l < at@.len() && #[trigger] at@[l] == x;
            assert(!is_task_exited(ev[at@[l] as int], step@, task@, node@));
        }
    }
    None
}

proof fn lemma_first_task_exited_unique(
    ev: Seq<TimelineEventView>,
    step_id: Seq<char>,
    task_id: Seq<char>,
    node: Seq<char>,
    x: int,
)
    requires
        is_first_task_exited(ev, step_id, task_id, node, x),
    ensures
        forall|y: int| is_first_task_exited(ev, step_id, task_id, node, y) ==> y == x,
{
    assert forall|y: int| is_first_task_exited(ev, step_id, task_id, node, y) implies y == x by {
        if y < x {
            assert(!is_task_exited(ev[y], step_id, task_id, node));
        } else if x < y {
            assert(!is_task_exited(ev[x], step_id, task_id, node));
        }
    }
}

/// The positions of all task exits, in order.
fn task_exited_positions(events: &[TimelineEvent]) -> (at: Vec<usize>)
    ensures
        lists(at@, timeline(events@), events@.len() as int, any_task_exited()),
{
    let ghost ev = timeline(events@);
    let mut at: Vec<usize> = Vec::new();
    let mut i: usize = 0;
    while i < events.len()
        invariant
            i <= events@.len(),
            ev == timeline(events@),
            lists(at@, ev, i as int, any_task_exited()),
        decreases events@.len() - i,
    {
        assert(ev[i as int] == events@[i as int]@);
        match &events[i] {
            TimelineEvent::Boundary(job_event) => match &job_event.kind {
                JobEventKind::TaskExited { .. } => {
                    proof {
                        lemma_lists_push(at@, ev, i, any_task_exited());
                    }
                    at.push(i);
                },
                _ => {},
            },
            _ => {},
        }
        i = i + 1;
    }
    at
}

fn late_recv_report(
    msg: &MessageEvent,
    step_id: &String,
    task_id: &String,
    node: &String,
    i: usize,
    x: usize,
) -> (res: Violation)
    ensures
        res@ == (ViolationView {
            invariant: "recv_precedes_task_exited"@,
            description: task_key(step_id@, task_id@, node@) + " recv at position "@ + decimal(
                i as nat,
            ) + " (pid="@ + decimal(msg.pid as nat) + ", fd="@ + signed_decimal(msg.fd as int)
                + ") follows its own task_exited at position "@ + decimal(x as nat),
        }),
{
    let mut description = String::new();
    push_task_key(&mut description, step_id.as_str(), task_id.as_str(), node.as_str());
    assert(description@ =~= task_key(step_id@, task_id@, node@));
    description.append(" recv at position ");
    push_decimal(&mut description, i as u128);
    description.append(" (pid=");
    push_decimal(&mut description, msg.pid as u128);
    description.append(", fd=");
    push_signed_decimal(&mut description, msg.fd as i64);
    description.append(") follows its own task_exited at position ");
    push_decimal(&mut description, x as u128);
    Violation { invariant: "recv_precedes_task_exited", description }
}

/// Every receive that is attributed to a step, a task and a node must not come
/// after that task's first `TaskExited`, where there is one. Receives without
/// a full attribution are skipped.
pub fn recv_precedes_task_exited(events: &[TimelineEvent]) -> (res: Vec<Violation>)
    ensures
        reports(res@) == collected(events@.len(), late_recv_rule(timeline(events@))),
        tells_receives(timeline(events@), reports(res@)),
{
    let ghost ev = timeline(events@);
    let ghost rule = late_recv_rule(ev);
    let at = task_exited_positions(events);
    let mut violations: Vec<Violation> = Vec::new();
    let mut i: usize = 0;
    assert(reports(violations@) =~= Seq::<ViolationView>::empty());
    while i < events.len()
        invariant
            i <= events@.len(),
            ev == timeline(events@),
            rule == late_recv_rule(ev),
            lists(at@, ev, ev.len() as int, any_task_exited()),
            reports(violations@) == collected(i as nat, rule),
        decreases events@.len() - i,
    {
        let ghost before = violations@;
        assert(ev[i as int] == events@[i as int]@);
        match &events[i] {
            TimelineEvent::Message(msg) => match (&msg.step_id, &msg.task_id, &msg.node) {
                (Some(step_id), Some(task_id), Some(node)) => {
                    if same_text(msg.direction.as_str(), "recv") {
                        match first_task_exited(events, &at, step_id, task_id, node) {
                            Some(x) => {
                                proof {
                                    lemma_first_task_exited_unique(
                                        ev,
                                        step_id@,
                                        task_id@,
                                        node@,
                                        x as int,
                                    );
                                }
                                if i > x {
                                    violations.push(
                                        late_recv_report(msg, step_id, task_id, node, i, x),
                                    );
                                    assert(reports(violations@) =~= reports(before).push(
                                        violations@[before.len() as int]@,
                                    ));
                                }
                            },
                            None => {},
                        }
                    }
                },
                _ => {},
            },
            _ => {},
        }
        assert(reports(violations@) == collected((i + 1) as nat, rule));
        i = i + 1;
    }
    proof {
        law_each_invariant_reports_every_event(ev);
    }
    violations
}

/// All violations of a timeline: what each invariant finds, one after the
/// other.
pub open spec fn violations(ev: Seq<TimelineEventView>) -> Seq<ViolationView> {
    collected(ev.len(), unstarted_exit_rule(ev)) + early_job_exit(ev) + collected(
        ev.len(),
        unallocated_start_rule(ev),
    ) + collected(ev.len(), early_activity_rule(ev)) + collected(ev.len(), late_recv_rule(ev))
}

fn extend(found: &mut Vec<Violation>, more: Vec<Violation>)
    ensures
        reports(final(found)@) == reports(old(found)@) + reports(more@),
{
    let mut more = more;
    let ghost added = more@;
    found.append(&mut more);
    assert(reports(found@) =~= reports(old(found)@) + reports(added));
}

/// Runs every invariant over `events` and concatenates what they find.
pub fn check(events: &[TimelineEvent]) -> (res: Vec<Violation>)
    ensures
        reports(res@) == violations(timeline(events@)),
        tells_all(timeline(events@), reports(res@)),
{
    let mut found = task_exited_requires_prior_task_started(events);
    extend(&mut found, job_exited_is_last(events));
    extend(&mut found, task_started_requires_prior_node_allocated(events));
    extend(&mut found, connect_precedes_activity(events));
    extend(&mut found, recv_precedes_task_exited(events));
    proof {
        law_report_is_complete(timeline(events@));
    }
    found
}

} // verus!
