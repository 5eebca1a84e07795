//! What replaying a Run, or a Job's merged timeline, writes and returns.

use vstd::prelude::*;

use crate::event::{
    run_stream, timeline, Event, EventKind, EventKindView, EventView, JobEventKind,
    JobEventKindView, MessageEvent, MessageEventView, TimelineEvent, TimelineEventView,
};
use crate::invariants::{push_task_key, task_key};
use crate::replay_laws::{
    is_exit_with, law_job_exits_with_its_last_code, law_run_exits_with_its_last_code,
    law_run_replays_each_line, law_timeline_replays_each_row, tells_run, tells_timeline,
};
use crate::text::{push_signed_decimal, signed_decimal};

verus! {

/// One line of output, with the stream that it goes to.
#[derive(Debug, PartialEq)]
pub enum OutputLine {
    Stdout(String),
    Stderr(String),
}

/// The model of an `OutputLine`.
#[verifier::ext_equal]
pub enum LineView {
    Stdout(Seq<char>),
    Stderr(Seq<char>),
}

impl View for OutputLine {
    type V = LineView;

    open spec fn view(&self) -> LineView {
        match *self {
            OutputLine::Stdout(line) => LineView::Stdout(line@),
            OutputLine::Stderr(line) => LineView::Stderr(line@),
        }
    }
}

/// The models of a list of lines.
pub open spec fn written(lines: Seq<OutputLine>) -> Seq<LineView> {
    lines.map_values(|l: OutputLine| l@)
}

/// The outcome of a replay: the lines it writes, in order, and the exit code
/// that it reports, if it saw one.
#[derive(Debug, PartialEq)]
pub struct Replayed {
    pub lines: Vec<OutputLine>,
    pub exit_code: Option<i32>,
}

/// The lines that a Run event replays as.
pub open spec fn run_event_lines(kind: EventKindView) -> Seq<LineView> {
    match kind {
        EventKindView::Stdout { line } => seq![LineView::Stdout(line)],
        EventKindView::Stderr { line } => seq![LineView::Stderr(line)],
        _ => Seq::empty(),
    }
}

/// The lines that a Run replays as: those of its events, in order.
pub open spec fn run_lines(events: Seq<EventView>) -> Seq<LineView>
    decreases events.len(),
{
    if events.len() == 0 {
        Seq::empty()
    } else {
        run_lines(events.drop_last()) + run_event_lines(events.last().kind)
    }
}

/// The exit code of a Run: that of its last `ProcessExit`.
pub open spec fn run_exit(events: Seq<EventView>) -> Option<i32>
    decreases events.len(),
{
    if events.len() == 0 {
        None
    } else {
        match events.last().kind {
            EventKindView::ProcessExit { exit_code } => Some(exit_code),
            _ => run_exit(events.drop_last()),
        }
    }
}

/// Replays a Run's events: `Stdout` and `Stderr` lines go to their streams in
/// the order of the events. The exit code is that of the last `ProcessExit`,
/// or `None` where there is none.
pub fn drain_events(events: Vec<Event>) -> (res: Replayed)
    ensures
        written(res.lines@) == run_lines(run_stream(events@)),
        res.exit_code == run_exit(run_stream(events@)),
        tells_run(run_stream(events@), written(res.lines@)),
        forall|i: int|
            0 <= i < events@.len() && (#[trigger] events@[i]).kind is ProcessExit && (forall|k: int|
                i < k < events@.len() ==> !((#[trigger] events@[k]).kind is ProcessExit))
                ==> res.exit_code == Some(events@[i].kind->exit_code),
        (forall|i: int| 0 <= i < events@.len() ==> !((#[trigger] events@[i]).kind is ProcessExit))
            ==> res.exit_code is None,
{
    let ghost ev = run_stream(events@);
    let mut lines: Vec<OutputLine> = Vec::new();
    let mut exit_code: Option<i32> = None;
    let mut i: usize = 0;
    assert(written(lines@) =~= run_lines(ev.take(0)));
    while i < events.len()
        invariant
            i <= events@.len(),
            ev == run_stream(events@),
            written(lines@) == run_lines(ev.take(i as int)),
            exit_code == run_exit(ev.take(i as int)),
        decreases events@.len() - i,
    {
        let ghost before = lines@;
        assert(ev[i as int] == events@[i as int]@);
        assert(ev.take(i + 1).drop_last() =~= ev.take(i as int));
        match &events[i].kind {
            EventKind::Stdout { line } => {
                lines.push(OutputLine::Stdout(line.clone()));
            },
            EventKind::Stderr { line } => {
                lines.push(OutputLine::Stderr(line.clone()));
            },
            EventKind::ProcessExit { exit_code: code } => {
                exit_code = Some(*code);
            },
            EventKind::ProcessStart { .. } => {},
        }
        assert(written(lines@) =~= written(before) + run_event_lines(ev[i as int].kind));
        i = i + 1;
    }
    assert(ev.take(i as int) =~= ev);
    proof {
        law_run_replays_each_line(ev);
        law_run_exits_with_its_last_code(ev);
        assert forall|k: int| 0 <= k < ev.len() implies (#[trigger] ev[k]).kind is ProcessExit
            == events@[k].kind is ProcessExit by {}
        assert forall|k: int|
            0 <= k < events@.len() && (#[trigger] events@[k]).kind is ProcessExit && (forall|l: int|
                k < l < events@.len() ==> !((#[trigger] events@[l]).kind is ProcessExit))
            implies exit_code == Some(events@[k].kind->exit_code) by {
            assert(ev[k].kind is ProcessExit);
            assert forall|l: int| k < l < ev.len() implies !((
            #[trigger] ev[l]).kind is ProcessExit) by {
                assert(!(events@[l].kind is ProcessExit));
            }
        }
        if forall|k: int| 0 <= k < events@.len() ==> !((
        #[trigger] events@[k]).kind is ProcessExit) {
            assert forall|l: int| 0 <= l < ev.len() implies !((
            #[trigger] ev[l]).kind is ProcessExit) by {
                assert(!(events@[l].kind is ProcessExit));
            }
        }
    }
    Replayed { lines, exit_code }
}

/// The annotation that a boundary event replays as.
pub open spec fn boundary_line(kind: JobEventKindView) -> Seq<char> {
    match kind {
        JobEventKindView::NodeAllocated { node, user, work_dir } => "[job] node_allocated node="@
            + node + " user="@ + user + " work_dir="@ + work_dir,
        JobEventKindView::TaskStarted { step_id, task_id, node } => "[job] task_started "@
            + task_key(step_id, task_id, node),
        JobEventKindView::TaskExited { step_id, task_id, node } => "[job] task_exited "@
            + task_key(step_id, task_id, node),
        JobEventKindView::JobExited { exit_code, signal, job_name, node_list } =>
        "[job] job_exited exit_code="@ + signed_decimal(exit_code as int) + " signal="@
            + signed_decimal(signal as int) + " job_name="@ + job_name + " node_list="@ + node_list,
    }
}

/// The annotation that a message replays as.
pub open spec fn message_line(msg: MessageEventView) -> Seq<char> {
    "[msg] "@ + msg.direction + " peer="@ + (match msg.peer {
        Some(peer) => peer,
        None => "?"@,
    }) + " bytes="@ + signed_decimal(msg.bytes as int)
}

/// The lines that a row of a timeline replays as.
pub open spec fn row_lines(e: TimelineEventView) -> Seq<LineView> {
    match e {
        TimelineEventView::Run(event) => run_event_lines(event.kind),
        TimelineEventView::Boundary(job_event) => seq![
            LineView::Stderr(boundary_line(job_event.kind)),
        ],
        TimelineEventView::Message(msg) => seq![LineView::Stderr(message_line(msg))],
    }
}

/// The lines that a timeline replays as: those of its rows, in order.
pub open spec fn timeline_lines(ev: Seq<TimelineEventView>) -> Seq<LineView>
    decreases ev.len(),
{
    if ev.len() == 0 {
        Seq::empty()
    } else {
        timeline_lines(ev.drop_last()) + row_lines(ev.last())
    }
}

/// The exit code that a row gives the Job.
pub open spec fn row_exit(e: TimelineEventView) -> Option<i32> {
    match e {
        TimelineEventView::Boundary(job_event) => match job_event.kind {
            JobEventKindView::JobExited { exit_code, .. } => Some(exit_code),
            _ => None,
        },
        _ => None,
    }
}

/// The exit code of a Job: that of its last `JobExited`.
pub open spec fn job_exit(ev: Seq<TimelineEventView>) -> Option<i32>
    decreases ev.len(),
{
    if ev.len() == 0 {
        None
    } else {
        match row_exit(ev.last()) {
            Some(code) => Some(code),
            None => job_exit(ev.drop_last()),
        }
    }
}

/// The annotation that a boundary event replays as.
pub fn boundary_text(kind: &JobEventKind) -> (res: String)
    ensures
        res@ == boundary_line(kind@),
{
    match kind {
        JobEventKind::NodeAllocated { node, user, work_dir } => {
            let mut text = String::from_str("[job] node_allocated node=");
            text.append(node.as_str());
            text.append(" user=");
            text.append(user.as_str());
            text.append(" work_dir=");
            text.append(work_dir.as_str());
            text
        },
        JobEventKind::TaskStarted { step_id, task_id, node } => {
            let mut text = String::from_str("[job] task_started ");
            push_task_key(&mut text, step_id.as_str(), task_id.as_str(), node.as_str());
            text
        },
        JobEventKind::TaskExited { step_id, task_id, node } => {
            let mut text = String::from_str("[job] task_exited ");
            push_task_key(&mut text, step_id.as_str(), task_id.as_str(), node.as_str());
            text
        },
        JobEventKind::JobExited { exit_code, signal, job_name, node_list } => {
            let mut text = String::from_str("[job] job_exited exit_code=");
            push_signed_decimal(&mut text, *exit_code as i64);
            text.append(" signal=");
            push_signed_decimal(&mut text, *signal as i64);
            text.append(" job_name=");
            text.append(job_name.as_str());
            text.append(" node_list=");
            text.append(node_list.as_str());
            text
        },
    }
}

/// The annotation that a message replays as.
pub fn message_text(msg: &MessageEvent) -> (res: String)
    ensures
        res@ == message_line(msg@),
{
    let mut text = String::from_str("[msg] ");
    text.append(msg.direction.as_str());
    text.append(" peer=");
    match &msg.peer {
        Some(peer) => {
            text.append(peer.as_str());
        },
        None => {
            text.append("?");
        },
    }
    text.append(" bytes=");
    push_signed_decimal(&mut text, msg.bytes);
    text
}

/// A row is the exit of its Job.
pub open spec fn exits_job(e: TimelineEvent) -> bool {
    e matches TimelineEvent::Boundary(job_event) && job_event.kind is JobExited
}

/// Replays a Job's timeline. Run events replay as in `drain_events`; boundary
/// events and messages are annotated on the error stream. The exit code is
/// that of the last `JobExited`, not of any Run, or `None` where there is
/// none.
pub fn drain_timeline_events(events: Vec<TimelineEvent>) -> (res: Replayed)
    ensures
        written(res.lines@) == timeline_lines(timeline(events@)),
        res.exit_code == job_exit(timeline(events@)),
        tells_timeline(timeline(events@), written(res.lines@)),
        forall|i: int|
            0 <= i < events@.len() && exits_job(#[trigger] events@[i]) && (forall|k: int|
                i < k < events@.len() ==> !exits_job(#[trigger] events@[k])) ==> res.exit_code
                == Some(events@[i]->Boundary_0.kind->JobExited_exit_code),
        (forall|i: int| 0 <= i < events@.len() ==> !exits_job(#[trigger] events@[i]))
            ==> res.exit_code is None,
{
    let ghost ev = timeline(events@);
    let mut lines: Vec<OutputLine> = Vec::new();
    let mut exit_code: Option<i32> = None;
    let mut i: usize = 0;
    assert(written(lines@) =~= timeline_lines(ev.take(0)));
    while i < events.len()
        invariant
            i <= events@.len(),
            ev == timeline(events@),
            written(lines@) == timeline_lines(ev.take(i as int)),
            exit_code == job_exit(ev.take(i as int)),
        decreases events@.len() - i,
    {
        let ghost before = lines@;
        assert(ev[i as int] == events@[i as int]@);
        assert(ev.take(i + 1).drop_last() =~= ev.take(i as int));
        match &events[i] {
            TimelineEvent::Run(event) => match &event.kind {
                EventKind::Stdout { line } => {
                    lines.push(OutputLine::Stdout(line.clone()));
                },
                EventKind::Stderr { line } => {
                    lines.push(OutputLine::Stderr(line.clone()));
                },
                EventKind::ProcessExit { .. } => {},
                EventKind::ProcessStart { .. } => {},
            },
            TimelineEvent::Boundary(job_event) => {
                lines.push(OutputLine::Stderr(boundary_text(&job_event.kind)));
                match &job_event.kind {
                    JobEventKind::JobExited { exit_code: code, .. } => {
                        exit_code = Some(*code);
                    },
                    _ => {},
                }
            },
            TimelineEvent::Message(msg) => {
                lines.push(OutputLine::Stderr(message_text(msg)));
            },
        }
        assert(written(lines@) =~= written(before) + row_lines(ev[i as int]));
        i = i + 1;
    }
    assert(ev.take(i as int) =~= ev);
    proof {
        law_timeline_replays_each_row(ev);
        law_job_exits_with_its_last_code(ev);
        assert forall|k: int|
            0 <= k < events@.len() && exits_job(#[trigger] events@[k]) && (forall|l: int|
                k < l < events@.len() ==> !exits_job(#[trigger] events@[l])) implies exit_code
            == Some(events@[k]->Boundary_0.kind->JobExited_exit_code) by {
            let code = events@[k]->Boundary_0.kind->JobExited_exit_code;
            assert(ev[k] == events@[k]@);
            assert(is_exit_with(ev[k], code));
            assert forall|l: int, other: i32| k < l < ev.len() implies !#[trigger] is_exit_with(
                ev[l],
                other,
            ) by {
                assert(!exits_job(events@[l]));
            }
        }
        if forall|k: int| 0 <= k < events@.len() ==> !exits_job(#[trigger] events@[k]) {
            assert forall|l: int, other: i32| 0 <= l < ev.len() implies !#[trigger] is_exit_with(
                ev[l],
                other,
            ) by {
                assert(!exits_job(events@[l]));
            }
        }
    }
    Replayed { lines, exit_code }
}

proof fn lemma_timeline_lines_concat(a: Seq<TimelineEventView>, b: Seq<TimelineEventView>)
    ensures
        timeline_lines(a + b) == timeline_lines(a) + timeline_lines(b),
    decreases b.len(),
{
    if b.len() == 0 {
        assert(a + b =~= a);
        assert(timeline_lines(a) + timeline_lines(b) =~= timeline_lines(a));
    } else {
        lemma_timeline_lines_concat(a, b.drop_last());
        assert((a + b).drop_last() =~= a + b.drop_last());
        assert(timeline_lines(a + b) =~= timeline_lines(a) + timeline_lines(b));
    }
}

proof fn lemma_job_exit_concat(a: Seq<TimelineEventView>, b: Seq<TimelineEventView>)
    ensures
        job_exit(a + b) == match job_exit(b) {
            Some(code) => Some(code),
            None => job_exit(a),
        },
    decreases b.len(),
{
    if b.len() == 0 {
        assert(a + b =~= a);
    } else {
        lemma_job_exit_concat(a, b.drop_last());
        assert((a + b).drop_last() =~= a + b.drop_last());
    }
}

/// Dropping a row from a timeline removes the lines of that row from what is
/// replayed, and nothing else.
pub proof fn law_drop_removes_only_its_lines(ev: Seq<TimelineEventView>, i: int)
    requires
        0 <= i < ev.len(),
    ensures
        timeline_lines(ev) == timeline_lines(ev.take(i)) + row_lines(ev[i]) + timeline_lines(
            ev.skip(i + 1),
        ),
        timeline_lines(ev.remove(i)) == timeline_lines(ev.take(i)) + timeline_lines(
            ev.skip(i + 1),
        ),
{
    assert(ev.take(i + 1).drop_last() =~= ev.take(i));
    lemma_timeline_lines_concat(ev.take(i + 1), ev.skip(i + 1));
    assert(ev =~= ev.take(i + 1) + ev.skip(i + 1));
    lemma_timeline_lines_concat(ev.take(i), ev.skip(i + 1));
    assert(ev.remove(i) =~= ev.take(i) + ev.skip(i + 1));
}

/// Dropping a row other than a `JobExited` leaves the exit code as it is: only
/// a dropped `JobExited` can change the reported outcome, or make it absent.
pub proof fn law_drop_keeps_exit_code(ev: Seq<TimelineEventView>, i: int)
    requires
        0 <= i < ev.len(),
        row_exit(ev[i]) is None,
    ensures
        job_exit(ev.remove(i)) == job_exit(ev),
{
    assert(ev.take(i + 1).drop_last() =~= ev.take(i));
    assert(ev =~= ev.take(i + 1) + ev.skip(i + 1));
    assert(ev.remove(i) =~= ev.take(i) + ev.skip(i + 1));
    lemma_job_exit_concat(ev.take(i + 1), ev.skip(i + 1));
    lemma_job_exit_concat(ev.take(i), ev.skip(i + 1));
}

/// The row at position `i` gives an exit code, and none after it does.
pub open spec fn is_last_exit(ev: Seq<TimelineEventView>, i: int) -> bool {
    &&& 0 <= i < ev.len()
    &&& row_exit(ev[i]) is Some
    &&& forall|k: int| i < k < ev.len() ==> row_exit(#[trigger] ev[k]) is None
}

proof fn lemma_last_exit(ev: Seq<TimelineEventView>, i: int)
    requires
        is_last_exit(ev, i),
    ensures
        job_exit(ev) == row_exit(ev[i]),
    decreases ev.len(),
{
    let rest = ev.drop_last();
    if i < rest.len() {
        assert(row_exit(ev[rest.len() as int]) is None);
        assert forall|k: int| i < k < rest.len() implies row_exit(#[trigger] rest[k]) is None by {
            assert(row_exit(ev[k]) is None);
        }
        lemma_last_exit(rest, i);
    }
}

proof fn lemma_exit_is_given(ev: Seq<TimelineEventView>) -> (i: int)
    requires
        job_exit(ev) is Some,
    ensures
        is_last_exit(ev, i),
    decreases ev.len(),
{
    let rest = ev.drop_last();
    let n = rest.len() as int;
    assert(ev.last() == ev[n]);
    if row_exit(ev[n]) is Some {
        n
    } else {
        let i = lemma_exit_is_given(rest);
        assert forall|k: int| i < k < ev.len() implies row_exit(#[trigger] ev[k]) is None by {
            if k < n {
                assert(row_exit(rest[k]) is None);
            }
        }
        i
    }
}

proof fn lemma_exit_is_reported(ev: Seq<TimelineEventView>, i: int)
    requires
        0 <= i < ev.len(),
        row_exit(ev[i]) is Some,
    ensures
        job_exit(ev) is Some,
    decreases ev.len(),
{
    if i < ev.len() - 1 {
        lemma_exit_is_reported(ev.drop_last(), i);
    }
}

/// A Job reports an exit code exactly where its timeline holds a `JobExited`,
/// and then that of the last one.
pub proof fn law_exit_code_is_the_last(ev: Seq<TimelineEventView>)
    ensures
        job_exit(ev) is None <==> forall|i: int|
            0 <= i < ev.len() ==> row_exit(#[trigger] ev[i]) is None,
        forall|i: int| #[trigger] is_last_exit(ev, i) ==> job_exit(ev) == row_exit(ev[i]),
{
    if job_exit(ev) is Some {
        let i = lemma_exit_is_given(ev);
        assert(row_exit(ev[i]) is Some);
    }
    assert forall|i: int| job_exit(ev) is None && 0 <= i < ev.len() implies row_exit(
        #[trigger] ev[i],
    ) is None by {
        if row_exit(ev[i]) is Some {
            lemma_exit_is_reported(ev, i);
        }
    }
    assert forall|i: int| #[trigger] is_last_exit(ev, i) implies job_exit(ev) == row_exit(
        ev[i],
    ) by {
        lemma_last_exit(ev, i);
    }
}

/// No Run event decides the outcome of a Job: Run rows and messages give no
/// exit code.
pub proof fn law_only_boundary_rows_decide(ev: Seq<TimelineEventView>)
    requires
        forall|i: int| 0 <= i < ev.len() ==> !((#[trigger] ev[i]) is Boundary),
    ensures
        job_exit(ev) is None,
    decreases ev.len(),
{
    if ev.len() > 0 {
        assert(!(ev[ev.len() - 1] is Boundary));
        assert forall|i: int| 0 <= i < ev.drop_last().len() implies !((
        #[trigger] ev.drop_last()[i]) is Boundary) by {
            assert(!(ev[i] is Boundary));
        }
        law_only_boundary_rows_decide(ev.drop_last());
    }
}

} // verus!
