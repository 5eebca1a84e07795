//! What a replay writes and returns, event by event.

use vstd::prelude::*;

use crate::event::{EventKindView, EventView, JobEventKindView, TimelineEventView};
use crate::listing::{
    lemma_one_for_each_agrees, lemma_one_for_next, lemma_one_for_none, one_for_each,
};
use crate::replay::{job_exit, run_exit, run_lines, timeline_lines, LineView};
use crate::text::signed_decimal;

verus! {

/// The line of a Run event that has one: its own text, on its own stream.
pub open spec fn line_of(kind: EventKindView) -> LineView {
    match kind {
        EventKindView::Stdout { line } => LineView::Stdout(line),
        EventKindView::Stderr { line } => LineView::Stderr(line),
        _ => arbitrary(),
    }
}

/// One line for each `Stdout` and `Stderr` event of a Run, in order, with its
/// text and on its stream.
pub open spec fn tells_run(ev: Seq<EventView>, lines: Seq<LineView>) -> bool {
    one_for_each(
        lines,
        ev.len() as int,
        |i: int| ev[i].kind is Stdout || ev[i].kind is Stderr,
        |i: int| line_of(ev[i].kind),
    )
}

/// A Run replays as one line for each of its `Stdout` and `Stderr` events, in
/// their order.
pub proof fn law_run_replays_each_line(ev: Seq<EventView>)
    ensures
        tells_run(ev, run_lines(ev)),
    decreases ev.len(),
{
    let p = |i: int| ev[i].kind is Stdout || ev[i].kind is Stderr;
    let item = |i: int| line_of(ev[i].kind);
    if ev.len() == 0 {
        lemma_one_for_none(p, item);
    } else {
        let rest = ev.drop_last();
        let n = rest.len() as int;
        law_run_replays_each_line(rest);
        lemma_one_for_each_agrees(
            run_lines(rest),
            n,
            |i: int| rest[i].kind is Stdout || rest[i].kind is Stderr,
            p,
            |i: int| line_of(rest[i].kind),
            item,
        );
        lemma_one_for_next(run_lines(rest), n, p, item);
        if p(n) {
            assert(run_lines(ev) =~= run_lines(rest).push(item(n)));
        } else {
            assert(run_lines(ev) =~= run_lines(rest));
        }
    }
}

/// A Run's exit code is that of its last `ProcessExit`, and there is none where
/// it has no such event.
pub proof fn law_run_exits_with_its_last_code(ev: Seq<EventView>)
    ensures
        forall|i: int|
            0 <= i < ev.len() && (#[trigger] ev[i]).kind is ProcessExit && (forall|k: int|
                i < k < ev.len() ==> !((#[trigger] ev[k]).kind is ProcessExit)) ==> run_exit(ev)
                == Some(ev[i].kind->exit_code),
        (forall|i: int| 0 <= i < ev.len() ==> !((#[trigger] ev[i]).kind is ProcessExit))
            ==> run_exit(ev) is None,
    decreases ev.len(),
{
    if ev.len() > 0 {
        let rest = ev.drop_last();
        let n = rest.len() as int;
        law_run_exits_with_its_last_code(rest);
        assert forall|i: int|
            0 <= i < ev.len() && (#[trigger] ev[i]).kind is ProcessExit && (forall|k: int|
                i < k < ev.len() ==> !((#[trigger] ev[k]).kind is ProcessExit)) implies run_exit(ev)
            == Some(ev[i].kind->exit_code) by {
            if i < n {
                assert(!(ev[n].kind is ProcessExit));
                assert(rest[i].kind is ProcessExit);
                assert forall|k: int| i < k < rest.len() implies !((
                #[trigger] rest[k]).kind is ProcessExit) by {
                    assert(!(ev[k].kind is ProcessExit));
                }
            }
        }
        if forall|i: int| 0 <= i < ev.len() ==> !((#[trigger] ev[i]).kind is ProcessExit) {
            assert(!(ev[n].kind is ProcessExit));
            assert forall|i: int| 0 <= i < rest.len() implies !((
            #[trigger] rest[i]).kind is ProcessExit) by {
                assert(!(ev[i].kind is ProcessExit));
            }
        }
    }
}

/// A row of a timeline is shown: an output line of a Run, a boundary event or a
/// message.
pub open spec fn is_shown(e: TimelineEventView) -> bool {
    match e {
        TimelineEventView::Run(event) => event.kind is Stdout || event.kind is Stderr,
        TimelineEventView::Boundary(_) => true,
        TimelineEventView::Message(_) => true,
    }
}

/// The line of a row that is shown: an output line on its own stream, and else
/// an annotation on the error stream that names what happened.
pub open spec fn shown_line(e: TimelineEventView) -> LineView {
    match e {
        TimelineEventView::Run(event) => line_of(event.kind),
        TimelineEventView::Boundary(event) => LineView::Stderr(
            match event.kind {
                JobEventKindView::NodeAllocated { node, user, work_dir } =>
                "[job] node_allocated node="@ + node + " user="@ + user + " work_dir="@ + work_dir,
                JobEventKindView::TaskStarted { step_id, task_id, node } => "[job] task_started "@
                    + "step_id="@ + step_id + " task_id="@ + task_id + " node="@ + node,
                JobEventKindView::TaskExited { step_id, task_id, node } => "[job] task_exited "@
                    + "step_id="@ + step_id + " task_id="@ + task_id + " node="@ + node,
                JobEventKindView::JobExited { exit_code, signal, job_name, node_list } =>
                "[job] job_exited exit_code="@ + signed_decimal(exit_code as int) + " signal="@
                    + signed_decimal(signal as int) + " job_name="@ + job_name + " node_list="@
                    + node_list,
            },
        ),
        TimelineEventView::Message(msg) => LineView::Stderr(
            "[msg] "@ + msg.direction + " peer="@ + (if msg.peer is Some {
                msg.peer->0
            } else {
                "?"@
            }) + " bytes="@ + signed_decimal(msg.bytes as int),
        ),
    }
}

/// One line for each row of a timeline that is shown, in order.
pub open spec fn tells_timeline(ev: Seq<TimelineEventView>, lines: Seq<LineView>) -> bool {
    one_for_each(
        lines,
        ev.len() as int,
        |i: int| is_shown(ev[i]),
        |i: int| shown_line(ev[i]),
    )
}

/// A timeline replays as one line for each output line of its Runs, each of its
/// boundary events and each of its messages, in their order.
pub proof fn law_timeline_replays_each_row(ev: Seq<TimelineEventView>)
    ensures
        tells_timeline(ev, timeline_lines(ev)),
    decreases ev.len(),
{
    let p = |i: int| is_shown(ev[i]);
    let item = |i: int| shown_line(ev[i]);
    if ev.len() == 0 {
        lemma_one_for_none(p, item);
    } else {
        let rest = ev.drop_last();
        let n = rest.len() as int;
        law_timeline_replays_each_row(rest);
        lemma_one_for_each_agrees(
            timeline_lines(rest),
            n,
            |i: int| is_shown(rest[i]),
            p,
            |i: int| shown_line(rest[i]),
            item,
        );
        lemma_one_for_next(timeline_lines(rest), n, p, item);
        if p(n) {
            let lines = crate::replay::row_lines(ev[n]);
            match (lines[0], shown_line(ev[n])) {
                (LineView::Stderr(a), LineView::Stderr(b)) => {
                    assert(a =~= b);
                },
                _ => {},
            }
            assert(lines =~= seq![shown_line(ev[n])]);
            assert(timeline_lines(ev) =~= timeline_lines(rest).push(item(n)));
        } else {
            assert(timeline_lines(ev) =~= timeline_lines(rest));
        }
    }
}

/// A row is the exit of its Job, with the given code.
pub open spec fn is_exit_with(e: TimelineEventView, code: i32) -> bool {
    e matches TimelineEventView::Boundary(event) && (event.kind matches
        JobEventKindView::JobExited { exit_code, .. } && exit_code == code)
}

/// A Job's exit code is the one in its last `JobExited`, whatever that is, and
/// there is none where the timeline has no such event.
pub proof fn law_job_exits_with_its_last_code(ev: Seq<TimelineEventView>)
    ensures
        forall|i: int, code: i32|
            0 <= i < ev.len() && #[trigger] is_exit_with(ev[i], code) && (forall|k: int, other: i32|
                i < k < ev.len() ==> !#[trigger] is_exit_with(ev[k], other)) ==> job_exit(ev)
                == Some(code),
        (forall|i: int, code: i32| 0 <= i < ev.len() ==> !#[trigger] is_exit_with(ev[i], code))
            ==> job_exit(ev) is None,
    decreases ev.len(),
{
    if ev.len() > 0 {
        let rest = ev.drop_last();
        let n = rest.len() as int;
        law_job_exits_with_its_last_code(rest);
        assert forall|i: int, code: i32|
            0 <= i < ev.len() && #[trigger] is_exit_with(ev[i], code) && (forall|k: int, other: i32|
                i < k < ev.len() ==> !#[trigger] is_exit_with(ev[k], other)) implies job_exit(ev)
            == Some(code) by {
            if i < n {
                lemma_not_an_exit(ev, n);
                assert(is_exit_with(rest[i], code));
                assert forall|k: int, other: i32|
                    i < k < rest.len() implies !#[trigger] is_exit_with(rest[k], other) by {
                    assert(!is_exit_with(ev[k], other));
                }
            }
        }
        if forall|i: int, code: i32| 0 <= i < ev.len() ==> !#[trigger] is_exit_with(ev[i], code) {
            lemma_not_an_exit(ev, n);
            assert forall|i: int, code: i32| 0 <= i < rest.len() implies !#[trigger] is_exit_with(
                rest[i],
                code,
            ) by {
                assert(!is_exit_with(ev[i], code));
            }
        }
    }
}

proof fn lemma_not_an_exit(ev: Seq<TimelineEventView>, n: int)
    requires
        0 <= n < ev.len(),
        forall|other: i32| !#[trigger] is_exit_with(ev[n], other),
    ensures
        crate::replay::row_exit(ev[n]) is None,
{
    if let Some(code) = crate::replay::row_exit(ev[n]) {
        assert(is_exit_with(ev[n], code));
    }
}

} // verus!
