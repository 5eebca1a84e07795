//! The models of values say all that the values hold, field by field.

use vstd::prelude::*;

use crate::cli::fuzz::FuzzArgs;
use crate::cli::replay::{
    opt_fault, opt_target, FaultSpec, FaultSpecView, ReplayArgs, Target, TargetView,
};
use crate::cli::trace_store::{
    DbFlagError, DbFlagErrorView, Selector, SelectorError, SelectorErrorView, SelectorView,
    StoreArgsError, StoreArgsErrorView, StoreCommand, StoreCommandView,
};
use crate::cli::{Command, CommandView};
use crate::event::{
    opt_text, run_stream, texts, timeline, Event, EventKind, EventKindView, JobEvent, JobEventKind,
    JobEventKindView, MessageEvent, TimelineEvent, TimelineEventView,
};
use crate::fault::{Fault, FaultView};
use crate::invariants::{reports, Violation};
use crate::replay::{written, LineView, OutputLine};
use crate::store::StoredEvent;

verus! {

/// An optional text and its model are present together, and are the same text.
pub open spec fn is_text_of(text: Option<Seq<char>>, of: Option<String>) -> bool {
    match (text, of) {
        (Some(t), Some(s)) => t == s@,
        (None, None) => true,
        _ => false,
    }
}

/// A list of texts has the texts of a list of strings, in order.
pub open spec fn are_texts_of(list: Seq<Seq<char>>, of: Seq<String>) -> bool {
    &&& list.len() == of.len()
    &&& forall|i: int| 0 <= i < of.len() ==> #[trigger] list[i] == of[i]@
}

/// The models of optional texts and of lists keep what they hold, in order.
pub proof fn law_lists_are_modelled_item_by_item(
    text: Option<String>,
    list: Seq<String>,
    events: Seq<Event>,
    rows: Seq<TimelineEvent>,
    found: Seq<Violation>,
    lines: Seq<OutputLine>,
)
    ensures
        is_text_of(opt_text(text), text),
        are_texts_of(texts(list), list),
        run_stream(events).len() == events.len(),
        forall|i: int| 0 <= i < events.len() ==> #[trigger] run_stream(events)[i] == events[i]@,
        timeline(rows).len() == rows.len(),
        forall|i: int| 0 <= i < rows.len() ==> #[trigger] timeline(rows)[i] == rows[i]@,
        reports(found).len() == found.len(),
        forall|i: int| 0 <= i < found.len() ==> #[trigger] reports(found)[i] == found[i]@,
        written(lines).len() == lines.len(),
        forall|i: int| 0 <= i < lines.len() ==> #[trigger] written(lines)[i] == lines[i]@,
{
}

/// The model of a Run event has each of its fields.
pub proof fn law_run_events_are_modelled(e: Event)
    ensures
        e@.run_id == e.run_id@,
        is_text_of(e@.job_id, e.job_id),
        e@.timestamp_ms == e.timestamp_ms,
        match (e.kind, e@.kind) {
            (
                EventKind::ProcessStart { image, command },
                EventKindView::ProcessStart { image: i, command: c },
            ) => i == image@ && are_texts_of(c, command@),
            (EventKind::Stdout { line }, EventKindView::Stdout { line: l }) => l == line@,
            (EventKind::Stderr { line }, EventKindView::Stderr { line: l }) => l == line@,
            (
                EventKind::ProcessExit { exit_code },
                EventKindView::ProcessExit { exit_code: c },
            ) => c == exit_code,
            _ => false,
        },
{
}

/// The model of a boundary event has each of its fields.
pub proof fn law_boundary_events_are_modelled(e: JobEvent)
    ensures
        e@.job_id == e.job_id@,
        e@.timestamp_ms == e.timestamp_ms,
        match (e.kind, e@.kind) {
            (
                JobEventKind::NodeAllocated { node, user, work_dir },
                JobEventKindView::NodeAllocated { node: n, user: u, work_dir: w },
            ) => n == node@ && u == user@ && w == work_dir@,
            (
                JobEventKind::TaskStarted { step_id, task_id, node },
                JobEventKindView::TaskStarted { step_id: s, task_id: t, node: n },
            ) => s == step_id@ && t == task_id@ && n == node@,
            (
                JobEventKind::TaskExited { step_id, task_id, node },
                JobEventKindView::TaskExited { step_id: s, task_id: t, node: n },
            ) => s == step_id@ && t == task_id@ && n == node@,
            (
                JobEventKind::JobExited { exit_code, signal, job_name, node_list },
                JobEventKindView::JobExited { exit_code: c, signal: s, job_name: j, node_list: n },
            ) => c == exit_code && s == signal && j == job_name@ && n == node_list@,
            _ => false,
        },
{
}

/// The model of a message has each of its fields.
pub proof fn law_messages_are_modelled(m: MessageEvent)
    ensures
        m@.pid == m.pid,
        m@.fd == m.fd,
        m@.direction == m.direction@,
        is_text_of(m@.peer, m.peer),
        m@.bytes == m.bytes,
        m@.timestamp_ms == m.timestamp_ms,
        is_text_of(m@.job_id, m.job_id),
        is_text_of(m@.step_id, m.step_id),
        is_text_of(m@.task_id, m.task_id),
        is_text_of(m@.node, m.node),
{
}

/// The model of a row of a timeline is that of the event it holds.
pub proof fn law_timeline_rows_are_modelled(e: TimelineEvent)
    ensures
        match (e, e@) {
            (TimelineEvent::Run(a), TimelineEventView::Run(b)) => b == a@,
            (TimelineEvent::Boundary(a), TimelineEventView::Boundary(b)) => b == a@,
            (TimelineEvent::Message(a), TimelineEventView::Message(b)) => b == a@,
            _ => false,
        },
{
}

/// The models of violations, output lines, stored rows and faults have each of
/// their fields.
pub proof fn law_results_are_modelled(v: Violation, l: OutputLine, r: StoredEvent, f: Fault)
    ensures
        v@.invariant == v.invariant@,
        v@.description == v.description@,
        match (l, l@) {
            (OutputLine::Stdout(a), LineView::Stdout(b)) => b == a@,
            (OutputLine::Stderr(a), LineView::Stderr(b)) => b == a@,
            _ => false,
        },
        is_text_of(r@.run_id, r.run_id),
        is_text_of(r@.job_id, r.job_id),
        r@.timestamp_ms == r.timestamp_ms,
        r@.kind == r.kind@,
        r@.payload == r.payload@,
        match (f, f@) {
            (Fault::DropEvent { index }, FaultView::DropEvent { index: i }) => i == index,
            (Fault::ReorderEvents { i, j }, FaultView::ReorderEvents { i: a, j: b }) => a == i && b
                == j,
            (
                Fault::CorruptNode { index, node },
                FaultView::CorruptNode { index: i, node: n },
            ) => i == index && n == node@,
            _ => false,
        },
{
}

/// The models of what the command line asks for have each of its fields.
pub proof fn law_commands_are_modelled(
    c: Command,
    f: FuzzArgs,
    r: ReplayArgs,
    s: FaultSpec,
    t: Target,
    st: Option<FaultSpec>,
    tt: Option<Target>,
)
    ensures
        match (c, c@) {
            (Command::Usage { help }, CommandView::Usage { help: h }) => h == help,
            (Command::JobEvent { kind }, CommandView::JobEvent { kind: k }) => is_text_of(k, kind),
            (Command::TraceStore { args }, CommandView::TraceStore { args: a }) => are_texts_of(
                a,
                args@,
            ),
            (Command::Replay { args }, CommandView::Replay { args: a }) => are_texts_of(a, args@),
            (Command::Fuzz { args }, CommandView::Fuzz { args: a }) => are_texts_of(a, args@),
            (
                Command::Container { image, command },
                CommandView::Container { image: i, command: a },
            ) => i == image@ && are_texts_of(a, command@),
            _ => false,
        },
        f@.job_id == f.job_id@,
        f@.db == f.db@,
        f@.start == f.start,
        f@.end == f.end,
        f@.exhaustive == f.exhaustive,
        r@.db == r.db@,
        r@.target == opt_target(r.target),
        r@.fault == opt_fault(r.fault),
        match (s, s@) {
            (FaultSpec::Explicit(a), FaultSpecView::Explicit(b)) => b == a@,
            (FaultSpec::Seeded(a), FaultSpecView::Seeded(b)) => b == a,
            _ => false,
        },
        match (t, t@) {
            (Target::Run(a), TargetView::Run(b)) => b == a@,
            (Target::Job(a), TargetView::Job(b)) => b == a@,
            _ => false,
        },
        match (st, opt_fault(st)) {
            (Some(a), Some(b)) => b == a@,
            (None, None) => true,
            _ => false,
        },
        match (tt, opt_target(tt)) {
            (Some(a), Some(b)) => b == a@,
            (None, None) => true,
            _ => false,
        },
{
}

/// The models of what is asked of the trace store have each of its fields.
pub proof fn law_store_commands_are_modelled(
    c: StoreCommand,
    e: StoreArgsError,
    d: DbFlagError,
    s: Selector,
    x: SelectorError,
)
    ensures
        match (c, c@) {
            (
                StoreCommand::Ingest { log, db, paths },
                StoreCommandView::Ingest { log: l, db: d, paths: p },
            ) => l == log && d == db@ && are_texts_of(p, paths@),
            (
                StoreCommand::Query { db, selector },
                StoreCommandView::Query { db: d, selector: q },
            ) => d == db@ && match (selector, q) {
                (Ok(a), Ok(b)) => b == a@,
                (Err(a), Err(b)) => b == a@,
                _ => false,
            },
            _ => false,
        },
        match (e, e@) {
            (StoreArgsError::Usage, StoreArgsErrorView::Usage) => true,
            (StoreArgsError::Db(a), StoreArgsErrorView::Db(b)) => b == a@,
            _ => false,
        },
        match (d, d@) {
            (DbFlagError::Missing, DbFlagErrorView::Missing) => true,
            (DbFlagError::Unexpected(a), DbFlagErrorView::Unexpected(b)) => b == a@,
            (DbFlagError::NoPath, DbFlagErrorView::NoPath) => true,
            _ => false,
        },
        match (s, s@) {
            (Selector::Run(a), SelectorView::Run(b)) => b == a@,
            (Selector::Job(a), SelectorView::Job(b)) => b == a@,
            (Selector::Kind(a), SelectorView::Kind(b)) => b == a@,
            _ => false,
        },
        match (x, x@) {
            (SelectorError::Usage, SelectorErrorView::Usage) => true,
            (SelectorError::NoValue(a), SelectorErrorView::NoValue(b)) => b == a@,
            _ => false,
        },
{
}

} // verus!
