//! The recorded events of a Run, of a Job's boundary and of its messages, and
//! the timeline that merges them.

use vstd::prelude::*;

use crate::clock::{now_ms, ClockError};

verus! {

/// The text that an optional string holds.
pub open spec fn opt_text(s: Option<String>) -> Option<Seq<char>> {
    match s {
        Some(text) => Some(text@),
        None => None,
    }
}

/// The texts that a sequence of strings holds.
pub open spec fn texts(s: Seq<String>) -> Seq<Seq<char>> {
    s.map_values(|t: String| t@)
}

/// A copy of an optional string.
pub fn clone_opt(s: &Option<String>) -> (res: Option<String>)
    ensures
        opt_text(res) == opt_text(*s),
{
    match s {
        Some(text) => Some(text.clone()),
        None => None,
    }
}

/// A copy of a list of strings.
pub fn clone_texts(list: &Vec<String>) -> (res: Vec<String>)
    ensures
        texts(res@) == texts(list@),
{
    let mut res: Vec<String> = Vec::new();
    let mut i: usize = 0;
    while i < list.len()
        invariant
            i <= list@.len(),
            res@.len() == i,
            forall|k: int| 0 <= k < i ==> (#[trigger] res@[k])@ == list@[k]@,
        decreases list@.len() - i,
    {
        res.push(list[i].clone());
        i = i + 1;
    }
    assert(texts(res@) =~= texts(list@));
    res
}

/// What happened in a Run.
#[derive(Debug)]
pub enum EventKind {
    ProcessStart { image: String, command: Vec<String> },
    Stdout { line: String },
    Stderr { line: String },
    ProcessExit { exit_code: i32 },
}

/// The model of an `EventKind`.
#[verifier::ext_equal]
pub enum EventKindView {
    ProcessStart { image: Seq<char>, command: Seq<Seq<char>> },
    Stdout { line: Seq<char> },
    Stderr { line: Seq<char> },
    ProcessExit { exit_code: i32 },
}

impl View for EventKind {
    type V = EventKindView;

    open spec fn view(&self) -> EventKindView {
        match *self {
            EventKind::ProcessStart { image, command } => EventKindView::ProcessStart {
                image: image@,
                command: texts(command@),
            },
            EventKind::Stdout { line } => EventKindView::Stdout { line: line@ },
            EventKind::Stderr { line } => EventKindView::Stderr { line: line@ },
            EventKind::ProcessExit { exit_code } => EventKindView::ProcessExit { exit_code },
        }
    }
}

impl Clone for EventKind {
    fn clone(&self) -> (res: Self)
        ensures
            res@ == self@,
    {
        match self {
            EventKind::ProcessStart { image, command } => EventKind::ProcessStart {
                image: image.clone(),
                command: clone_texts(command),
            },
            EventKind::Stdout { line } => EventKind::Stdout { line: line.clone() },
            EventKind::Stderr { line } => EventKind::Stderr { line: line.clone() },
            EventKind::ProcessExit { exit_code } => EventKind::ProcessExit {
                exit_code: *exit_code,
            },
        }
    }
}

/// One event of a Run.
#[derive(Debug)]
pub struct Event {
    pub run_id: String,
    /// The Slurm Job that the Run executed under, if any.
    pub job_id: Option<String>,
    pub timestamp_ms: u128,
    pub kind: EventKind,
}

/// The model of an `Event`.
#[verifier::ext_equal]
pub struct EventView {
    pub run_id: Seq<char>,
    pub job_id: Option<Seq<char>>,
    pub timestamp_ms: u128,
    pub kind: EventKindView,
}

impl View for Event {
    type V = EventView;

    open spec fn view(&self) -> EventView {
        EventView {
            run_id: self.run_id@,
            job_id: opt_text(self.job_id),
            timestamp_ms: self.timestamp_ms,
            kind: self.kind@,
        }
    }
}

impl Clone for Event {
    fn clone(&self) -> (res: Self)
        ensures
            res@ == self@,
    {
        Event {
            run_id: self.run_id.clone(),
            job_id: clone_opt(&self.job_id),
            timestamp_ms: self.timestamp_ms,
            kind: self.kind.clone(),
        }
    }
}

impl Event {
    /// An event stamped with the current time. `job_id` is the Slurm Job that
    /// the Run executes under, `None` outside Slurm. Fails where the system
    /// clock is set before the Unix epoch: `stamped` states what is returned
    /// for each reading of the clock.
    pub fn new(run_id: &str, job_id: Option<String>, kind: EventKind) -> (res: Result<
        Event,
        ClockError,
    >)
        ensures
            res matches Ok(event) ==> event@ == (EventView {
                run_id: run_id@,
                job_id: opt_text(job_id),
                timestamp_ms: event.timestamp_ms,
                kind: kind@,
            }),
    {
        Event::stamped(run_id, job_id, now_ms(), kind)
    }

    /// An event stamped with a reading of the clock. Fails exactly where the
    /// reading did.
    pub fn stamped(
        run_id: &str,
        job_id: Option<String>,
        reading: Result<u128, ClockError>,
        kind: EventKind,
    ) -> (res: Result<Event, ClockError>)
        ensures
            match reading {
                Ok(timestamp_ms) => res matches Ok(event) && event@ == (EventView {
                    run_id: run_id@,
                    job_id: opt_text(job_id),
                    timestamp_ms,
                    kind: kind@,
                }),
                Err(e) => res == Err::<Event, ClockError>(e),
            },
    {
        match reading {
            Ok(timestamp_ms) => Ok(Event::at(run_id, job_id, timestamp_ms, kind)),
            Err(e) => Err(e),
        }
    }

    /// An event stamped with the given time.
    pub fn at(run_id: &str, job_id: Option<String>, timestamp_ms: u128, kind: EventKind) -> (res:
        Event)
        ensures
            res@ == (EventView {
                run_id: run_id@,
                job_id: opt_text(job_id),
                timestamp_ms: timestamp_ms,
                kind: kind@,
            }),
    {
        Event { run_id: run_id.to_owned(), job_id, timestamp_ms, kind }
    }
}

/// What happened at a Job's boundary: the events that belong to no single Run.
#[derive(Debug)]
pub enum JobEventKind {
    NodeAllocated { node: String, user: String, work_dir: String },
    TaskStarted { step_id: String, task_id: String, node: String },
    TaskExited { step_id: String, task_id: String, node: String },
    JobExited { exit_code: i32, signal: i32, job_name: String, node_list: String },
}

/// The model of a `JobEventKind`.
#[verifier::ext_equal]
pub enum JobEventKindView {
    NodeAllocated { node: Seq<char>, user: Seq<char>, work_dir: Seq<char> },
    TaskStarted { step_id: Seq<char>, task_id: Seq<char>, node: Seq<char> },
    TaskExited { step_id: Seq<char>, task_id: Seq<char>, node: Seq<char> },
    JobExited { exit_code: i32, signal: i32, job_name: Seq<char>, node_list: Seq<char> },
}

impl View for JobEventKind {
    type V = JobEventKindView;

    open spec fn view(&self) -> JobEventKindView {
        match *self {
            JobEventKind::NodeAllocated { node, user, work_dir } =>
            JobEventKindView::NodeAllocated {
                node: node@,
                user: user@,
                work_dir: work_dir@,
            },
            JobEventKind::TaskStarted { step_id, task_id, node } => JobEventKindView::TaskStarted {
                step_id: step_id@,
                task_id: task_id@,
                node: node@,
            },
            JobEventKind::TaskExited { step_id, task_id, node } => JobEventKindView::TaskExited {
                step_id: step_id@,
                task_id: task_id@,
                node: node@,
            },
            JobEventKind::JobExited { exit_code, signal, job_name, node_list } =>
            JobEventKindView::JobExited {
                exit_code,
                signal,
                job_name: job_name@,
                node_list: node_list@,
            },
        }
    }
}

impl Clone for JobEventKind {
    fn clone(&self) -> (res: Self)
        ensures
            res@ == self@,
    {
        match self {
            JobEventKind::NodeAllocated { node, user, work_dir } => JobEventKind::NodeAllocated {
                node: node.clone(),
                user: user.clone(),
                work_dir: work_dir.clone(),
            },
            JobEventKind::TaskStarted { step_id, task_id, node } => JobEventKind::TaskStarted {
                step_id: step_id.clone(),
                task_id: task_id.clone(),
                node: node.clone(),
            },
            JobEventKind::TaskExited { step_id, task_id, node } => JobEventKind::TaskExited {
                step_id: step_id.clone(),
                task_id: task_id.clone(),
                node: node.clone(),
            },
            JobEventKind::JobExited { exit_code, signal, job_name, node_list } =>
            JobEventKind::JobExited {
                exit_code: *exit_code,
                signal: *signal,
                job_name: job_name.clone(),
                node_list: node_list.clone(),
            },
        }
    }
}

/// One event of a Job's boundary.
#[derive(Debug)]
pub struct JobEvent {
    pub job_id: String,
    pub timestamp_ms: u128,
    pub kind: JobEventKind,
}

/// The model of a `JobEvent`.
#[verifier::ext_equal]
pub struct JobEventView {
    pub job_id: Seq<char>,
    pub timestamp_ms: u128,
    pub kind: JobEventKindView,
}

impl View for JobEvent {
    type V = JobEventView;

    open spec fn view(&self) -> JobEventView {
        JobEventView {
            job_id: self.job_id@,
            timestamp_ms: self.timestamp_ms,
            kind: self.kind@,
        }
    }
}

impl Clone for JobEvent {
    fn clone(&self) -> (res: Self)
        ensures
            res@ == self@,
    {
        JobEvent {
            job_id: self.job_id.clone(),
            timestamp_ms: self.timestamp_ms,
            kind: self.kind.clone(),
        }
    }
}

impl JobEvent {
    /// An event stamped with the current time. Fails where the system clock is
    /// set before the Unix epoch: `stamped` states what is returned for each
    /// reading of the clock.
    pub fn new(job_id: &str, kind: JobEventKind) -> (res: Result<JobEvent, ClockError>)
        ensures
            res matches Ok(event) ==> event@ == (JobEventView {
                job_id: job_id@,
                timestamp_ms: event.timestamp_ms,
                kind: kind@,
            }),
    {
        JobEvent::stamped(job_id, now_ms(), kind)
    }

    /// An event stamped with a reading of the clock. Fails exactly where the
    /// reading did.
    pub fn stamped(
        job_id: &str,
        reading: Result<u128, ClockError>,
        kind: JobEventKind,
    ) -> (res: Result<JobEvent, ClockError>)
        ensures
            match reading {
                Ok(timestamp_ms) => res matches Ok(event) && event@ == (JobEventView {
                    job_id: job_id@,
                    timestamp_ms,
                    kind: kind@,
                }),
                Err(e) => res == Err::<JobEvent, ClockError>(e),
            },
    {
        match reading {
            Ok(timestamp_ms) => Ok(JobEvent::at(job_id, timestamp_ms, kind)),
            Err(e) => Err(e),
        }
    }

    /// An event stamped with the given time.
    pub fn at(job_id: &str, timestamp_ms: u128, kind: JobEventKind) -> (res: JobEvent)
        ensures
            res@ == (JobEventView { job_id: job_id@, timestamp_ms: timestamp_ms, kind: kind@ }),
    {
        JobEvent { job_id: job_id.to_owned(), timestamp_ms, kind }
    }
}

/// One logged socket call. `direction` is `"connect"`, `"send"` or `"recv"`;
/// a plain `write` or `read` on a socket is logged as `"send"` or `"recv"`.
/// The last four fields attribute the call to a Slurm Job and task, and are
/// `None` outside Slurm.
#[derive(Debug)]
pub struct MessageEvent {
    pub pid: u32,
    pub fd: i32,
    pub direction: String,
    pub peer: Option<String>,
    pub bytes: i64,
    pub timestamp_ms: u128,
    pub job_id: Option<String>,
    pub step_id: Option<String>,
    pub task_id: Option<String>,
    pub node: Option<String>,
}

/// The model of a `MessageEvent`.
#[verifier::ext_equal]
pub struct MessageEventView {
    pub pid: u32,
    pub fd: i32,
    pub direction: Seq<char>,
    pub peer: Option<Seq<char>>,
    pub bytes: i64,
    pub timestamp_ms: u128,
    pub job_id: Option<Seq<char>>,
    pub step_id: Option<Seq<char>>,
    pub task_id: Option<Seq<char>>,
    pub node: Option<Seq<char>>,
}

impl View for MessageEvent {
    type V = MessageEventView;

    open spec fn view(&self) -> MessageEventView {
        MessageEventView {
            pid: self.pid,
            fd: self.fd,
            direction: self.direction@,
            peer: opt_text(self.peer),
            bytes: self.bytes,
            timestamp_ms: self.timestamp_ms,
            job_id: opt_text(self.job_id),
            step_id: opt_text(self.step_id),
            task_id: opt_text(self.task_id),
            node: opt_text(self.node),
        }
    }
}

impl Clone for MessageEvent {
    fn clone(&self) -> (res: Self)
        ensures
            res@ == self@,
    {
        MessageEvent {
            pid: self.pid,
            fd: self.fd,
            direction: self.direction.clone(),
            peer: clone_opt(&self.peer),
            bytes: self.bytes,
            timestamp_ms: self.timestamp_ms,
            job_id: clone_opt(&self.job_id),
            step_id: clone_opt(&self.step_id),
            task_id: clone_opt(&self.task_id),
            node: clone_opt(&self.node),
        }
    }
}

/// One row of a Job's merged timeline: a Run event, a boundary event, or a
/// captured message.
#[derive(Debug)]
pub enum TimelineEvent {
    Run(Event),
    Boundary(JobEvent),
    Message(MessageEvent),
}

/// The model of a `TimelineEvent`.
#[verifier::ext_equal]
pub enum TimelineEventView {
    Run(EventView),
    Boundary(JobEventView),
    Message(MessageEventView),
}

impl View for TimelineEvent {
    type V = TimelineEventView;

    open spec fn view(&self) -> TimelineEventView {
        match *self {
            TimelineEvent::Run(event) => TimelineEventView::Run(event@),
            TimelineEvent::Boundary(event) => TimelineEventView::Boundary(event@),
            TimelineEvent::Message(event) => TimelineEventView::Message(event@),
        }
    }
}

impl Clone for TimelineEvent {
    fn clone(&self) -> (res: Self)
        ensures
            res@ == self@,
    {
        match self {
            TimelineEvent::Run(event) => TimelineEvent::Run(event.clone()),
            TimelineEvent::Boundary(event) => TimelineEvent::Boundary(event.clone()),
            TimelineEvent::Message(event) => TimelineEvent::Message(event.clone()),
        }
    }
}

/// The model of a Run's event stream.
pub open spec fn run_stream(events: Seq<Event>) -> Seq<EventView> {
    events.map_values(|e: Event| e@)
}

/// The model of a Job's timeline.
pub open spec fn timeline(events: Seq<TimelineEvent>) -> Seq<TimelineEventView> {
    events.map_values(|e: TimelineEvent| e@)
}

/// A copy of a timeline.
pub fn clone_timeline(events: &[TimelineEvent]) -> (res: Vec<TimelineEvent>)
    ensures
        timeline(res@) == timeline(events@),
{
    let mut res: Vec<TimelineEvent> = Vec::new();
    let mut i: usize = 0;
    while i < events.len()
        invariant
            i <= events@.len(),
            res@.len() == i,
            forall|k: int| 0 <= k < i ==> (#[trigger] res@[k])@ == events@[k]@,
        decreases events@.len() - i,
    {
        res.push(events[i].clone());
        i = i + 1;
    }
    assert(timeline(res@) =~= timeline(events@));
    res
}

} // verus!
