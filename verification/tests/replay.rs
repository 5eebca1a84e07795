//! What replaying a Run or a Job's timeline writes and returns.

use ang::event::{Event, EventKind, JobEvent, JobEventKind, MessageEvent, TimelineEvent};
use ang::fault::{apply, Fault};
use ang::replay::{drain_events, drain_timeline_events, OutputLine, Replayed};

fn run_event(ms: u128, kind: EventKind) -> Event {
    Event::at("r1", Some("30".to_string()), ms, kind)
}

fn boundary(ms: u128, kind: JobEventKind) -> TimelineEvent {
    TimelineEvent::Boundary(JobEvent::at("30", ms, kind))
}

fn message(
    pid: u32,
    fd: i32,
    direction: &str,
    peer: Option<&str>,
    bytes: i64,
    timestamp_ms: u128,
) -> TimelineEvent {
    TimelineEvent::Message(MessageEvent {
        pid,
        fd,
        direction: direction.to_string(),
        peer: peer.map(str::to_string),
        bytes,
        timestamp_ms,
        job_id: Some("30".to_string()),
        step_id: None,
        task_id: None,
        node: None,
    })
}

fn node_allocated() -> TimelineEvent {
    boundary(
        100,
        JobEventKind::NodeAllocated {
            node: "n1".into(),
            user: "u".into(),
            work_dir: "/tmp".into(),
        },
    )
}

fn task_started() -> TimelineEvent {
    boundary(
        150,
        JobEventKind::TaskStarted {
            step_id: "0".into(),
            task_id: "0".into(),
            node: "n1".into(),
        },
    )
}

fn task_exited() -> TimelineEvent {
    boundary(
        350,
        JobEventKind::TaskExited {
            step_id: "0".into(),
            task_id: "0".into(),
            node: "n1".into(),
        },
    )
}

fn job_exited(exit_code: i32) -> TimelineEvent {
    boundary(
        400,
        JobEventKind::JobExited {
            exit_code,
            signal: 0,
            job_name: "j".into(),
            node_list: "n1".into(),
        },
    )
}

fn stdout(line: &str) -> TimelineEvent {
    TimelineEvent::Run(run_event(250, EventKind::Stdout { line: line.into() }))
}

fn out(replayed: &Replayed) -> Vec<&str> {
    replayed
        .lines
        .iter()
        .filter_map(|l| match l {
            OutputLine::Stdout(line) => Some(line.as_str()),
            OutputLine::Stderr(_) => None,
        })
        .collect()
}

fn err(replayed: &Replayed) -> Vec<&str> {
    replayed
        .lines
        .iter()
        .filter_map(|l| match l {
            OutputLine::Stderr(line) => Some(line.as_str()),
            OutputLine::Stdout(_) => None,
        })
        .collect()
}

#[test]
fn replays_stdout_stderr_and_exit_code_in_recorded_order() {
    let replayed = drain_events(vec![
        run_event(
            100,
            EventKind::ProcessStart {
                image: "alpine".into(),
                command: vec!["sh".into()],
            },
        ),
        run_event(
            200,
            EventKind::Stdout {
                line: "out-line".into(),
            },
        ),
        run_event(
            300,
            EventKind::Stderr {
                line: "err-line".into(),
            },
        ),
        run_event(400, EventKind::ProcessExit { exit_code: 7 }),
    ]);
    assert_eq!(
        replayed.lines,
        vec![
            OutputLine::Stdout("out-line".to_string()),
            OutputLine::Stderr("err-line".to_string()),
        ]
    );
    assert_eq!(replayed.exit_code, Some(7));
}

#[test]
fn replay_returns_none_when_no_process_exit_recorded() {
    let replayed = drain_events(vec![run_event(100, EventKind::Stdout { line: "hi".into() })]);
    assert_eq!(replayed.exit_code, None);
}

#[test]
fn unknown_run_id_replays_as_empty_with_no_exit_code() {
    let replayed = drain_events(Vec::new());
    assert!(replayed.lines.is_empty());
    assert_eq!(replayed.exit_code, None);
}

#[test]
fn the_last_of_several_process_exits_counts() {
    let replayed = drain_events(vec![
        run_event(100, EventKind::ProcessExit { exit_code: 3 }),
        run_event(200, EventKind::ProcessExit { exit_code: 4 }),
        run_event(300, EventKind::Stdout { line: "late".into() }),
    ]);
    assert_eq!(replayed.exit_code, Some(4));
    assert_eq!(out(&replayed), vec!["late"]);
}

#[test]
fn job_replay_merges_boundary_and_run_events_in_recorded_order() {
    let replayed = drain_timeline_events(vec![
        node_allocated(),
        task_started(),
        TimelineEvent::Run(run_event(
            200,
            EventKind::ProcessStart {
                image: "alpine".into(),
                command: vec!["echo".into(), "hi".into()],
            },
        )),
        stdout("hi"),
        TimelineEvent::Run(run_event(300, EventKind::ProcessExit { exit_code: 0 })),
        task_exited(),
        job_exited(0),
    ]);
    assert_eq!(out(&replayed), vec!["hi"]);
    assert_eq!(
        err(&replayed),
        vec![
            "[job] node_allocated node=n1 user=u work_dir=/tmp",
            "[job] task_started step_id=0 task_id=0 node=n1",
            "[job] task_exited step_id=0 task_id=0 node=n1",
            "[job] job_exited exit_code=0 signal=0 job_name=j node_list=n1",
        ]
    );
    assert_eq!(replayed.exit_code, Some(0));
}

#[test]
fn job_replay_merges_message_events_alongside_boundary_and_run_events() {
    let replayed = drain_timeline_events(vec![
        node_allocated(),
        message(1, 3, "send", Some("10.0.0.2:9000"), 8, 200),
        message(2, 4, "recv", Some("10.0.0.1:54321"), 8, 250),
        job_exited(0),
    ]);
    assert_eq!(
        err(&replayed),
        vec![
            "[job] node_allocated node=n1 user=u work_dir=/tmp",
            "[msg] send peer=10.0.0.2:9000 bytes=8",
            "[msg] recv peer=10.0.0.1:54321 bytes=8",
            "[job] job_exited exit_code=0 signal=0 job_name=j node_list=n1",
        ]
    );
    assert_eq!(replayed.exit_code, Some(0));
}

#[test]
fn job_level_fault_drops_only_the_targeted_row() {
    let events = || {
        vec![
            node_allocated(),
            task_started(),
            stdout("hi"),
            task_exited(),
            job_exited(0),
        ]
    };

    let replayed = drain_timeline_events(apply(events(), &Fault::DropEvent { index: 2 }));
    assert!(
        out(&replayed).is_empty(),
        "dropped Run row should remove the only stdout line"
    );
    assert_eq!(replayed.exit_code, Some(0));

    let replayed = drain_timeline_events(apply(events(), &Fault::DropEvent { index: 3 }));
    assert_eq!(out(&replayed), vec!["hi"]);
    assert!(!err(&replayed).iter().any(|l| l.contains("task_exited")));
    assert_eq!(replayed.exit_code, Some(0));

    let replayed = drain_timeline_events(apply(events(), &Fault::DropEvent { index: 4 }));
    assert_eq!(out(&replayed), vec!["hi"]);
    assert_eq!(replayed.exit_code, None);
}

#[test]
fn job_replay_returns_none_when_no_job_exited_recorded() {
    let replayed = drain_timeline_events(vec![node_allocated()]);
    assert_eq!(replayed.exit_code, None);
}

#[test]
fn a_run_does_not_decide_the_exit_code_of_its_job() {
    let replayed = drain_timeline_events(vec![
        TimelineEvent::Run(run_event(300, EventKind::ProcessExit { exit_code: 9 })),
        message(1, 3, "connect", None, 0, 200),
    ]);
    assert_eq!(replayed.exit_code, None);
    assert_eq!(err(&replayed), vec!["[msg] connect peer=? bytes=0"]);
}

#[test]
fn the_last_of_several_job_exits_counts() {
    let replayed = drain_timeline_events(vec![job_exited(1), job_exited(-2), node_allocated()]);
    assert_eq!(replayed.exit_code, Some(-2));
    assert_eq!(
        err(&replayed)[1],
        "[job] job_exited exit_code=-2 signal=0 job_name=j node_list=n1"
    );
}
