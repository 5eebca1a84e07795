//! The invariants of a timeline.

use ang::event::{JobEvent, JobEventKind, MessageEvent, TimelineEvent};
use ang::fault::{apply, from_seed, Fault};
use ang::invariants::{
    check, connect_precedes_activity, job_exited_is_last, recv_precedes_task_exited,
    task_started_requires_prior_node_allocated,
};

fn boundary(kind: JobEventKind) -> TimelineEvent {
    TimelineEvent::Boundary(JobEvent::new("j1", kind).unwrap())
}

fn message(pid: u32, fd: i32, direction: &str, timestamp_ms: u128) -> TimelineEvent {
    TimelineEvent::Message(MessageEvent {
        pid,
        fd,
        direction: direction.to_string(),
        peer: None,
        bytes: 8,
        timestamp_ms,
        job_id: Some("j1".to_string()),
        step_id: None,
        task_id: None,
        node: None,
    })
}

fn attributed_message(
    pid: u32,
    fd: i32,
    direction: &str,
    timestamp_ms: u128,
    step_id: &str,
    task_id: &str,
    node: &str,
) -> TimelineEvent {
    TimelineEvent::Message(MessageEvent {
        pid,
        fd,
        direction: direction.to_string(),
        peer: None,
        bytes: 8,
        timestamp_ms,
        job_id: Some("j1".to_string()),
        step_id: Some(step_id.to_string()),
        task_id: Some(task_id.to_string()),
        node: Some(node.to_string()),
    })
}

#[test]
fn clean_timeline_has_no_violations() {
    let events = vec![
        boundary(JobEventKind::NodeAllocated {
            node: "n1".into(),
            user: "u".into(),
            work_dir: "/tmp".into(),
        }),
        boundary(JobEventKind::TaskStarted {
            step_id: "0".into(),
            task_id: "0".into(),
            node: "n1".into(),
        }),
        boundary(JobEventKind::TaskExited {
            step_id: "0".into(),
            task_id: "0".into(),
            node: "n1".into(),
        }),
    ];
    assert_eq!(check(&events), vec![]);
}

#[test]
fn missing_task_started_is_a_violation() {
    let events = vec![boundary(JobEventKind::TaskExited {
        step_id: "0".into(),
        task_id: "0".into(),
        node: "n1".into(),
    })];
    let violations = check(&events);
    assert_eq!(violations.len(), 1);
    assert!(violations[0].description.contains("step_id=0"));
    assert!(violations[0].description.contains("task_id=0"));
    assert!(violations[0].description.contains("node=n1"));
}

#[test]
fn only_the_broken_task_is_flagged_among_several() {
    let events = vec![
        boundary(JobEventKind::NodeAllocated {
            node: "n1".into(),
            user: "u".into(),
            work_dir: "/tmp".into(),
        }),
        boundary(JobEventKind::TaskStarted {
            step_id: "0".into(),
            task_id: "0".into(),
            node: "n1".into(),
        }),
        boundary(JobEventKind::TaskExited {
            step_id: "0".into(),
            task_id: "1".into(),
            node: "n2".into(),
        }),
        boundary(JobEventKind::TaskExited {
            step_id: "0".into(),
            task_id: "0".into(),
            node: "n1".into(),
        }),
    ];
    let violations = check(&events);
    assert_eq!(violations.len(), 1);
    assert!(violations[0].description.contains("task_id=1"));
}

#[test]
fn dropping_task_started_via_fault_makes_the_violation_appear() {
    let clean = vec![
        boundary(JobEventKind::NodeAllocated {
            node: "n1".into(),
            user: "u".into(),
            work_dir: "/tmp".into(),
        }),
        boundary(JobEventKind::TaskStarted {
            step_id: "0".into(),
            task_id: "0".into(),
            node: "n1".into(),
        }),
        boundary(JobEventKind::TaskExited {
            step_id: "0".into(),
            task_id: "0".into(),
            node: "n1".into(),
        }),
    ];
    assert_eq!(check(&clean), vec![]);

    let faulted = apply(clean, &Fault::DropEvent { index: 1 });
    assert_eq!(check(&faulted).len(), 1);
}

#[test]
fn reordering_task_started_after_task_exited_makes_the_violation_appear() {
    // Both events stay present: only their order changes.
    let clean = vec![
        boundary(JobEventKind::NodeAllocated {
            node: "n1".into(),
            user: "u".into(),
            work_dir: "/tmp".into(),
        }),
        boundary(JobEventKind::TaskStarted {
            step_id: "0".into(),
            task_id: "0".into(),
            node: "n1".into(),
        }),
        boundary(JobEventKind::TaskExited {
            step_id: "0".into(),
            task_id: "0".into(),
            node: "n1".into(),
        }),
    ];
    assert_eq!(check(&clean), vec![]);

    let reordered = apply(clean, &Fault::ReorderEvents { i: 1, j: 2 });
    assert_eq!(
        reordered.len(),
        3,
        "all events must still be present, only reordered"
    );
    let violations = check(&reordered);
    assert_eq!(violations.len(), 1);
    assert!(violations[0].description.contains("task_id=0"));
}

#[test]
fn seeded_faults_reach_both_a_violation_and_a_clean_outcome() {
    let clean = vec![
        boundary(JobEventKind::NodeAllocated {
            node: "n1".into(),
            user: "u".into(),
            work_dir: "/tmp".into(),
        }),
        boundary(JobEventKind::TaskStarted {
            step_id: "0".into(),
            task_id: "0".into(),
            node: "n1".into(),
        }),
        boundary(JobEventKind::TaskExited {
            step_id: "0".into(),
            task_id: "0".into(),
            node: "n1".into(),
        }),
    ];

    let mut saw_violation = false;
    let mut saw_clean = false;
    for seed in 0..50 {
        let faulted = apply(clean.clone(), &from_seed(seed, clean.len()));
        if check(&faulted).is_empty() {
            saw_clean = true;
        } else {
            saw_violation = true;
        }
    }
    assert!(
        saw_violation,
        "expected at least one seed to trip the invariant"
    );
    assert!(
        saw_clean,
        "expected at least one seed to leave the timeline clean"
    );
}

#[test]
fn reordering_unrelated_events_produces_no_violation() {
    // Two independent tasks on two nodes: each start still has its own
    // allocation before it and its own exit after it.
    let events = vec![
        boundary(JobEventKind::NodeAllocated {
            node: "n1".into(),
            user: "u".into(),
            work_dir: "/tmp".into(),
        }),
        boundary(JobEventKind::NodeAllocated {
            node: "n2".into(),
            user: "u".into(),
            work_dir: "/tmp".into(),
        }),
        boundary(JobEventKind::TaskStarted {
            step_id: "0".into(),
            task_id: "0".into(),
            node: "n1".into(),
        }),
        boundary(JobEventKind::TaskStarted {
            step_id: "0".into(),
            task_id: "1".into(),
            node: "n2".into(),
        }),
        boundary(JobEventKind::TaskExited {
            step_id: "0".into(),
            task_id: "0".into(),
            node: "n1".into(),
        }),
        boundary(JobEventKind::TaskExited {
            step_id: "0".into(),
            task_id: "1".into(),
            node: "n2".into(),
        }),
    ];
    let reordered = apply(events, &Fault::ReorderEvents { i: 2, j: 3 });
    assert_eq!(check(&reordered), vec![]);
}

#[test]
fn clean_timeline_with_job_exited_last_has_no_violations() {
    let events = vec![
        boundary(JobEventKind::NodeAllocated {
            node: "n1".into(),
            user: "u".into(),
            work_dir: "/tmp".into(),
        }),
        boundary(JobEventKind::TaskStarted {
            step_id: "0".into(),
            task_id: "0".into(),
            node: "n1".into(),
        }),
        boundary(JobEventKind::TaskExited {
            step_id: "0".into(),
            task_id: "0".into(),
            node: "n1".into(),
        }),
        boundary(JobEventKind::JobExited {
            exit_code: 0,
            signal: 0,
            job_name: "j".into(),
            node_list: "n1".into(),
        }),
    ];
    assert_eq!(check(&events), vec![]);
}

#[test]
fn reordering_job_exited_before_the_last_event_is_a_violation() {
    let clean = vec![
        boundary(JobEventKind::NodeAllocated {
            node: "n1".into(),
            user: "u".into(),
            work_dir: "/tmp".into(),
        }),
        boundary(JobEventKind::TaskStarted {
            step_id: "0".into(),
            task_id: "0".into(),
            node: "n1".into(),
        }),
        boundary(JobEventKind::JobExited {
            exit_code: 0,
            signal: 0,
            job_name: "j".into(),
            node_list: "n1".into(),
        }),
        boundary(JobEventKind::TaskExited {
            step_id: "0".into(),
            task_id: "0".into(),
            node: "n1".into(),
        }),
    ];
    // JobExited is not last, so this timeline starts faulted.
    let violations = check(&clean);
    assert_eq!(violations.len(), 1);
    assert!(violations[0].description.contains("job_exited"));

    let reordered = apply(clean, &Fault::ReorderEvents { i: 2, j: 3 });
    assert_eq!(
        check(&reordered),
        vec![],
        "swap puts job_exited back at the end"
    );
}

#[test]
fn missing_node_allocated_is_a_violation() {
    let events = vec![boundary(JobEventKind::TaskStarted {
        step_id: "0".into(),
        task_id: "0".into(),
        node: "n1".into(),
    })];
    let violations = task_started_requires_prior_node_allocated(&events);
    assert_eq!(violations.len(), 1);
    assert!(violations[0].description.contains("node=n1"));
}

#[test]
fn node_allocated_for_a_different_node_does_not_satisfy_the_invariant() {
    let events = vec![
        boundary(JobEventKind::NodeAllocated {
            node: "n2".into(),
            user: "u".into(),
            work_dir: "/tmp".into(),
        }),
        boundary(JobEventKind::TaskStarted {
            step_id: "0".into(),
            task_id: "0".into(),
            node: "n1".into(),
        }),
    ];
    assert_eq!(task_started_requires_prior_node_allocated(&events).len(), 1);
}

#[test]
fn reordering_node_allocated_after_task_started_makes_the_violation_appear() {
    let clean = vec![
        boundary(JobEventKind::NodeAllocated {
            node: "n1".into(),
            user: "u".into(),
            work_dir: "/tmp".into(),
        }),
        boundary(JobEventKind::TaskStarted {
            step_id: "0".into(),
            task_id: "0".into(),
            node: "n1".into(),
        }),
    ];
    assert_eq!(check(&clean), vec![]);

    let reordered = apply(clean, &Fault::ReorderEvents { i: 0, j: 1 });
    let violations = check(&reordered);
    assert_eq!(violations.len(), 1);
    assert!(violations[0].description.contains("task_started"));
}

#[test]
fn timeline_with_no_job_exited_is_not_flagged() {
    let events = vec![boundary(JobEventKind::TaskStarted {
        step_id: "0".into(),
        task_id: "0".into(),
        node: "n1".into(),
    })];
    assert_eq!(job_exited_is_last(&events), vec![]);
}

/// What follows a `JobExited` counts whatever its kind.
#[test]
fn message_after_job_exited_is_already_caught_by_job_exited_is_last() {
    let events = vec![
        boundary(JobEventKind::NodeAllocated {
            node: "n1".into(),
            user: "u".into(),
            work_dir: "/tmp".into(),
        }),
        boundary(JobEventKind::JobExited {
            exit_code: 0,
            signal: 0,
            job_name: "j".into(),
            node_list: "n1".into(),
        }),
        message(1, 3, "send", 500),
    ];
    let violations = job_exited_is_last(&events);
    assert_eq!(violations.len(), 1);
    assert!(violations[0].description.contains("job_exited"));
}

#[test]
fn clean_message_sequence_has_no_connect_violation() {
    let events = vec![
        message(1, 3, "connect", 100),
        message(1, 3, "send", 150),
        message(2, 4, "recv", 150),
    ];
    assert_eq!(connect_precedes_activity(&events), vec![]);
}

#[test]
fn send_before_its_own_connect_is_a_violation() {
    let events = vec![message(1, 3, "send", 50), message(1, 3, "connect", 100)];
    let violations = connect_precedes_activity(&events);
    assert_eq!(violations.len(), 1);
    assert!(violations[0].description.contains("pid=1"));
    assert!(violations[0].description.contains("fd=3"));
}

#[test]
fn unrelated_fd_on_the_same_pid_is_not_cross_contaminated() {
    // Two sockets in one process have nothing to do with each other.
    let events = vec![
        message(1, 3, "connect", 100),
        message(1, 4, "send", 50), // no connect of fd 4 is logged
    ];
    assert_eq!(connect_precedes_activity(&events), vec![]);

    let events = vec![
        message(1, 3, "connect", 200),
        message(1, 4, "connect", 50),
        message(1, 4, "send", 60),
    ];
    assert_eq!(connect_precedes_activity(&events), vec![]);
}

#[test]
fn recv_before_task_exited_has_no_violation() {
    let events = vec![
        boundary(JobEventKind::NodeAllocated {
            node: "n1".into(),
            user: "u".into(),
            work_dir: "/tmp".into(),
        }),
        boundary(JobEventKind::TaskStarted {
            step_id: "0".into(),
            task_id: "0".into(),
            node: "n1".into(),
        }),
        attributed_message(1, 3, "recv", 130, "0", "0", "n1"),
        boundary(JobEventKind::TaskExited {
            step_id: "0".into(),
            task_id: "0".into(),
            node: "n1".into(),
        }),
    ];
    assert_eq!(recv_precedes_task_exited(&events), vec![]);
}

#[test]
fn recv_after_its_own_task_exited_is_a_violation() {
    let events = vec![
        boundary(JobEventKind::NodeAllocated {
            node: "n1".into(),
            user: "u".into(),
            work_dir: "/tmp".into(),
        }),
        boundary(JobEventKind::TaskStarted {
            step_id: "0".into(),
            task_id: "0".into(),
            node: "n1".into(),
        }),
        boundary(JobEventKind::TaskExited {
            step_id: "0".into(),
            task_id: "0".into(),
            node: "n1".into(),
        }),
        attributed_message(1, 3, "recv", 200, "0", "0", "n1"),
    ];
    let violations = recv_precedes_task_exited(&events);
    assert_eq!(violations.len(), 1);
    assert!(violations[0].description.contains("step_id=0"));
    assert!(violations[0].description.contains("task_id=0"));
    assert!(violations[0].description.contains("node=n1"));
}

#[test]
fn unattributed_recv_is_skipped_not_flagged() {
    // A message without step, task and node belongs to no task.
    let events = vec![
        boundary(JobEventKind::TaskExited {
            step_id: "0".into(),
            task_id: "0".into(),
            node: "n1".into(),
        }),
        message(1, 3, "recv", 200),
    ];
    assert_eq!(recv_precedes_task_exited(&events), vec![]);
}

#[test]
fn recv_after_an_unrelated_tasks_exit_is_not_cross_contaminated() {
    // The message of task 1 comes after the exit of task 0, and before
    // that of its own task.
    let events = vec![
        boundary(JobEventKind::TaskExited {
            step_id: "0".into(),
            task_id: "0".into(),
            node: "n1".into(),
        }),
        attributed_message(2, 5, "recv", 200, "0", "1", "n2"),
        boundary(JobEventKind::TaskExited {
            step_id: "0".into(),
            task_id: "1".into(),
            node: "n2".into(),
        }),
    ];
    assert_eq!(recv_precedes_task_exited(&events), vec![]);
}

#[test]
fn message_rows_do_not_trip_boundary_invariants() {
    let events = vec![
        boundary(JobEventKind::NodeAllocated {
            node: "n1".into(),
            user: "u".into(),
            work_dir: "/tmp".into(),
        }),
        boundary(JobEventKind::TaskStarted {
            step_id: "0".into(),
            task_id: "0".into(),
            node: "n1".into(),
        }),
        message(1, 3, "connect", 120),
        message(1, 3, "send", 130),
        boundary(JobEventKind::TaskExited {
            step_id: "0".into(),
            task_id: "0".into(),
            node: "n1".into(),
        }),
        boundary(JobEventKind::JobExited {
            exit_code: 0,
            signal: 0,
            job_name: "j".into(),
            node_list: "n1".into(),
        }),
    ];
    assert_eq!(check(&events), vec![]);
}

#[test]
fn descriptions_are_exact() {
    let exited = vec![boundary(JobEventKind::TaskExited {
        step_id: "0".into(),
        task_id: "1".into(),
        node: "n1".into(),
    })];
    assert_eq!(
        check(&exited)[0].description,
        "task_exited step_id=0 task_id=1 node=n1 with no prior task_started"
    );

    let started = vec![boundary(JobEventKind::TaskStarted {
        step_id: "0".into(),
        task_id: "1".into(),
        node: "n1".into(),
    })];
    assert_eq!(
        check(&started)[0].description,
        "task_started step_id=0 task_id=1 node=n1 with no prior node_allocated"
    );

    let job_exited = || {
        boundary(JobEventKind::JobExited {
            exit_code: 0,
            signal: 0,
            job_name: "j".into(),
            node_list: "n1".into(),
        })
    };
    let early = vec![job_exited(), message(1, 3, "send", 5), job_exited()];
    let found = check(&early);
    assert_eq!(found.len(), 1);
    assert_eq!(found[0].invariant, "job_exited_is_last");
    assert_eq!(
        found[0].description,
        "job_exited at position 0 is not the last event (2 more event(s) follow)"
    );

    let activity = vec![
        message(7, -1, "recv", 50),
        message(7, -1, "connect", 60),
        message(7, -1, "connect", 70),
    ];
    assert_eq!(
        check(&activity)[0].description,
        "pid=7 fd=-1 recv at position 0 (timestamp_ms=50) precedes its own connect at position 1"
    );

    let late = vec![
        boundary(JobEventKind::TaskExited {
            step_id: "0".into(),
            task_id: "1".into(),
            node: "n1".into(),
        }),
        attributed_message(7, 3, "recv", 200, "0", "1", "n1"),
    ];
    assert_eq!(
        recv_precedes_task_exited(&late)[0].description,
        "step_id=0 task_id=1 node=n1 recv at position 1 (pid=7, fd=3) follows its own task_exited at position 0"
    );
}

#[test]
fn violations_come_in_the_order_of_the_registered_invariants() {
    let events = vec![
        boundary(JobEventKind::TaskStarted {
            step_id: "0".into(),
            task_id: "0".into(),
            node: "n1".into(),
        }),
        boundary(JobEventKind::TaskExited {
            step_id: "0".into(),
            task_id: "1".into(),
            node: "n1".into(),
        }),
        boundary(JobEventKind::JobExited {
            exit_code: 0,
            signal: 0,
            job_name: "j".into(),
            node_list: "n1".into(),
        }),
        attributed_message(1, 3, "recv", 10, "0", "1", "n1"),
        message(1, 3, "connect", 20),
    ];
    let names: Vec<&str> = check(&events).iter().map(|v| v.invariant).collect();
    assert_eq!(
        names,
        vec![
            "task_exited_requires_prior_task_started",
            "job_exited_is_last",
            "task_started_requires_prior_node_allocated",
            "connect_precedes_activity",
            "recv_precedes_task_exited",
        ]
    );
}

#[test]
fn a_timeline_without_events_is_clean() {
    assert_eq!(check(&[]), vec![]);
}
