//! Faults, and the search for seeds whose fault breaks an invariant.

use ang::event::{Event, EventKind, JobEvent, JobEventKind, MessageEvent, TimelineEvent};
use ang::fault::{
    apply, apply_timeline, fault_from_draws, from_seed, Fault, CORRUPT_NODE_POOL,
};
use ang::invariants::check;
use ang::search::{evaluate_seed, seed_search, seed_search_stats};

fn event(kind: EventKind) -> Event {
    Event::new("r1", None, kind).unwrap()
}

fn events() -> Vec<Event> {
    vec![
        event(EventKind::ProcessStart {
            image: "alpine".into(),
            command: vec!["sh".into()],
        }),
        event(EventKind::Stdout {
            line: "first".into(),
        }),
        event(EventKind::Stdout {
            line: "second".into(),
        }),
        event(EventKind::ProcessExit { exit_code: 0 }),
    ]
}

#[test]
fn drops_first_event() {
    let result = apply(events(), &Fault::DropEvent { index: 0 });
    assert_eq!(result.len(), 3);
    assert!(matches!(result[0].kind, EventKind::Stdout { .. }));
}

#[test]
fn drops_middle_event() {
    let result = apply(events(), &Fault::DropEvent { index: 1 });
    assert_eq!(result.len(), 3);
    let EventKind::Stdout { line } = &result[1].kind else {
        panic!("expected stdout")
    };
    assert_eq!(line, "second");
}

#[test]
fn drops_last_event() {
    let result = apply(events(), &Fault::DropEvent { index: 3 });
    assert_eq!(result.len(), 3);
    assert!(!result
        .iter()
        .any(|e| matches!(e.kind, EventKind::ProcessExit { .. })));
}

#[test]
fn drops_only_event() {
    let result = apply(
        vec![event(EventKind::Stdout {
            line: "only".into(),
        })],
        &Fault::DropEvent { index: 0 },
    );
    assert!(result.is_empty());
}

#[test]
fn out_of_range_index_is_a_no_op() {
    let original = events();
    let result = apply(original.clone(), &Fault::DropEvent { index: 99 });
    assert_eq!(result.len(), original.len());
}

#[test]
fn reorder_swaps_two_events() {
    let result = apply(events(), &Fault::ReorderEvents { i: 1, j: 2 });
    assert_eq!(result.len(), 4);
    let EventKind::Stdout { line } = &result[1].kind else {
        panic!("expected stdout")
    };
    assert_eq!(line, "second");
    let EventKind::Stdout { line } = &result[2].kind else {
        panic!("expected stdout")
    };
    assert_eq!(line, "first");
}

#[test]
fn reorder_out_of_range_index_is_a_no_op() {
    let original = events();
    let result = apply(original.clone(), &Fault::ReorderEvents { i: 1, j: 99 });
    assert_eq!(result.len(), original.len());
    let EventKind::Stdout { line } = &result[1].kind else {
        panic!("expected stdout")
    };
    assert_eq!(line, "first");
}

fn fault_eq(a: &Fault, b: &Fault) -> bool {
    match (a, b) {
        (Fault::DropEvent { index: a }, Fault::DropEvent { index: b }) => a == b,
        (Fault::ReorderEvents { i: ai, j: aj }, Fault::ReorderEvents { i: bi, j: bj }) => {
            ai == bi && aj == bj
        }
        (
            Fault::CorruptNode {
                index: ai,
                node: an,
            },
            Fault::CorruptNode {
                index: bi,
                node: bn,
            },
        ) => ai == bi && an == bn,
        _ => false,
    }
}

#[test]
fn from_seed_is_deterministic() {
    let a = from_seed(42, 4);
    let b = from_seed(42, 4);
    assert!(fault_eq(&a, &b));
}

#[test]
fn from_seed_diverges_across_seeds() {
    let faults: Vec<Fault> = (0..20).map(|s| from_seed(s, 4)).collect();
    assert!(faults.windows(2).any(|w| !fault_eq(&w[0], &w[1])));
}

#[test]
fn from_seed_indices_are_bounded_by_len() {
    for seed in 0..50 {
        match from_seed(seed, 4) {
            Fault::DropEvent { index } => assert!(index < 4),
            Fault::ReorderEvents { i, j } => {
                assert!(i < 4);
                assert!(j < 4);
            }
            Fault::CorruptNode { index, node } => {
                assert!(index < 4);
                assert!(CORRUPT_NODE_POOL.contains(&node.as_str()));
            }
        }
    }
}

#[test]
fn from_seed_reaches_all_three_fault_kinds() {
    let mut saw_drop = false;
    let mut saw_reorder = false;
    let mut saw_corrupt = false;
    for seed in 0..200 {
        match from_seed(seed, 4) {
            Fault::DropEvent { .. } => saw_drop = true,
            Fault::ReorderEvents { .. } => saw_reorder = true,
            Fault::CorruptNode { .. } => saw_corrupt = true,
        }
    }
    assert!(
        saw_drop && saw_reorder && saw_corrupt,
        "expected all three fault kinds within 200 seeds"
    );
}

fn job_timeline() -> Vec<TimelineEvent> {
    vec![
        TimelineEvent::Boundary(JobEvent::new(
            "j1",
            JobEventKind::NodeAllocated {
                node: "n1".into(),
                user: "u".into(),
                work_dir: "/tmp".into(),
            },
        ).unwrap()),
        TimelineEvent::Boundary(JobEvent::new(
            "j1",
            JobEventKind::TaskStarted {
                step_id: "0".into(),
                task_id: "0".into(),
                node: "n1".into(),
            },
        ).unwrap()),
        TimelineEvent::Boundary(JobEvent::new(
            "j1",
            JobEventKind::TaskExited {
                step_id: "0".into(),
                task_id: "0".into(),
                node: "n1".into(),
            },
        ).unwrap()),
        TimelineEvent::Boundary(JobEvent::new(
            "j1",
            JobEventKind::JobExited {
                exit_code: 0,
                signal: 0,
                job_name: "j".into(),
                node_list: "n1".into(),
            },
        ).unwrap()),
    ]
}

#[test]
fn corrupt_node_on_task_started_trips_the_node_allocated_invariant() {
    let clean = job_timeline();
    assert_eq!(check(&clean), vec![]);

    let faulted = apply_timeline(
        clean,
        &Fault::CorruptNode {
            index: 1,
            node: "wrong-node".into(),
        },
    );
    assert_eq!(
        faulted.len(),
        4,
        "corruption changes a field, not the event count"
    );
    let violations = check(&faulted);
    assert!(violations
        .iter()
        .any(|v| v.invariant == "task_started_requires_prior_node_allocated"));
}

#[test]
fn corrupt_node_on_node_allocated_trips_the_node_allocated_invariant() {
    let clean = job_timeline();
    let faulted = apply_timeline(
        clean,
        &Fault::CorruptNode {
            index: 0,
            node: "wrong-node".into(),
        },
    );
    let violations = check(&faulted);
    assert_eq!(violations.len(), 1);
    assert_eq!(
        violations[0].invariant,
        "task_started_requires_prior_node_allocated"
    );
}

#[test]
fn corrupt_node_on_job_exited_is_a_no_op() {
    let clean = job_timeline();
    let faulted = apply_timeline(
        clean.clone(),
        &Fault::CorruptNode {
            index: 3,
            node: "wrong-node".into(),
        },
    );
    assert_eq!(check(&faulted), check(&clean));
}

#[test]
fn corrupt_node_out_of_range_index_is_a_no_op() {
    let clean = job_timeline();
    let faulted = apply_timeline(
        clean.clone(),
        &Fault::CorruptNode {
            index: 99,
            node: "wrong-node".into(),
        },
    );
    assert_eq!(faulted.len(), clean.len());
    assert_eq!(check(&faulted), check(&clean));
}

#[test]
fn apply_treats_corrupt_node_as_a_no_op_for_a_generic_element_type() {
    let result = apply(
        events(),
        &Fault::CorruptNode {
            index: 0,
            node: "wrong-node".into(),
        },
    );
    assert_eq!(result.len(), events().len());
}

fn job_timeline_with_message() -> Vec<TimelineEvent> {
    vec![
        TimelineEvent::Boundary(JobEvent::new(
            "j1",
            JobEventKind::NodeAllocated {
                node: "n1".into(),
                user: "u".into(),
                work_dir: "/tmp".into(),
            },
        ).unwrap()),
        TimelineEvent::Message(MessageEvent {
            pid: 1,
            fd: 3,
            direction: "connect".into(),
            peer: None,
            bytes: 0,
            timestamp_ms: 100,
            job_id: Some("j1".into()),
            step_id: None,
            task_id: None,
            node: None,
        }),
        TimelineEvent::Message(MessageEvent {
            pid: 1,
            fd: 3,
            direction: "send".into(),
            peer: None,
            bytes: 8,
            timestamp_ms: 150,
            job_id: Some("j1".into()),
            step_id: None,
            task_id: None,
            node: None,
        }),
        TimelineEvent::Boundary(JobEvent::new(
            "j1",
            JobEventKind::JobExited {
                exit_code: 0,
                signal: 0,
                job_name: "j".into(),
                node_list: "n1".into(),
            },
        ).unwrap()),
    ]
}

#[test]
fn drop_event_removes_only_the_targeted_message_row() {
    let clean = job_timeline_with_message();
    assert_eq!(check(&clean), vec![]);

    let faulted = apply_timeline(clean, &Fault::DropEvent { index: 2 });
    assert_eq!(
        faulted.len(),
        3,
        "dropping the send row removes only that row"
    );
    assert!(matches!(faulted[1], TimelineEvent::Message(ref m) if m.direction == "connect"));
    assert_eq!(check(&faulted), vec![]);
}

#[test]
fn reorder_event_moving_a_message_before_its_connect_trips_the_invariant() {
    let clean = job_timeline_with_message();
    assert_eq!(check(&clean), vec![]);

    // Swap connect (index 1) and send (index 2): the send now sits at
    // an earlier position than its own connect.
    let faulted = apply_timeline(clean, &Fault::ReorderEvents { i: 1, j: 2 });
    assert_eq!(faulted.len(), 4, "reordering never changes the event count");
    let violations = check(&faulted);
    assert_eq!(violations.len(), 1);
    assert_eq!(violations[0].invariant, "connect_precedes_activity");
}

#[test]
fn seed_search_finds_the_first_failing_seed() {
    // Seed 1 leaves this timeline clean and seed 2 does not.
    let (seed, violations) =
        seed_search(&job_timeline(), 1..3).expect("expected a failing seed");
    assert_eq!(seed, 2);
    assert_eq!(violations.len(), 1);
}

#[test]
fn seed_search_returns_none_when_the_whole_range_is_clean() {
    assert_eq!(seed_search(&job_timeline(), 1..2), None);
}

#[test]
fn seed_search_returns_the_earliest_of_several_failing_seeds() {
    // Several of these seeds fail: the first one is reported.
    let (seed, _) = seed_search(&job_timeline(), 1..8).expect("expected a failing seed");
    assert_eq!(seed, 2);
}

#[test]
fn seed_search_stats_matches_fail_fast_first_failure() {
    // Both searches agree on what counts as a failure.
    let fail_fast = seed_search(&job_timeline(), 4..6);
    let stats = seed_search_stats(&job_timeline(), 4..6);
    assert_eq!(stats.first_failure, fail_fast);
}

#[test]
fn seed_search_stats_is_deterministic() {
    let a = seed_search_stats(&job_timeline(), 0..10);
    let b = seed_search_stats(&job_timeline(), 0..10);
    assert_eq!(a, b);
}

#[test]
fn seed_search_stats_counts_total_and_failing() {
    let stats = seed_search_stats(&job_timeline(), 0..10);
    assert_eq!(stats.total, 10);
    assert_eq!(stats.failing, 7);
}

#[test]
fn seed_search_stats_reports_zero_failing_for_a_clean_range() {
    let stats = seed_search_stats(&job_timeline(), 1..2);
    assert_eq!(stats.total, 1);
    assert_eq!(stats.failing, 0);
    assert_eq!(stats.first_failure, None);
}

#[test]
fn seed_search_stats_breaks_down_failures_by_invariant() {
    let stats = seed_search_stats(&job_timeline(), 0..10);
    let by_invariant_total: u64 = stats.by_invariant.entries().iter().map(|e| e.1).sum();
    assert!(
        by_invariant_total >= stats.failing,
        "each failing seed must be attributed to at least one invariant"
    );
    assert!(stats
        .by_invariant
        .entries()
        .iter()
        .all(|e| !e.0.is_empty()));
}

#[test]
fn from_seed_len_zero_does_not_panic() {
    let result = apply(Vec::<Event>::new(), &from_seed(7, 0));
    assert!(result.is_empty());
}

#[test]
fn from_seed_len_one_does_not_panic() {
    let only = vec![event(EventKind::Stdout {
        line: "only".into(),
    })];
    for seed in 0..20 {
        let result = apply(only.clone(), &from_seed(seed, 1));
        assert!(result.len() <= 1);
    }
}

#[derive(Debug, PartialEq)]
enum StandInTimelineEvent {
    Run(&'static str),
    Boundary(&'static str),
}

/// `apply` works on any element type: it never looks at what it moves.
#[test]
fn apply_is_generic_over_the_element_type() {
    let timeline = vec![
        StandInTimelineEvent::Boundary("node_allocated"),
        StandInTimelineEvent::Run("stdout: hi"),
        StandInTimelineEvent::Boundary("job_exited"),
    ];

    let result = apply(timeline, &Fault::DropEvent { index: 1 });

    assert_eq!(
        result,
        vec![
            StandInTimelineEvent::Boundary("node_allocated"),
            StandInTimelineEvent::Boundary("job_exited"),
        ]
    );
}

fn texts_of(events: &[Event]) -> Vec<String> {
    events.iter().map(|e| format!("{:?}", e.kind)).collect()
}

#[test]
fn dropping_keeps_the_order_of_what_is_left() {
    let before = events();
    let after = apply(before.clone(), &Fault::DropEvent { index: 1 });
    let mut expected = texts_of(&before);
    expected.remove(1);
    assert_eq!(texts_of(&after), expected);
}

#[test]
fn reordering_twice_gives_the_stream_back() {
    let before = events();
    for (i, j) in [(0, 3), (3, 0), (2, 2)] {
        let fault = Fault::ReorderEvents { i, j };
        let once = apply(before.clone(), &fault);
        let mut sorted = texts_of(&once);
        let mut original = texts_of(&before);
        sorted.sort();
        original.sort();
        assert_eq!(sorted, original);
        let twice = apply(once, &fault);
        assert_eq!(texts_of(&twice), texts_of(&before));
    }
}

#[test]
fn reordering_needs_both_positions() {
    let before = events();
    let after = apply(before.clone(), &Fault::ReorderEvents { i: 4, j: 0 });
    assert_eq!(texts_of(&after), texts_of(&before));
}

#[test]
fn corrupting_a_node_changes_that_field_alone() {
    let faulted = apply_timeline(
        job_timeline(),
        &Fault::CorruptNode {
            index: 2,
            node: "elsewhere".into(),
        },
    );
    let TimelineEvent::Boundary(event) = &faulted[2] else {
        panic!("expected a boundary event")
    };
    let JobEventKind::TaskExited {
        step_id,
        task_id,
        node,
    } = &event.kind
    else {
        panic!("expected an exited task")
    };
    assert_eq!(
        (step_id.as_str(), task_id.as_str(), node.as_str()),
        ("0", "0", "elsewhere")
    );
}

#[test]
fn seeded_faults_are_these() {
    let corrupt = |index: usize, node: &str| Fault::CorruptNode {
        index,
        node: node.to_string(),
    };
    let expected = [
        corrupt(2, "seed-corrupted-node-c"),
        corrupt(3, "seed-corrupted-node-a"),
        Fault::DropEvent { index: 1 },
        Fault::DropEvent { index: 1 },
        corrupt(0, "seed-corrupted-node-c"),
        Fault::DropEvent { index: 2 },
        Fault::DropEvent { index: 1 },
        Fault::ReorderEvents { i: 0, j: 2 },
    ];
    for (seed, fault) in expected.iter().enumerate() {
        assert!(fault_eq(&from_seed(seed as u64, 4), fault));
    }
    assert!(fault_eq(&from_seed(7, 0), &Fault::DropEvent { index: 0 }));
}

#[test]
fn draws_select_the_fault() {
    assert!(fault_eq(
        &fault_from_draws(0, 5, 2),
        &Fault::DropEvent { index: 5 }
    ));
    assert!(fault_eq(
        &fault_from_draws(1, 5, 2),
        &Fault::ReorderEvents { i: 5, j: 2 }
    ));
    assert!(fault_eq(
        &fault_from_draws(2, 5, 2),
        &Fault::CorruptNode {
            index: 5,
            node: "seed-corrupted-node-c".into()
        }
    ));
}

#[test]
fn a_failing_seed_gives_the_same_violations_again() {
    let (seed, found) = seed_search(&job_timeline(), 0..10).expect("some seed fails");
    assert_eq!(evaluate_seed(&job_timeline(), seed), found);
    for earlier in 0..seed {
        assert_eq!(evaluate_seed(&job_timeline(), earlier), vec![]);
    }
}

#[test]
fn a_count_by_invariant_is_at_most_the_failing_seeds() {
    let stats = seed_search_stats(&job_timeline(), 0..200);
    assert!(stats.failing <= stats.total);
    let entries = stats.by_invariant.entries();
    for (name, count) in &entries {
        assert!(*count <= stats.failing);
        assert_eq!(stats.by_invariant.get(name), Some(*count));
        assert!([
            "task_exited_requires_prior_task_started",
            "job_exited_is_last",
            "task_started_requires_prior_node_allocated",
            "connect_precedes_activity",
            "recv_precedes_task_exited",
        ]
        .contains(name));
    }
    let mut names: Vec<&str> = entries.iter().map(|e| e.0).collect();
    names.sort();
    assert_eq!(names, entries.iter().map(|e| e.0).collect::<Vec<&str>>());
    assert_eq!(stats.by_invariant.get("no such invariant"), None);
    for name in &names {
        let counted = (0..200)
            .filter(|seed| {
                evaluate_seed(&job_timeline(), *seed)
                    .iter()
                    .any(|v| v.invariant == *name)
            })
            .count();
        assert_eq!(stats.by_invariant.get(name), Some(counted as u64));
    }
}

#[test]
fn an_inverted_range_holds_no_seed() {
    let stats = seed_search_stats(&job_timeline(), 9..3);
    assert_eq!((stats.total, stats.failing), (0, 0));
    assert_eq!(stats.first_failure, None);
    assert!(stats.by_invariant.entries().is_empty());
    assert_eq!(seed_search(&job_timeline(), 9..3), None);
}

#[test]
fn a_fault_in_range_may_still_change_nothing() {
    let shown = |events: &[TimelineEvent]| format!("{events:?}");
    let before = job_timeline();
    let unchanged = |fault: &Fault| shown(&apply_timeline(before.clone(), fault)) == shown(&before);
    assert!(unchanged(&Fault::ReorderEvents { i: 2, j: 2 }));
    assert!(unchanged(&Fault::CorruptNode {
        index: 1,
        node: "n1".into()
    }));
    assert!(unchanged(&Fault::CorruptNode {
        index: 3,
        node: "elsewhere".into()
    }));
    assert!(!unchanged(&Fault::ReorderEvents { i: 1, j: 2 }));
    assert!(!unchanged(&Fault::CorruptNode {
        index: 1,
        node: "elsewhere".into()
    }));
    assert!(!unchanged(&Fault::DropEvent { index: 3 }));
}
