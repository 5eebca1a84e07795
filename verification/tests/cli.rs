//! The command line.

use ang::cli::{
    args_from, container_lines, dispatch, fuzz, job_event, log_file_name, replay, trace_store,
    usage, usage_status, Command, UsageError,
};
use ang::event::{Event, EventKind, JobEvent, JobEventKind, TimelineEvent};
use ang::fault::Fault;
use ang::invariants::Violation;
use ang::replay::OutputLine;
use ang::search::{seed_search, seed_search_stats, SeedSearchStats};
use ang::store::StoredEvent;
use ang::tally::Tally;

fn args(list: &[&str]) -> Vec<String> {
    list.iter().map(|a| a.to_string()).collect()
}

fn boundary(kind: JobEventKind) -> TimelineEvent {
    TimelineEvent::Boundary(JobEvent::at("j1", 100, kind))
}

fn job_timeline() -> Vec<TimelineEvent> {
    vec![
        boundary(JobEventKind::NodeAllocated {
            node: "n1".into(),
            user: "u".into(),
            work_dir: "/tmp".into(),
        }),
        boundary(JobEventKind::TaskStarted {
            step_id: "0".into(),
            task_id: "0".into(),
            node: "n1".into(),
        }),
        boundary(JobEventKind::TaskExited {
            step_id: "0".into(),
            task_id: "0".into(),
            node: "n1".into(),
        }),
        boundary(JobEventKind::JobExited {
            exit_code: 5,
            signal: 0,
            job_name: "j".into(),
            node_list: "n1".into(),
        }),
    ]
}

#[test]
fn a_flag_or_nothing_asks_for_the_usage() {
    assert!(matches!(dispatch(&args(&[])), Command::Usage { help: false }));
    assert!(matches!(dispatch(&args(&["-h"])), Command::Usage { help: true }));
    assert!(matches!(dispatch(&args(&["--help"])), Command::Usage { help: true }));
    assert!(matches!(dispatch(&args(&["-x", "-h"])), Command::Usage { help: false }));
    assert_eq!(usage_status(true), 0);
    assert_eq!(usage_status(false), 2);
    assert_eq!(usage().len(), 6);
    assert_eq!(usage()[0], "usage: ang <image> [command args...]");
}

#[test]
fn subcommands_get_the_arguments_that_follow() {
    assert!(matches!(dispatch(&args(&["job-event"])), Command::JobEvent { kind: None }));
    assert!(matches!(
        dispatch(&args(&["job-event", "task-started", "x"])),
        Command::JobEvent { kind: Some(kind) } if kind == "task-started"
    ));
    assert!(matches!(
        dispatch(&args(&["trace-store", "query"])),
        Command::TraceStore { args } if args == ["query"]
    ));
    assert!(matches!(
        dispatch(&args(&["replay", "--db"])),
        Command::Replay { args } if args == ["--db"]
    ));
    assert!(matches!(dispatch(&args(&["fuzz"])), Command::Fuzz { args } if args.is_empty()));
    assert!(matches!(
        dispatch(&args(&["alpine", "echo", "-n"])),
        Command::Container { image, command } if image == "alpine" && command == ["echo", "-n"]
    ));
    assert_eq!(args_from(&args(&["a", "b", "c"]), 1), vec!["b", "c"]);
}

#[test]
fn a_container_run_is_summed_up() {
    assert_eq!(log_file_name("r1"), "r1.eventlog.jsonl");
    assert_eq!(
        container_lines("r1", -1),
        vec!["run_id: r1", "eventlog: r1.eventlog.jsonl", "exit_code: -1"]
    );
}

fn slurm() -> job_event::SlurmEnv {
    job_event::SlurmEnv {
        job_id: Some("10".to_string()),
        node: Some("n1".to_string()),
        user: None,
        work_dir: Some("/w".to_string()),
        step_id: Some("0".to_string()),
        task_id: Some("3".to_string()),
        exit_code2: Some("7:9".to_string()),
        job_name: Some("j".to_string()),
        node_list: None,
    }
}

#[test]
fn hooks_record_what_slurm_says() {
    let (job_id, event) = job_event::run("node-allocated", &slurm()).unwrap();
    assert_eq!(job_id, "10");
    assert!(matches!(
        event,
        JobEventKind::NodeAllocated { node, user, work_dir }
            if node == "n1" && user == "unknown" && work_dir == "/w"
    ));
    assert!(matches!(
        job_event::run("task-started", &slurm()).unwrap().1,
        JobEventKind::TaskStarted { step_id, task_id, node }
            if step_id == "0" && task_id == "3" && node == "n1"
    ));
    assert!(matches!(
        job_event::run("task-exited", &slurm()).unwrap().1,
        JobEventKind::TaskExited { step_id, task_id, node }
            if step_id == "0" && task_id == "3" && node == "n1"
    ));
    assert!(matches!(
        job_event::run("job-exited", &slurm()).unwrap().1,
        JobEventKind::JobExited { exit_code: 7, signal: 9, job_name, node_list }
            if job_name == "j" && node_list == "unknown"
    ));
}

#[test]
fn hooks_need_a_job_and_a_known_kind() {
    let error = job_event::run("job-started", &slurm()).unwrap_err();
    assert_eq!(error.message(), "unknown job-event kind: job-started");
    let mut outside = slurm();
    outside.job_id = None;
    let error = job_event::run("job-started", &outside).unwrap_err();
    assert_eq!(
        error.message(),
        "SLURM_JOB_ID not set; must be run from a Slurm hook"
    );
}

#[test]
fn exit_codes_are_read_up_to_the_first_colon() {
    assert_eq!(job_event::parse_exit_code2("0:0"), (0, 0));
    assert_eq!(job_event::parse_exit_code2("-3:+9"), (-3, 9));
    assert_eq!(job_event::parse_exit_code2("12"), (12, -1));
    assert_eq!(job_event::parse_exit_code2("unknown"), (-1, -1));
    assert_eq!(job_event::parse_exit_code2(":15"), (-1, 15));
    assert_eq!(job_event::parse_exit_code2("1:2:3"), (1, -1));
    assert_eq!(job_event::parse_exit_code2("2147483648:2147483647"), (-1, 2147483647));
    assert_eq!(job_event::parse_exit_code2(""), (-1, -1));
}

#[test]
fn boundary_logs_have_a_default_directory() {
    assert_eq!(job_event::boundary_dir(None), "/var/log/ang/boundary");
    assert_eq!(job_event::boundary_dir(Some("/d".to_string())), "/d");
}

#[test]
fn fuzz_needs_a_job_a_store_and_seeds() {
    let plan = fuzz::run(&args(&["--job-id", "1", "--db", "d", "--seeds", "0", "10"])).unwrap();
    assert_eq!((plan.job_id.as_str(), plan.db.as_str()), ("1", "d"));
    assert_eq!((plan.start, plan.end, plan.exhaustive), (0, 10, false));
    let plan = fuzz::run(&args(&[
        "--exhaustive",
        "--db",
        "d",
        "--seeds",
        "3",
        "18446744073709551615",
        "--job-id",
        "1",
        "--job-id",
        "2",
    ]))
    .unwrap();
    assert_eq!(plan.job_id, "2");
    assert_eq!((plan.start, plan.end, plan.exhaustive), (3, u64::MAX, true));
    for wrong in [
        args(&[]),
        args(&["--job-id", "1", "--db", "d"]),
        args(&["--job-id", "1", "--seeds", "0", "1"]),
        args(&["--db", "d", "--seeds", "0", "1"]),
        args(&["--job-id", "1", "--db", "d", "--seeds", "0"]),
        args(&["--job-id", "1", "--db", "d", "--seeds", "0", "x"]),
        args(&["--job-id", "1", "--db", "d", "--seeds", "0", "18446744073709551616"]),
        args(&["--job-id", "1", "--db", "d", "--seeds", "0", "1", "--seed"]),
        args(&["--job-id"]),
        args(&["--db"]),
    ] {
        assert!(matches!(fuzz::run(&wrong), Err(UsageError)));
    }
}

#[test]
fn fuzz_reports_the_first_failing_seed() {
    let (seed, found) = seed_search(&job_timeline(), 1..3).unwrap();
    let report = fuzz::fuzz(&job_timeline(), 1, 3);
    assert_eq!(report.status, 2);
    assert_eq!(report.lines[0], format!("seed {seed} fails:"));
    assert_eq!(report.lines.len(), 1 + found.len());
    assert_eq!(
        report.lines[1],
        format!("[invariant] {}", found[0].description)
    );
    let clean = fuzz::fuzz(&job_timeline(), 1, 2);
    assert_eq!(clean.status, 0);
    assert_eq!(clean.lines, vec!["no violations in 1 seed(s)"]);
    assert_eq!(
        fuzz::fuzz(&job_timeline(), 5, 2).lines,
        vec!["no violations in 0 seed(s)"]
    );
}

#[test]
fn an_exhaustive_search_is_broken_down_by_invariant() {
    let stats = seed_search_stats(&job_timeline(), 0..10);
    let report = fuzz::exhaustive_report(&stats);
    assert_eq!(report.seeds, 10);
    assert_eq!(report.total, "total: 10");
    assert_eq!(report.status, 2);
    let expected: Vec<String> = stats
        .by_invariant
        .entries()
        .iter()
        .map(|(name, count)| format!("  {name}: {count}"))
        .collect();
    assert!(!expected.is_empty());
    assert_eq!(report.breakdown, expected);
    let (seed, found) = stats.first_failure.as_ref().unwrap();
    assert!(!found.is_empty());
    assert_eq!(
        report.first_failure,
        vec![format!("first failure: seed {seed}")]
    );

    let clean = fuzz::exhaustive_report(&seed_search_stats(&job_timeline(), 1..2));
    assert_eq!(clean.status, 0);
    assert!(clean.breakdown.is_empty());
    assert!(clean.first_failure.is_empty());
}

#[test]
fn a_report_on_every_seed_ends_with_the_first_failing_one() {
    let mut by_invariant = Tally::new();
    for (name, count) in [
        ("task_started_requires_prior_node_allocated", 72),
        ("connect_precedes_activity", 28),
        ("recv_precedes_task_exited", 27),
        ("task_exited_requires_prior_task_started", 44),
        ("job_exited_is_last", 8),
    ] {
        for _ in 0..count {
            by_invariant.count(name);
        }
    }
    let violation = Violation {
        invariant: "job_exited_is_last",
        description: "any".to_string(),
    };
    let report = fuzz::exhaustive_report(&SeedSearchStats {
        total: 1000,
        failing: 147,
        first_failure: Some((7, vec![violation])),
        by_invariant,
    });
    assert_eq!(report.total, "total: 1000");
    assert_eq!(
        report.breakdown,
        vec![
            "  connect_precedes_activity: 28",
            "  job_exited_is_last: 8",
            "  recv_precedes_task_exited: 27",
            "  task_exited_requires_prior_task_started: 44",
            "  task_started_requires_prior_node_allocated: 72",
        ]
    );
    assert_eq!(report.first_failure, vec!["first failure: seed 7"]);
    assert_eq!(report.status, 2);
}

#[test]
fn both_modes_of_the_search_end_alike() {
    for (start, end) in [(0, 10), (1, 2), (1, 3), (9, 3)] {
        let (failing, all) = fuzz::fuzz_exhaustive(&job_timeline(), start, end);
        let first = fuzz::fuzz(&job_timeline(), start, end);
        assert_eq!(all.status, first.status);
        assert_eq!(all.status == 2, failing > 0);
        let stats = seed_search_stats(&job_timeline(), start..end);
        assert_eq!(failing, stats.failing);
        assert_eq!(all, fuzz::exhaustive_report(&stats));

        let plan = |exhaustive: bool| fuzz::FuzzArgs {
            job_id: "j1".to_string(),
            db: "d".to_string(),
            start,
            end,
            exhaustive,
        };
        assert_eq!(
            fuzz::search(&plan(false), &job_timeline()),
            fuzz::Outcome::First(first)
        );
        assert_eq!(
            fuzz::search(&plan(true), &job_timeline()),
            fuzz::Outcome::All(failing, all)
        );
    }
}

#[test]
fn replay_reads_its_target_and_fault() {
    let plan = replay::run(&args(&["--run-id", "r1", "--db", "d"])).unwrap();
    assert_eq!(plan.db, "d");
    assert_eq!(plan.target, Some(replay::Target::Run("r1".to_string())));
    assert!(plan.fault.is_none());

    let plan = replay::run(&args(&["--job-id", "1", "--db", "d", "--drop-event", "4"])).unwrap();
    assert_eq!(plan.target, Some(replay::Target::Job("1".to_string())));
    assert!(matches!(
        plan.fault,
        Some(replay::FaultSpec::Explicit(Fault::DropEvent { index: 4 }))
    ));

    let plan = replay::run(&args(&["--reorder-events", "1", "2", "--db", "d"])).unwrap();
    assert_eq!(plan.target, None);
    assert!(matches!(
        plan.fault,
        Some(replay::FaultSpec::Explicit(Fault::ReorderEvents { i: 1, j: 2 }))
    ));

    let plan = replay::run(&args(&["--corrupt-node", "1", "n9", "--db", "d"])).unwrap();
    assert!(matches!(
        plan.fault,
        Some(replay::FaultSpec::Explicit(Fault::CorruptNode { index: 1, node })) if node == "n9"
    ));

    let plan = replay::run(&args(&[
        "--seed", "7", "--db", "d", "--run-id", "a", "--job-id", "b",
    ]))
    .unwrap();
    assert_eq!(plan.target, None);
    assert!(matches!(plan.fault, Some(replay::FaultSpec::Seeded(7))));
}

#[test]
fn replay_refuses_what_it_cannot_read() {
    for wrong in [
        args(&[]),
        args(&["--run-id", "r1"]),
        args(&["--db"]),
        args(&["--run-id"]),
        args(&["--job-id"]),
        args(&["--db", "d", "--drop-event"]),
        args(&["--db", "d", "--drop-event", "-1"]),
        args(&["--db", "d", "--reorder-events", "1"]),
        args(&["--db", "d", "--reorder-events", "1", "b"]),
        args(&["--db", "d", "--corrupt-node", "1"]),
        args(&["--db", "d", "--corrupt-node", "x", "n"]),
        args(&["--db", "d", "--seed"]),
        args(&["--db", "d", "--seed", "x"]),
        args(&["--db", "d", "--seed", "1", "--drop-event", "2"]),
        args(&["--db", "d", "--what"]),
    ] {
        assert!(matches!(replay::run(&wrong), Err(UsageError)));
    }
}

#[test]
fn a_replayed_run_ends_with_its_exit_code() {
    let events = || {
        vec![
            Event::at("r1", None, 1, EventKind::Stdout { line: "hi".into() }),
            Event::at("r1", None, 2, EventKind::ProcessExit { exit_code: 7 }),
        ]
    };
    let done = replay::replay_run("r1", events(), &None);
    assert_eq!(done.status, 7);
    assert_eq!(done.lines, vec![OutputLine::Stdout("hi".to_string())]);

    let drop_exit = Some(replay::FaultSpec::Explicit(Fault::DropEvent { index: 1 }));
    let done = replay::replay_run("r1", events(), &drop_exit);
    assert_eq!(done.status, 1);
    assert_eq!(
        done.lines[1],
        OutputLine::Stderr("no process_exit event found for run_id 'r1'".to_string())
    );
}

#[test]
fn a_replayed_job_reports_its_violations_first() {
    let done = replay::replay_job("j1", job_timeline(), &None);
    assert_eq!(done.status, 5);
    assert_eq!(done.lines.len(), 4);

    let drop_start = Some(replay::FaultSpec::Explicit(Fault::DropEvent { index: 1 }));
    let done = replay::replay_job("j1", job_timeline(), &drop_start);
    assert_eq!(done.lines.len(), 4);
    assert_eq!(
        done.lines[0],
        OutputLine::Stderr(
            "[invariant] task_exited step_id=0 task_id=0 node=n1 with no prior task_started"
                .to_string()
        )
    );

    let drop_exit = Some(replay::FaultSpec::Explicit(Fault::DropEvent { index: 3 }));
    let done = replay::replay_job("j1", job_timeline(), &drop_exit);
    assert_eq!(done.status, 1);
    assert_eq!(
        done.lines[3],
        OutputLine::Stderr("no job_exited event found for job_id 'j1'".to_string())
    );
}

#[test]
fn a_found_seed_is_reproduced_by_replaying_it() {
    for start in 0..20 {
        let Some((seed, found)) = seed_search(&job_timeline(), start..20) else {
            continue;
        };
        let done = replay::replay_job("j1", job_timeline(), &Some(replay::FaultSpec::Seeded(seed)));
        for (k, violation) in found.iter().enumerate() {
            assert_eq!(
                done.lines[k],
                OutputLine::Stderr(format!("[invariant] {}", violation.description))
            );
        }
    }
}

#[test]
fn ingestion_names_a_store_and_logs() {
    assert_eq!(
        trace_store::run(&args(&["ingest-run", "--db", "d", "a", "b"])),
        Ok(trace_store::StoreCommand::Ingest {
            log: trace_store::LogKind::Run,
            db: "d".to_string(),
            paths: args(&["a", "b"]),
        })
    );
    assert!(matches!(
        trace_store::run(&args(&["ingest-job", "--db", "d"])),
        Ok(trace_store::StoreCommand::Ingest { log: trace_store::LogKind::Job, .. })
    ));
    assert!(matches!(
        trace_store::run(&args(&["ingest-message", "--db", "d"])),
        Ok(trace_store::StoreCommand::Ingest { log: trace_store::LogKind::Message, .. })
    ));
    assert_eq!(
        trace_store::run(&args(&[])),
        Err(trace_store::StoreArgsError::Usage)
    );
    assert_eq!(
        trace_store::run(&args(&["ingest"])),
        Err(trace_store::StoreArgsError::Usage)
    );
}

#[test]
fn the_path_of_the_store_comes_first() {
    let error = |list: &[&str]| match trace_store::run(&args(list)) {
        Err(trace_store::StoreArgsError::Db(error)) => error.message(),
        other => panic!("unexpected {other:?}"),
    };
    assert_eq!(error(&["query"]), "expected --db <path>");
    assert_eq!(error(&["query", "d"]), "expected --db <path>, got 'd'");
    assert_eq!(error(&["ingest-run", "--db"]), "--db requires a path");
}

#[test]
fn queries_select_by_run_job_or_kind() {
    let selector = |list: &[&str]| match trace_store::run(&args(list)) {
        Ok(trace_store::StoreCommand::Query { db, selector }) if db == "d" => selector,
        other => panic!("unexpected {other:?}"),
    };
    assert_eq!(
        selector(&["query", "--db", "d", "--run-id", "r", "more"]),
        Ok(trace_store::Selector::Run("r".to_string()))
    );
    assert_eq!(
        selector(&["query", "--db", "d", "--job-id", "1"]),
        Ok(trace_store::Selector::Job("1".to_string()))
    );
    assert_eq!(
        selector(&["query", "--db", "d", "--kind", "stdout"]),
        Ok(trace_store::Selector::Kind("stdout".to_string()))
    );
    assert_eq!(
        selector(&["query", "--db", "d"]),
        Err(trace_store::SelectorError::Usage)
    );
    assert_eq!(
        selector(&["query", "--db", "d", "--what", "x"]),
        Err(trace_store::SelectorError::Usage)
    );
    assert_eq!(
        selector(&["query", "--db", "d", "--what"]),
        Err(trace_store::SelectorError::NoValue("--what".to_string()))
    );
    assert_eq!(
        trace_store::no_value_text("--kind"),
        "--kind requires a value"
    );
}

#[test]
fn what_the_store_did_is_printed() {
    assert_eq!(trace_store::ingested_text("a.jsonl", 3), "a.jsonl: 3 event(s)");
    assert_eq!(
        trace_store::total_text(12, "t.db"),
        "total: 12 event(s) ingested into t.db"
    );
    let row = |ms: i64, payload: &str| StoredEvent {
        run_id: None,
        job_id: None,
        timestamp_ms: ms,
        kind: "k".to_string(),
        payload: payload.to_string(),
    };
    assert_eq!(
        trace_store::query_lines(&vec![row(100, "{}"), row(-5, "[]")]),
        vec!["100 {}", "-5 []", "2 event(s)"]
    );
    assert_eq!(trace_store::query_lines(&Vec::new()), vec!["0 event(s)"]);
}
