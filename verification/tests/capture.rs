//! Which socket calls are logged, what a container is run with, and what
//! events are made of.

use ang::capture::{
    call_event, connect_event, is_logged, is_socket, peer_string, Attribution, PeerName,
};
use ang::clock::{now_ms, time_of, ClockError};
use ang::event::{Event, EventKind, JobEvent, JobEventKind};
use ang::runtime::{exit_event, recorded_exit_code, RunSpec};
use std::time::{Duration, UNIX_EPOCH};

fn task() -> Attribution {
    Attribution {
        job_id: Some("77".to_string()),
        step_id: Some("0".to_string()),
        task_id: Some("1".to_string()),
        node: Some("n1".to_string()),
    }
}

fn loopback() -> PeerName {
    PeerName {
        inet: true,
        octets: [127, 0, 0, 1],
        port: 9000,
    }
}

#[test]
fn log_call_skips_zero_and_negative_byte_counts() {
    assert!(!is_logged(0, true));
    assert!(!is_logged(-1, true));
    assert!(is_logged(1, true));
    assert!(!is_logged(1, false));
}

#[test]
fn sockets_are_told_from_other_files_by_their_mode() {
    assert!(is_socket(Some(0o140777)));
    assert!(!is_socket(Some(0o100644)));
    assert!(!is_socket(Some(0o160000)));
    assert!(!is_socket(None));
}

#[test]
fn peers_are_written_as_address_and_port() {
    assert_eq!(
        peer_string(Some(loopback())),
        Some("127.0.0.1:9000".to_string())
    );
    assert_eq!(
        peer_string(Some(PeerName {
            inet: true,
            octets: [255, 10, 0, 99],
            port: 65535,
        })),
        Some("255.10.0.99:65535".to_string())
    );
    assert_eq!(
        peer_string(Some(PeerName {
            inet: false,
            octets: [0; 4],
            port: 1,
        })),
        None
    );
    assert_eq!(peer_string(None), None);
}

#[test]
fn a_call_is_recorded_with_its_task() {
    let event = call_event(123, 4, "send", Some(loopback()), 8, 42, task());
    assert_eq!((event.pid, event.fd, event.bytes), (123, 4, 8));
    assert_eq!(event.direction, "send");
    assert_eq!(event.peer.as_deref(), Some("127.0.0.1:9000"));
    assert_eq!(event.timestamp_ms, 42);
    assert_eq!(event.job_id.as_deref(), Some("77"));
    assert_eq!(event.step_id.as_deref(), Some("0"));
    assert_eq!(event.task_id.as_deref(), Some("1"));
    assert_eq!(event.node.as_deref(), Some("n1"));
}

#[test]
fn only_a_successful_connect_is_recorded() {
    let event = connect_event(0, 1, 3, None, 100, task()).unwrap();
    assert_eq!(event.direction, "connect");
    assert_eq!(event.bytes, 0);
    assert_eq!(event.peer, None);
    assert!(connect_event(-1, 1, 3, None, 100, task()).is_none());
}

#[test]
fn a_container_is_removed_after_its_run() {
    let spec = RunSpec {
        image: "alpine".to_string(),
        command: vec!["echo".to_string(), "hi".to_string()],
    };
    assert_eq!(spec.docker_args(), vec!["run", "--rm", "alpine", "echo", "hi"]);
    assert!(matches!(
        spec.start_event(),
        EventKind::ProcessStart { image, command } if image == "alpine" && command == ["echo", "hi"]
    ));
}

#[test]
fn a_process_without_an_exit_code_is_recorded_with_minus_one() {
    assert_eq!(recorded_exit_code(None), -1);
    assert_eq!(recorded_exit_code(Some(3)), 3);
    assert!(matches!(
        exit_event(3),
        EventKind::ProcessExit { exit_code: 3 }
    ));
}

#[test]
fn new_events_carry_the_time_of_the_clock() {
    let before = now_ms().unwrap();
    let run = Event::new("r1", Some("20".to_string()), EventKind::ProcessExit { exit_code: 0 })
        .unwrap();
    let job = JobEvent::new(
        "20",
        JobEventKind::JobExited {
            exit_code: 0,
            signal: 0,
            job_name: "j".to_string(),
            node_list: "n1".to_string(),
        },
    )
    .unwrap();
    let after = now_ms().unwrap();
    assert!(before > 1_600_000_000_000);
    assert!(before <= run.timestamp_ms && run.timestamp_ms <= after);
    assert!(before <= job.timestamp_ms && job.timestamp_ms <= after);
    assert_eq!(run.run_id, "r1");
    assert_eq!(run.job_id.as_deref(), Some("20"));
    assert_eq!(job.job_id, "20");
}

#[test]
fn a_clock_before_the_epoch_stamps_no_event() {
    let early = UNIX_EPOCH
        .duration_since(UNIX_EPOCH + Duration::from_secs(1))
        .unwrap_err();
    assert_eq!(time_of(Err(early)), Err(ClockError));
    assert_eq!(time_of(Ok(42)), Ok(42));

    let run = Event::stamped("r1", None, Ok(42), EventKind::ProcessExit { exit_code: 0 }).unwrap();
    assert_eq!((run.run_id.as_str(), run.timestamp_ms), ("r1", 42));
    let kind = || JobEventKind::JobExited {
        exit_code: 0,
        signal: 0,
        job_name: "j".to_string(),
        node_list: "n1".to_string(),
    };
    let job = JobEvent::stamped("20", Ok(42), kind()).unwrap();
    assert_eq!((job.job_id.as_str(), job.timestamp_ms), ("20", 42));

    assert!(matches!(
        Event::stamped("r1", None, Err(ClockError), EventKind::ProcessExit { exit_code: 0 }),
        Err(ClockError)
    ));
    assert!(matches!(
        JobEvent::stamped("20", Err(ClockError), kind()),
        Err(ClockError)
    ));
}
