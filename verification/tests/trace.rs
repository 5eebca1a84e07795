//! Rows in a store: how ingested rows come back out of SQLite.

use ang::event::{Event, EventKind, JobEvent, JobEventKind, MessageEvent};
use ang::log::entry_lines;
use ang::store::{
    job_row, message_row, row_shape, run_row, select_rows, Column, RowShape, StoredEvent,
    INSERT_ROW, SCHEMA,
};
use rusqlite::Connection;

fn open() -> Connection {
    let conn = Connection::open_in_memory().unwrap();
    conn.execute_batch(SCHEMA).unwrap();
    conn
}

fn insert(conn: &Connection, rows: &[StoredEvent]) -> usize {
    rows.iter()
        .map(|row| {
            conn.execute(
                INSERT_ROW,
                (
                    &row.run_id,
                    &row.job_id,
                    row.timestamp_ms,
                    &row.kind,
                    &row.payload,
                ),
            )
            .unwrap()
        })
        .sum()
}

fn select(conn: &Connection, column: Column, value: &str) -> Vec<StoredEvent> {
    let mut stmt = conn.prepare(&select_rows(column)).unwrap();
    let rows = stmt
        .query_map([value], |row| {
            Ok(StoredEvent {
                run_id: row.get(0)?,
                job_id: row.get(1)?,
                timestamp_ms: row.get(2)?,
                kind: row.get(3)?,
                payload: row.get(4)?,
            })
        })
        .unwrap();
    rows.map(|row| row.unwrap()).collect()
}

fn run_line(run_id: &str, job_id: Option<&str>, ms: u128, kind: EventKind, line: &str) -> StoredEvent {
    run_row(
        &Event::at(run_id, job_id.map(str::to_string), ms, kind),
        line,
    )
    .unwrap()
}

fn job_line(job_id: &str, ms: u128, kind: JobEventKind, line: &str) -> StoredEvent {
    job_row(&JobEvent::at(job_id, ms, kind), line).unwrap()
}

fn message_line(pid: u32, fd: i32, direction: &str, ms: u128, line: &str) -> StoredEvent {
    message_row(
        &MessageEvent {
            pid,
            fd,
            direction: direction.to_string(),
            peer: None,
            bytes: 8,
            timestamp_ms: ms,
            job_id: Some("50".to_string()),
            step_id: None,
            task_id: None,
            node: None,
        },
        line,
    )
}

fn process_start() -> EventKind {
    EventKind::ProcessStart {
        image: "alpine".to_string(),
        command: vec!["echo".to_string(), "hi".to_string()],
    }
}

fn process_exit() -> EventKind {
    EventKind::ProcessExit { exit_code: 0 }
}

fn node_allocated() -> JobEventKind {
    JobEventKind::NodeAllocated {
        node: "n1".to_string(),
        user: "u".to_string(),
        work_dir: "/tmp".to_string(),
    }
}

fn task_exited() -> JobEventKind {
    JobEventKind::TaskExited {
        step_id: "0".to_string(),
        task_id: "0".to_string(),
        node: "n1".to_string(),
    }
}

fn job_exited() -> JobEventKind {
    JobEventKind::JobExited {
        exit_code: 0,
        signal: 0,
        job_name: "j".to_string(),
        node_list: "n1".to_string(),
    }
}

#[test]
fn ingests_and_queries_run_eventlog_by_run_id() {
    let conn = open();
    let n = insert(
        &conn,
        &[
            run_line(
                "r1",
                None,
                100,
                process_start(),
                r#"{"run_id":"r1","timestamp_ms":100,"kind":"process_start","image":"alpine","command":["echo","hi"]}"#,
            ),
            run_line(
                "r1",
                None,
                200,
                EventKind::Stdout {
                    line: "hi".to_string(),
                },
                r#"{"run_id":"r1","timestamp_ms":200,"kind":"stdout","line":"hi"}"#,
            ),
            run_line(
                "r1",
                None,
                300,
                process_exit(),
                r#"{"run_id":"r1","timestamp_ms":300,"kind":"process_exit","exit_code":0}"#,
            ),
        ],
    );
    assert_eq!(n, 3);

    let events = select(&conn, Column::Run, "r1");
    assert_eq!(events.len(), 3);
    assert_eq!(events[0].kind, "process_start");
    assert_eq!(events[1].kind, "stdout");
    assert_eq!(events[2].kind, "process_exit");
    assert!(events.iter().all(|e| e.job_id.is_none()));
}

#[test]
fn ingests_and_queries_job_eventlog_by_job_id_and_kind() {
    let conn = open();
    let n = insert(
        &conn,
        &[
            job_line(
                "10",
                100,
                node_allocated(),
                r#"{"job_id":"10","timestamp_ms":100,"kind":"node_allocated","node":"n1","user":"u","work_dir":"/tmp"}"#,
            ),
            job_line(
                "10",
                200,
                task_exited(),
                r#"{"job_id":"10","timestamp_ms":200,"kind":"task_exited","step_id":"0","task_id":"0","node":"n1"}"#,
            ),
            job_line(
                "10",
                300,
                job_exited(),
                r#"{"job_id":"10","timestamp_ms":300,"kind":"job_exited","exit_code":0,"signal":0,"job_name":"j","node_list":"n1"}"#,
            ),
        ],
    );
    assert_eq!(n, 3);

    let events = select(&conn, Column::Job, "10");
    assert_eq!(events.len(), 3);
    assert!(events.iter().all(|e| e.run_id.is_none()));

    let exits = select(&conn, Column::Kind, "task_exited");
    assert_eq!(exits.len(), 1);
    assert_eq!(exits[0].job_id.as_deref(), Some("10"));
}

#[test]
fn events_are_ordered_by_timestamp_not_insertion_order() {
    let conn = open();
    insert(
        &conn,
        &[
            run_line(
                "r2",
                None,
                300,
                process_exit(),
                r#"{"run_id":"r2","timestamp_ms":300,"kind":"process_exit","exit_code":0}"#,
            ),
            run_line(
                "r2",
                None,
                100,
                process_start(),
                r#"{"run_id":"r2","timestamp_ms":100,"kind":"process_start","image":"alpine","command":[]}"#,
            ),
        ],
    );

    let events = select(&conn, Column::Run, "r2");
    assert_eq!(events[0].timestamp_ms, 100);
    assert_eq!(events[1].timestamp_ms, 300);
}

#[test]
fn events_for_job_returns_merged_job_and_run_timeline() {
    let conn = open();
    insert(
        &conn,
        &[
            job_line(
                "20",
                100,
                node_allocated(),
                r#"{"job_id":"20","timestamp_ms":100,"kind":"node_allocated","node":"n1","user":"u","work_dir":"/tmp"}"#,
            ),
            job_line(
                "20",
                400,
                job_exited(),
                r#"{"job_id":"20","timestamp_ms":400,"kind":"job_exited","exit_code":0,"signal":0,"job_name":"j","node_list":"n1"}"#,
            ),
            run_line(
                "r20",
                Some("20"),
                200,
                process_start(),
                r#"{"run_id":"r20","job_id":"20","timestamp_ms":200,"kind":"process_start","image":"alpine","command":["echo","hi"]}"#,
            ),
            run_line(
                "r20",
                Some("20"),
                300,
                process_exit(),
                r#"{"run_id":"r20","job_id":"20","timestamp_ms":300,"kind":"process_exit","exit_code":0}"#,
            ),
        ],
    );

    let timeline = select(&conn, Column::Job, "20");
    let kinds: Vec<&str> = timeline.iter().map(|e| e.kind.as_str()).collect();
    assert_eq!(
        kinds,
        vec![
            "node_allocated",
            "process_start",
            "process_exit",
            "job_exited"
        ]
    );
    assert_eq!(timeline[1].run_id.as_deref(), Some("r20"));
    assert_eq!(timeline[1].job_id.as_deref(), Some("20"));
    let shapes: Vec<RowShape> = timeline.iter().map(row_shape).collect();
    assert_eq!(
        shapes,
        vec![
            RowShape::Boundary,
            RowShape::Run,
            RowShape::Run,
            RowShape::Boundary
        ]
    );
}

#[test]
fn reingesting_same_run_eventlog_is_idempotent() {
    let conn = open();
    let rows = [run_line(
        "r3",
        None,
        100,
        process_exit(),
        r#"{"run_id":"r3","timestamp_ms":100,"kind":"process_exit","exit_code":0}"#,
    )];
    assert_eq!(insert(&conn, &rows), 1);
    assert_eq!(insert(&conn, &rows), 0);

    assert_eq!(select(&conn, Column::Run, "r3").len(), 1);
}

#[test]
fn ingests_and_queries_message_eventlog_by_job_id_and_kind() {
    let conn = open();
    let n = insert(
        &conn,
        &[
            message_line(
                1,
                3,
                "connect",
                100,
                r#"{"pid":1,"fd":3,"direction":"connect","peer":"10.0.0.2:9000","bytes":0,"timestamp_ms":100,"job_id":"50"}"#,
            ),
            message_line(
                1,
                3,
                "send",
                150,
                r#"{"pid":1,"fd":3,"direction":"send","peer":"10.0.0.2:9000","bytes":8,"timestamp_ms":150,"job_id":"50"}"#,
            ),
            message_line(
                2,
                4,
                "recv",
                150,
                r#"{"pid":2,"fd":4,"direction":"recv","peer":"10.0.0.1:54321","bytes":8,"timestamp_ms":150,"job_id":"50"}"#,
            ),
        ],
    );
    assert_eq!(n, 3);

    let events = select(&conn, Column::Job, "50");
    assert_eq!(events.len(), 3);
    assert!(events
        .iter()
        .all(|e| e.run_id.is_none() && e.job_id.as_deref() == Some("50")));

    assert_eq!(select(&conn, Column::Kind, "message_send").len(), 1);
    assert_eq!(select(&conn, Column::Kind, "message_recv").len(), 1);
    assert_eq!(select(&conn, Column::Kind, "message_connect").len(), 1);
}

#[test]
fn reingesting_same_job_eventlog_is_idempotent() {
    let conn = open();
    let rows = [job_line(
        "40",
        100,
        node_allocated(),
        r#"{"job_id":"40","timestamp_ms":100,"kind":"node_allocated","node":"n1","user":"u","work_dir":"/tmp"}"#,
    )];
    assert_eq!(insert(&conn, &rows), 1);
    assert_eq!(insert(&conn, &rows), 0);

    assert_eq!(select(&conn, Column::Job, "40").len(), 1);
}

#[test]
fn the_lines_of_a_log_but_the_blank_ones_become_rows() {
    let log = "{\"kind\":\"a\"}\n\n  \t\n{\"kind\":\"b\"}\n";
    let rows: Vec<StoredEvent> = entry_lines(log)
        .iter()
        .map(|line| run_line("r4", None, 1, process_exit(), line))
        .collect();
    let conn = open();
    assert_eq!(insert(&conn, &rows), 2);
    let kinds: Vec<String> = select(&conn, Column::Run, "r4")
        .into_iter()
        .map(|row| row.kind)
        .collect();
    assert_eq!(kinds, vec!["a", "b"]);
}
