//! The rows of the trace store.

use ang::event::{Event, EventKind, JobEvent, JobEventKind, MessageEvent};
use ang::store::{
    job_row, kind_of_tag, kind_tag, message_row, row_shape, run_row, run_row_of_kind, select_rows,
    stored_ms, Column, RowError, RowShape, StoredEvent, INSERT_ROW,
};

fn exit_event(ms: u128) -> Event {
    Event::at(
        "r1",
        Some("20".to_string()),
        ms,
        EventKind::ProcessExit { exit_code: 0 },
    )
}

fn allocation() -> JobEvent {
    JobEvent::at(
        "10",
        100,
        JobEventKind::NodeAllocated {
            node: "n1".into(),
            user: "u".into(),
            work_dir: "/tmp".into(),
        },
    )
}

fn sent() -> MessageEvent {
    MessageEvent {
        pid: 1,
        fd: 3,
        direction: "send".to_string(),
        peer: Some("10.0.0.2:9000".to_string()),
        bytes: 8,
        timestamp_ms: 150,
        job_id: Some("50".to_string()),
        step_id: None,
        task_id: None,
        node: None,
    }
}

#[test]
fn a_run_row_holds_what_its_line_says() {
    let line = r#"{"run_id":"r1","timestamp_ms":300,"kind":"process_exit","exit_code":0}"#;
    let row = run_row(&exit_event(300), line).unwrap();
    assert_eq!(
        row,
        StoredEvent {
            run_id: Some("r1".to_string()),
            job_id: Some("20".to_string()),
            timestamp_ms: 300,
            kind: "process_exit".to_string(),
            payload: line.to_string(),
        }
    );
    assert_eq!(row_shape(&row), RowShape::Run);
}

#[test]
fn a_boundary_row_has_no_run() {
    let line = r#"{"job_id":"10","timestamp_ms":100,"kind":"node_allocated","node":"n1","user":"u","work_dir":"/tmp"}"#;
    let row = job_row(&allocation(), line).unwrap();
    assert_eq!(row.run_id, None);
    assert_eq!(row.job_id.as_deref(), Some("10"));
    assert_eq!(row.kind, "node_allocated");
    assert_eq!(row.payload, line);
    assert_eq!(row_shape(&row), RowShape::Boundary);
}

#[test]
fn a_message_row_is_told_by_its_kind() {
    let row = message_row(&sent(), "{}");
    assert_eq!(row.run_id, None);
    assert_eq!(row.job_id.as_deref(), Some("50"));
    assert_eq!(row.timestamp_ms, 150);
    assert_eq!(row.kind, "message_send");
    assert_eq!(row_shape(&row), RowShape::Message);
}

#[test]
fn rows_of_one_job_share_its_id() {
    let mut message = sent();
    message.job_id = Some("10".to_string());
    let rows = [
        job_row(&allocation(), "{}").unwrap(),
        message_row(&message, "{}"),
    ];
    assert!(rows.iter().all(|r| r.job_id.as_deref() == Some("10")));
}

#[test]
fn the_kind_of_a_line_is_its_tag() {
    assert_eq!(kind_tag(r#"{"kind":"stdout","line":"x"}"#).unwrap(), "stdout");
    assert_eq!(kind_tag(r#"{"line":"x"}"#).unwrap(), "unknown");
    assert_eq!(kind_tag(r#"{"kind":3}"#).unwrap(), "unknown");
    assert_eq!(kind_tag("[1, 2]").unwrap(), "unknown");
    assert_eq!(kind_of_tag(Some("a".to_string())), "a");
    assert_eq!(kind_of_tag(None), "unknown");
}

#[test]
fn a_line_that_is_not_json_has_no_kind() {
    assert!(matches!(kind_tag("not json"), Err(RowError::Json(_))));
    assert!(matches!(
        run_row(&exit_event(1), "{"),
        Err(RowError::Json(_))
    ));
    assert!(matches!(job_row(&allocation(), ""), Err(RowError::Json(_))));
}

#[test]
fn stored_times_keep_their_low_word() {
    assert_eq!(stored_ms(0), 0);
    assert_eq!(stored_ms(9_223_372_036_854_775_807), i64::MAX);
    assert_eq!(stored_ms(9_223_372_036_854_775_808), i64::MIN);
    assert_eq!(stored_ms(18_446_744_073_709_551_615), -1);
    assert_eq!(stored_ms(18_446_744_073_709_551_621), 5);
    assert_eq!(
        run_row_of_kind(&exit_event(1 << 64), "k".to_string(), "l").timestamp_ms,
        0
    );
}

#[test]
fn a_run_row_with_a_message_kind_reads_as_a_message() {
    let row = run_row_of_kind(&exit_event(1), "message_x".to_string(), "l");
    assert_eq!(row_shape(&row), RowShape::Message);
    let row = run_row_of_kind(&exit_event(1), "message".to_string(), "l");
    assert_eq!(row_shape(&row), RowShape::Run);
}

#[test]
fn statements_name_the_columns_of_a_row() {
    assert_eq!(
        select_rows(Column::Job),
        "SELECT run_id, job_id, timestamp_ms, kind, payload FROM events WHERE job_id = ?1 ORDER BY timestamp_ms"
    );
    assert!(select_rows(Column::Run).contains("WHERE run_id = ?1"));
    assert!(select_rows(Column::Kind).contains("WHERE kind = ?1"));
    assert_eq!(
        INSERT_ROW,
        "INSERT OR IGNORE INTO events (run_id, job_id, timestamp_ms, kind, payload) VALUES (?1, ?2, ?3, ?4, ?5)"
    );
}
