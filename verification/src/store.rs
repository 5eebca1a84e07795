//! The rows of the trace store: how a line of a log becomes a row, and what a
//! row decodes as.

use vstd::prelude::*;

use crate::event::{
    clone_opt, opt_text, Event, EventView, JobEvent, JobEventView, MessageEvent, MessageEventView,
};
use crate::json::{json_string_member, string_member};
use crate::text::starts_with;

verus! {

/// One row of the trace store. A boundary row has no `run_id`; a Run row has
/// one, and a `job_id` too if the Run executed under a Slurm Job; a message
/// row has no `run_id`. The shared `job_id` merges them into one timeline.
#[derive(Debug, Clone, PartialEq)]
pub struct StoredEvent {
    pub run_id: Option<String>,
    pub job_id: Option<String>,
    pub timestamp_ms: i64,
    pub kind: String,
    /// The line of the log that the row was made from.
    pub payload: String,
}

/// The model of a `StoredEvent`.
#[verifier::ext_equal]
pub struct StoredEventView {
    pub run_id: Option<Seq<char>>,
    pub job_id: Option<Seq<char>>,
    pub timestamp_ms: i64,
    pub kind: Seq<char>,
    pub payload: Seq<char>,
}

impl View for StoredEvent {
    type V = StoredEventView;

    open spec fn view(&self) -> StoredEventView {
        StoredEventView {
            run_id: opt_text(self.run_id),
            job_id: opt_text(self.job_id),
            timestamp_ms: self.timestamp_ms,
            kind: self.kind@,
            payload: self.payload@,
        }
    }
}

/// Why a line does not become a row.
#[derive(Debug)]
pub enum RowError {
    /// The line is not JSON.
    Json(serde_json::Error),
}

/// The kind that a tag in a line gives its row.
pub open spec fn tag_or_unknown(tag: Option<Seq<char>>) -> Seq<char> {
    match tag {
        Some(kind) => kind,
        None => "unknown"@,
    }
}

/// The kind of a row whose line has the given tag, or none.
pub fn kind_of_tag(tag: Option<String>) -> (res: String)
    ensures
        res@ == tag_or_unknown(opt_text(tag)),
{
    match tag {
        Some(kind) => kind,
        None => "unknown".to_owned(),
    }
}

/// The kind that a line of JSON is tagged with: the string under its key
/// `kind`, or `unknown` where there is none. Fails where the line is not JSON.
pub fn kind_tag(line: &str) -> (res: Result<String, RowError>)
    ensures
        match res {
            Ok(kind) => json_string_member(line@, "kind"@) is Some && kind@ == tag_or_unknown(
                json_string_member(line@, "kind"@)->0,
            ),
            Err(_) => json_string_member(line@, "kind"@) is None,
        },
        match json_string_member(line@, "kind"@) {
            Some(Some(tag)) => res matches Ok(kind) && kind@ == tag,
            Some(None) => res matches Ok(kind) && kind@ == "unknown"@,
            None => res is Err,
        },
{
    match string_member(line, "kind") {
        Ok(tag) => Ok(kind_of_tag(tag)),
        Err(e) => Err(RowError::Json(e)),
    }
}

/// The low 64 bits of a time in milliseconds, as a signed number.
pub open spec fn low_word(ms: u128) -> int {
    let low = ms as int % 0x1_0000_0000_0000_0000;
    if low < 0x8000_0000_0000_0000 {
        low
    } else {
        low - 0x1_0000_0000_0000_0000
    }
}

/// A time is stored as itself where it is not too large for a signed number of
/// 64 bits, and else as the number of that size that has the same low bits.
pub open spec fn is_stored_time(stored: int, ms: int) -> bool {
    &&& ms <= 0x7fff_ffff_ffff_ffff ==> stored == ms
    &&& -0x8000_0000_0000_0000 <= stored <= 0x7fff_ffff_ffff_ffff
    &&& (ms - stored) % 0x1_0000_0000_0000_0000 == 0
}

/// A time as the store keeps it: its low 64 bits as a signed number, which are
/// the time itself up to the largest signed number of 64 bits.
pub fn stored_ms(ms: u128) -> (res: i64)
    ensures
        res == low_word(ms),
        ms <= i64::MAX ==> res == ms,
        is_stored_time(res as int, ms as int),
{
    let low: u128 = ms % 0x1_0000_0000_0000_0000;
    if low < 0x8000_0000_0000_0000 {
        low as i64
    } else {
        (low as i128 - 0x1_0000_0000_0000_0000) as i64
    }
}

/// The row of a Run event: it has the Run's and the Job's identifiers, the
/// given kind, and the line itself as its payload.
pub open spec fn row_of_run(event: EventView, kind: Seq<char>, line: Seq<char>) -> StoredEventView {
    StoredEventView {
        run_id: Some(event.run_id),
        job_id: event.job_id,
        timestamp_ms: low_word(event.timestamp_ms) as i64,
        kind,
        payload: line,
    }
}

/// The row of a boundary event: it has the Job's identifier, and no Run's.
pub open spec fn row_of_job(
    event: JobEventView,
    kind: Seq<char>,
    line: Seq<char>,
) -> StoredEventView {
    StoredEventView {
        run_id: None,
        job_id: Some(event.job_id),
        timestamp_ms: low_word(event.timestamp_ms) as i64,
        kind,
        payload: line,
    }
}

/// The row of a message: it has the Job's identifier, if the message has one,
/// and a kind that its direction gives.
pub open spec fn row_of_message(event: MessageEventView, line: Seq<char>) -> StoredEventView {
    StoredEventView {
        run_id: None,
        job_id: event.job_id,
        timestamp_ms: low_word(event.timestamp_ms) as i64,
        kind: "message_"@ + event.direction,
        payload: line,
    }
}

/// A row has the fields of the Run event that it is made from, and its line.
pub open spec fn is_row_of_run(event: Event, line: Seq<char>, row: StoredEvent) -> bool {
    &&& row.run_id matches Some(run_id) && run_id@ == event.run_id@
    &&& match (row.job_id, event.job_id) {
        (Some(stored), Some(job_id)) => stored@ == job_id@,
        (None, None) => true,
        _ => false,
    }
    &&& is_stored_time(row.timestamp_ms as int, event.timestamp_ms as int)
    &&& row.payload@ == line
}

/// A row has the fields of the boundary event that it is made from, and its
/// line.
pub open spec fn is_row_of_job(event: JobEvent, line: Seq<char>, row: StoredEvent) -> bool {
    &&& row.run_id is None
    &&& row.job_id matches Some(job_id) && job_id@ == event.job_id@
    &&& is_stored_time(row.timestamp_ms as int, event.timestamp_ms as int)
    &&& row.payload@ == line
}

/// A row has the fields of the message that it is made from, and its line.
pub open spec fn is_row_of_message(event: MessageEvent, line: Seq<char>, row: StoredEvent) -> bool {
    &&& row.run_id is None
    &&& match (row.job_id, event.job_id) {
        (Some(stored), Some(job_id)) => stored@ == job_id@,
        (None, None) => true,
        _ => false,
    }
    &&& is_stored_time(row.timestamp_ms as int, event.timestamp_ms as int)
    &&& row.kind@ == "message_"@ + event.direction@
    &&& row.payload@ == line
}

/// The row of a line that holds a Run event. Fails where the line is not JSON.
pub fn run_row(event: &Event, line: &str) -> (res: Result<StoredEvent, RowError>)
    ensures
        match res {
            Ok(row) => json_string_member(line@, "kind"@) is Some && row@ == row_of_run(
                event@,
                tag_or_unknown(json_string_member(line@, "kind"@)->0),
                line@,
            ),
            Err(_) => json_string_member(line@, "kind"@) is None,
        },
        match json_string_member(line@, "kind"@) {
            Some(Some(tag)) => res matches Ok(row) && row.kind@ == tag,
            Some(None) => res matches Ok(row) && row.kind@ == "unknown"@,
            None => res is Err,
        },
        res matches Ok(row) ==> is_row_of_run(*event, line@, row),
{
    match kind_tag(line) {
        Ok(kind) => Ok(run_row_of_kind(event, kind, line)),
        Err(e) => Err(e),
    }
}

/// The row of a Run event of the given kind.
pub fn run_row_of_kind(event: &Event, kind: String, line: &str) -> (res: StoredEvent)
    ensures
        res@ == row_of_run(event@, kind@, line@),
        is_row_of_run(*event, line@, res),
        res.kind@ == kind@,
{
    StoredEvent {
        run_id: Some(event.run_id.clone()),
        job_id: clone_opt(&event.job_id),
        timestamp_ms: stored_ms(event.timestamp_ms),
        kind,
        payload: line.to_owned(),
    }
}

/// The row of a line that holds a boundary event. Fails where the line is not
/// JSON.
pub fn job_row(event: &JobEvent, line: &str) -> (res: Result<StoredEvent, RowError>)
    ensures
        match res {
            Ok(row) => json_string_member(line@, "kind"@) is Some && row@ == row_of_job(
                event@,
                tag_or_unknown(json_string_member(line@, "kind"@)->0),
                line@,
            ),
            Err(_) => json_string_member(line@, "kind"@) is None,
        },
        match json_string_member(line@, "kind"@) {
            Some(Some(tag)) => res matches Ok(row) && row.kind@ == tag,
            Some(None) => res matches Ok(row) && row.kind@ == "unknown"@,
            None => res is Err,
        },
        res matches Ok(row) ==> is_row_of_job(*event, line@, row),
{
    match kind_tag(line) {
        Ok(kind) => Ok(job_row_of_kind(event, kind, line)),
        Err(e) => Err(e),
    }
}

/// The row of a boundary event of the given kind.
pub fn job_row_of_kind(event: &JobEvent, kind: String, line: &str) -> (res: StoredEvent)
    ensures
        res@ == row_of_job(event@, kind@, line@),
        is_row_of_job(*event, line@, res),
        res.kind@ == kind@,
{
    StoredEvent {
        run_id: None,
        job_id: Some(event.job_id.clone()),
        timestamp_ms: stored_ms(event.timestamp_ms),
        kind,
        payload: line.to_owned(),
    }
}

/// The row of a line that holds a message. A message has no tag in its line:
/// its kind is `message_` and its direction.
pub fn message_row(event: &MessageEvent, line: &str) -> (res: StoredEvent)
    ensures
        res@ == row_of_message(event@, line@),
        is_row_of_message(*event, line@, res),
{
    let mut kind = String::from_str("message_");
    kind.append(event.direction.as_str());
    StoredEvent {
        run_id: None,
        job_id: clone_opt(&event.job_id),
        timestamp_ms: stored_ms(event.timestamp_ms),
        kind,
        payload: line.to_owned(),
    }
}

/// The statements that set up a store. The payload alone tells rows apart: a
/// `run_id` or `job_id` may be null, and every null is distinct from every
/// other.
pub const SCHEMA: &'static str = "CREATE TABLE IF NOT EXISTS events (
    id INTEGER PRIMARY KEY AUTOINCREMENT,
    run_id TEXT,
    job_id TEXT,
    timestamp_ms INTEGER NOT NULL,
    kind TEXT NOT NULL,
    payload TEXT NOT NULL UNIQUE
);
CREATE INDEX IF NOT EXISTS idx_events_run_id ON events(run_id);
CREATE INDEX IF NOT EXISTS idx_events_job_id ON events(job_id);
CREATE INDEX IF NOT EXISTS idx_events_timestamp ON events(timestamp_ms);
CREATE INDEX IF NOT EXISTS idx_events_kind ON events(kind);";

/// The statement that adds a row, from its five fields in order. A row whose
/// payload is already in the store is left out.
pub const INSERT_ROW: &'static str = "INSERT OR IGNORE INTO events \
(run_id, job_id, timestamp_ms, kind, payload) VALUES (?1, ?2, ?3, ?4, ?5)";

/// What a query selects rows by.
#[derive(Debug, Clone, Copy, PartialEq, Eq, Structural)]
pub enum Column {
    Run,
    Job,
    Kind,
}

/// The name of a column.
pub open spec fn column_name(column: Column) -> Seq<char> {
    match column {
        Column::Run => "run_id"@,
        Column::Job => "job_id"@,
        Column::Kind => "kind"@,
    }
}

/// The statement that selects the rows with a given value in a column, in
/// order of time. Its results have the five fields of a row, in order.
pub fn select_rows(column: Column) -> (res: String)
    ensures
        res@ == "SELECT run_id, job_id, timestamp_ms, kind, payload FROM events WHERE "@
            + column_name(column) + " = ?1 ORDER BY timestamp_ms"@,
        column is Run ==> res@
            == "SELECT run_id, job_id, timestamp_ms, kind, payload FROM events WHERE "@ + "run_id"@
            + " = ?1 ORDER BY timestamp_ms"@,
        column is Job ==> res@
            == "SELECT run_id, job_id, timestamp_ms, kind, payload FROM events WHERE "@ + "job_id"@
            + " = ?1 ORDER BY timestamp_ms"@,
        column is Kind ==> res@
            == "SELECT run_id, job_id, timestamp_ms, kind, payload FROM events WHERE "@ + "kind"@
            + " = ?1 ORDER BY timestamp_ms"@,
{
    let mut sql = String::from_str(
        "SELECT run_id, job_id, timestamp_ms, kind, payload FROM events WHERE ",
    );
    match column {
        Column::Run => sql.append("run_id"),
        Column::Job => sql.append("job_id"),
        Column::Kind => sql.append("kind"),
    }
    sql.append(" = ?1 ORDER BY timestamp_ms");
    sql
}

/// What the payload of a row decodes as.
#[derive(Debug, Clone, Copy, PartialEq, Eq, Structural)]
pub enum RowShape {
    Run,
    Boundary,
    Message,
}

/// The kind decides first: a message's begins with `message_`. Of the others,
/// those with a `run_id` are Run rows, and those without are boundary rows.
pub open spec fn shape_of(row: StoredEventView) -> RowShape {
    if "message_"@.is_prefix_of(row.kind) {
        RowShape::Message
    } else if row.run_id is Some {
        RowShape::Run
    } else {
        RowShape::Boundary
    }
}

/// What the payload of a row decodes as.
pub fn row_shape(row: &StoredEvent) -> (res: RowShape)
    ensures
        res == shape_of(row@),
        res is Message <==> "message_"@.is_prefix_of(row.kind@),
        !(res is Message) ==> (res is Run <==> row.run_id is Some),
{
    if starts_with(row.kind.as_str(), "message_") {
        RowShape::Message
    } else if row.run_id.is_some() {
        RowShape::Run
    } else {
        RowShape::Boundary
    }
}

/// Rows keep the times of their events, up to the largest that a signed number
/// of 64 bits holds: each by itself, and so in their order, whatever they were
/// made from.
pub proof fn law_rows_keep_the_time(
    run: EventView,
    job: JobEventView,
    message: MessageEventView,
    kind: Seq<char>,
    line: Seq<char>,
)
    requires
        run.timestamp_ms <= i64::MAX,
        job.timestamp_ms <= i64::MAX,
        message.timestamp_ms <= i64::MAX,
    ensures
        row_of_run(run, kind, line).timestamp_ms == run.timestamp_ms,
        row_of_job(job, kind, line).timestamp_ms == job.timestamp_ms,
        row_of_message(message, line).timestamp_ms == message.timestamp_ms,
        row_of_message(message, line).timestamp_ms < row_of_job(job, kind, line).timestamp_ms
            <==> message.timestamp_ms < job.timestamp_ms,
        row_of_message(message, line).timestamp_ms < row_of_run(run, kind, line).timestamp_ms
            <==> message.timestamp_ms < run.timestamp_ms,
        row_of_run(run, kind, line).timestamp_ms < row_of_job(job, kind, line).timestamp_ms
            <==> run.timestamp_ms < job.timestamp_ms,
{
}

/// Rows keep the line that they were made from as their payload, and the
/// identifiers and the kind that go with it. So lines that differ make rows
/// that differ.
pub proof fn law_rows_keep_the_line(
    run: EventView,
    job: JobEventView,
    message: MessageEventView,
    kind: Seq<char>,
    line: Seq<char>,
)
    ensures
        row_of_run(run, kind, line).payload == line,
        row_of_job(job, kind, line).payload == line,
        row_of_message(message, line).payload == line,
        row_of_run(run, kind, line).run_id == Some(run.run_id),
        row_of_run(run, kind, line).job_id == run.job_id,
        row_of_run(run, kind, line).kind == kind,
        row_of_job(job, kind, line).run_id is None,
        row_of_job(job, kind, line).job_id == Some(job.job_id),
        row_of_job(job, kind, line).kind == kind,
        row_of_message(message, line).run_id is None,
        row_of_message(message, line).job_id == message.job_id,
        row_of_message(message, line).kind == "message_"@ + message.direction,
{
}

/// A time that is too large is stored as the number with its low 64 bits.
pub proof fn law_stored_times_wrap(ms: u128)
    ensures
        is_stored_time(low_word(ms), ms as int),
{
}

/// A row decodes as what it was made from: a message always, and a Run event
/// and a boundary event unless its tag begins with `message_`.
pub proof fn law_rows_decode_as_made(
    run: EventView,
    job: JobEventView,
    message: MessageEventView,
    kind: Seq<char>,
    line: Seq<char>,
)
    ensures
        shape_of(row_of_message(message, line)) == RowShape::Message,
        !"message_"@.is_prefix_of(kind) ==> shape_of(row_of_run(run, kind, line)) == RowShape::Run
            && shape_of(row_of_job(job, kind, line)) == RowShape::Boundary,
{
    let row_kind = "message_"@ + message.direction;
    assert("message_"@ =~= row_kind.subrange(0, "message_"@.len() as int));
}

/// A Run under a Slurm Job, the Job's boundary and the messages of its tasks
/// share a `job_id` in their rows, and so belong to one timeline.
pub proof fn law_rows_share_the_job(
    run: EventView,
    job: JobEventView,
    message: MessageEventView,
    kind: Seq<char>,
    line: Seq<char>,
)
    requires
        run.job_id == Some(job.job_id),
        message.job_id == Some(job.job_id),
    ensures
        row_of_run(run, kind, line).job_id == Some(job.job_id),
        row_of_job(job, kind, line).job_id == Some(job.job_id),
        row_of_message(message, line).job_id == Some(job.job_id),
{
}

} // verus!
