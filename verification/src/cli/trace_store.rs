//! `ang trace-store`: what its arguments ask of the Trace Store, and what is
//! printed.

use vstd::prelude::*;

use crate::cli::{arg_is, args_from};
use crate::event::texts;
use crate::store::StoredEvent;
use crate::text::{decimal, push_decimal, push_signed_decimal, signed_decimal};

verus! {

/// The kinds of log that can be ingested.
#[derive(Debug, Clone, Copy, PartialEq, Eq, Structural)]
pub enum LogKind {
    Run,
    Job,
    Message,
}

/// Why the path of the store cannot be read off the arguments.
#[derive(Debug, PartialEq)]
pub enum DbFlagError {
    /// There is no argument.
    Missing,
    /// The first argument is not `--db`.
    Unexpected(String),
    /// Nothing follows `--db`.
    NoPath,
}

/// The model of a `DbFlagError`.
#[verifier::ext_equal]
pub enum DbFlagErrorView {
    Missing,
    Unexpected(Seq<char>),
    NoPath,
}

impl View for DbFlagError {
    type V = DbFlagErrorView;

    open spec fn view(&self) -> DbFlagErrorView {
        match *self {
            DbFlagError::Missing => DbFlagErrorView::Missing,
            DbFlagError::Unexpected(flag) => DbFlagErrorView::Unexpected(flag@),
            DbFlagError::NoPath => DbFlagErrorView::NoPath,
        }
    }
}

impl DbFlagError {
    /// The message that is printed.
    pub fn message(&self) -> (res: String)
        ensures
            res@ == match *self {
                DbFlagError::Missing => "expected --db <path>"@,
                DbFlagError::Unexpected(flag) => "expected --db <path>, got '"@ + flag@ + "'"@,
                DbFlagError::NoPath => "--db requires a path"@,
            },
    {
        match self {
            DbFlagError::Missing => "expected --db <path>".to_owned(),
            DbFlagError::Unexpected(flag) => {
                let mut text = String::from_str("expected --db <path>, got '");
                text.append(flag.as_str());
                text.append("'");
                text
            },
            DbFlagError::NoPath => "--db requires a path".to_owned(),
        }
    }
}

/// The path of the store that arguments start with.
pub open spec fn db_flag(args: Seq<Seq<char>>) -> Result<Seq<char>, DbFlagErrorView> {
    if args.len() == 0 {
        Err(DbFlagErrorView::Missing)
    } else if args[0] != "--db"@ {
        Err(DbFlagErrorView::Unexpected(args[0]))
    } else if args.len() == 1 {
        Err(DbFlagErrorView::NoPath)
    } else {
        Ok(args[1])
    }
}

/// Reads the path of the store off the arguments from position `from` on.
pub fn take_db_flag(args: &Vec<String>, from: usize) -> (res: Result<String, DbFlagError>)
    requires
        from <= args@.len(),
    ensures
        match res {
            Ok(db) => db_flag(texts(args@).skip(from as int)) == Ok::<_, DbFlagErrorView>(db@),
            Err(error) => db_flag(texts(args@).skip(from as int)) == Err::<Seq<char>, _>(error@),
        },
{
    let ghost rest = texts(args@).skip(from as int);
    assert(forall|k: int| 0 <= k < rest.len() ==> #[trigger] rest[k] == args@[from + k]@);
    let left: usize = args.len() - from;
    if left == 0 {
        return Err(DbFlagError::Missing);
    }
    if !arg_is(&args[from], "--db") {
        return Err(DbFlagError::Unexpected(args[from].clone()));
    }
    if left == 1 {
        return Err(DbFlagError::NoPath);
    }
    Ok(args[from + 1].clone())
}

/// Which events a query is for.
#[derive(Debug, PartialEq)]
pub enum Selector {
    Run(String),
    Job(String),
    Kind(String),
}

/// The model of a `Selector`.
#[verifier::ext_equal]
pub enum SelectorView {
    Run(Seq<char>),
    Job(Seq<char>),
    Kind(Seq<char>),
}

impl View for Selector {
    type V = SelectorView;

    open spec fn view(&self) -> SelectorView {
        match *self {
            Selector::Run(run_id) => SelectorView::Run(run_id@),
            Selector::Job(job_id) => SelectorView::Job(job_id@),
            Selector::Kind(kind) => SelectorView::Kind(kind@),
        }
    }
}

/// Why a query selects nothing.
#[derive(Debug, PartialEq)]
pub enum SelectorError {
    /// There is no flag, or one that is not known.
    Usage,
    /// Nothing follows the flag.
    NoValue(String),
}

/// The model of a `SelectorError`.
#[verifier::ext_equal]
pub enum SelectorErrorView {
    Usage,
    NoValue(Seq<char>),
}

impl View for SelectorError {
    type V = SelectorErrorView;

    open spec fn view(&self) -> SelectorErrorView {
        match *self {
            SelectorError::Usage => SelectorErrorView::Usage,
            SelectorError::NoValue(flag) => SelectorErrorView::NoValue(flag@),
        }
    }
}

/// The message on a flag that nothing follows.
pub fn no_value_text(flag: &str) -> (res: String)
    ensures
        res@ == flag@ + " requires a value"@,
{
    let mut text = flag.to_owned();
    text.append(" requires a value");
    text
}

/// Which events the arguments of a query are for. A flag that nothing follows
/// is reported as that, whether it is known or not; what follows the value is
/// not looked at.
pub open spec fn selected(args: Seq<Seq<char>>) -> Result<SelectorView, SelectorErrorView> {
    if args.len() == 0 {
        Err(SelectorErrorView::Usage)
    } else if args.len() == 1 {
        Err(SelectorErrorView::NoValue(args[0]))
    } else if args[0] == "--run-id"@ {
        Ok(SelectorView::Run(args[1]))
    } else if args[0] == "--job-id"@ {
        Ok(SelectorView::Job(args[1]))
    } else if args[0] == "--kind"@ {
        Ok(SelectorView::Kind(args[1]))
    } else {
        Err(SelectorErrorView::Usage)
    }
}

/// The model of what a query selects.
pub open spec fn selection(res: Result<Selector, SelectorError>) -> Result<
    SelectorView,
    SelectorErrorView,
> {
    match res {
        Ok(selector) => Ok(selector@),
        Err(error) => Err(error@),
    }
}

/// Reads which events a query is for off the arguments from position `from` on.
pub fn query(args: &Vec<String>, from: usize) -> (res: Result<Selector, SelectorError>)
    requires
        from <= args@.len(),
    ensures
        selection(res) == selected(texts(args@).skip(from as int)),
{
    let ghost rest = texts(args@).skip(from as int);
    assert(forall|k: int| 0 <= k < rest.len() ==> #[trigger] rest[k] == args@[from + k]@);
    let left: usize = args.len() - from;
    if left == 0 {
        return Err(SelectorError::Usage);
    }
    if left == 1 {
        return Err(SelectorError::NoValue(args[from].clone()));
    }
    let value = args[from + 1].clone();
    if arg_is(&args[from], "--run-id") {
        Ok(Selector::Run(value))
    } else if arg_is(&args[from], "--job-id") {
        Ok(Selector::Job(value))
    } else if arg_is(&args[from], "--kind") {
        Ok(Selector::Kind(value))
    } else {
        Err(SelectorError::Usage)
    }
}

/// What is asked of the Trace Store.
#[derive(Debug, PartialEq)]
pub enum StoreCommand {
    /// Ingest logs of one kind.
    Ingest { log: LogKind, db: String, paths: Vec<String> },
    /// Query the store. That nothing is selected is reported once it is open.
    Query { db: String, selector: Result<Selector, SelectorError> },
}

/// The model of a `StoreCommand`.
#[verifier::ext_equal]
pub enum StoreCommandView {
    Ingest { log: LogKind, db: Seq<char>, paths: Seq<Seq<char>> },
    Query { db: Seq<char>, selector: Result<SelectorView, SelectorErrorView> },
}

impl View for StoreCommand {
    type V = StoreCommandView;

    open spec fn view(&self) -> StoreCommandView {
        match *self {
            StoreCommand::Ingest { log, db, paths } => StoreCommandView::Ingest {
                log,
                db: db@,
                paths: texts(paths@),
            },
            StoreCommand::Query { db, selector } => StoreCommandView::Query {
                db: db@,
                selector: selection(selector),
            },
        }
    }
}

/// Why the arguments ask for nothing.
#[derive(Debug, PartialEq)]
pub enum StoreArgsError {
    /// There is no subcommand of that name.
    Usage,
    Db(DbFlagError),
}

/// The model of a `StoreArgsError`.
#[verifier::ext_equal]
pub enum StoreArgsErrorView {
    Usage,
    Db(DbFlagErrorView),
}

impl View for StoreArgsError {
    type V = StoreArgsErrorView;

    open spec fn view(&self) -> StoreArgsErrorView {
        match *self {
            StoreArgsError::Usage => StoreArgsErrorView::Usage,
            StoreArgsError::Db(error) => StoreArgsErrorView::Db(error@),
        }
    }
}

/// What a subcommand and its arguments ask for: the path of the store comes
/// first, then the logs to ingest, or what to query.
pub open spec fn store_command(args: Seq<Seq<char>>) -> Result<
    StoreCommandView,
    StoreArgsErrorView,
> {
    if args.len() == 0 || !(args[0] == "ingest-run"@ || args[0] == "ingest-job"@ || args[0]
        == "ingest-message"@ || args[0] == "query"@) {
        Err(StoreArgsErrorView::Usage)
    } else {
        match db_flag(args.skip(1)) {
            Err(error) => Err(StoreArgsErrorView::Db(error)),
            Ok(db) => Ok(
                if args[0] == "ingest-run"@ {
                    StoreCommandView::Ingest { log: LogKind::Run, db, paths: args.skip(3) }
                } else if args[0] == "ingest-job"@ {
                    StoreCommandView::Ingest { log: LogKind::Job, db, paths: args.skip(3) }
                } else if args[0] == "ingest-message"@ {
                    StoreCommandView::Ingest { log: LogKind::Message, db, paths: args.skip(3) }
                } else {
                    StoreCommandView::Query { db, selector: selected(args.skip(3)) }
                },
            ),
        }
    }
}

fn ingest(args: &Vec<String>, log: LogKind) -> (res: Result<StoreCommand, StoreArgsError>)
    requires
        args@.len() >= 1,
    ensures
        match (res, db_flag(texts(args@).skip(1))) {
            (Ok(command), Ok(db)) => command@ == (StoreCommandView::Ingest {
                log,
                db,
                paths: texts(args@).skip(3),
            }),
            (Err(error), Err(flag_error)) => error@ == StoreArgsErrorView::Db(flag_error),
            _ => false,
        },
{
    match take_db_flag(args, 1) {
        Ok(db) => {
            assert(texts(args@).skip(1).len() >= 2);
            Ok(StoreCommand::Ingest { log, db, paths: args_from(args, 3) })
        },
        Err(error) => Err(StoreArgsError::Db(error)),
    }
}

/// Reads the arguments of `ang trace-store`.
pub fn run(args: &Vec<String>) -> (res: Result<StoreCommand, StoreArgsError>)
    ensures
        match res {
            Ok(command) => store_command(texts(args@)) == Ok::<_, StoreArgsErrorView>(command@),
            Err(error) => store_command(texts(args@)) == Err::<StoreCommandView, _>(error@),
        },
{
    if args.len() == 0 {
        return Err(StoreArgsError::Usage);
    }
    assert(texts(args@)[0] == args@[0]@);
    if arg_is(&args[0], "ingest-run") {
        ingest(args, LogKind::Run)
    } else if arg_is(&args[0], "ingest-job") {
        ingest(args, LogKind::Job)
    } else if arg_is(&args[0], "ingest-message") {
        ingest(args, LogKind::Message)
    } else if arg_is(&args[0], "query") {
        match take_db_flag(args, 1) {
            Ok(db) => {
                assert(texts(args@).skip(1).len() >= 2);
                Ok(StoreCommand::Query { db, selector: query(args, 3) })
            },
            Err(error) => Err(StoreArgsError::Db(error)),
        }
    } else {
        Err(StoreArgsError::Usage)
    }
}

/// The line on one ingested log.
pub fn ingested_text(path: &str, events: usize) -> (res: String)
    ensures
        res@ == path@ + ": "@ + decimal(events as nat) + " event(s)"@,
{
    let mut text = path.to_owned();
    text.append(": ");
    push_decimal(&mut text, events as u128);
    text.append(" event(s)");
    text
}

/// The line on all ingested logs.
pub fn total_text(total: usize, db: &str) -> (res: String)
    ensures
        res@ == "total: "@ + decimal(total as nat) + " event(s) ingested into "@ + db@,
{
    let mut text = String::from_str("total: ");
    push_decimal(&mut text, total as u128);
    text.append(" event(s) ingested into ");
    text.append(db);
    text
}

/// The line that a queried event is printed as.
pub open spec fn event_line(event: StoredEvent) -> Seq<char> {
    signed_decimal(event.timestamp_ms as int) + " "@ + event.payload@
}

/// The lines that a query prints: the events that it found, in order, and
/// their number.
pub fn query_lines(events: &Vec<StoredEvent>) -> (res: Vec<String>)
    ensures
        texts(res@) == events@.map_values(|e: StoredEvent| event_line(e)).push(
            decimal(events@.len()) + " event(s)"@,
        ),
{
    let ghost all = events@.map_values(|e: StoredEvent| event_line(e));
    let mut lines: Vec<String> = Vec::new();
    let mut i: usize = 0;
    assert(texts(lines@) =~= all.take(0));
    while i < events.len()
        invariant
            i <= events@.len(),
            all == events@.map_values(|e: StoredEvent| event_line(e)),
            texts(lines@) == all.take(i as int),
        decreases events@.len() - i,
    {
        let ghost so_far = lines@;
        let mut text = String::from_str("");
        proof {
            reveal_strlit("");
        }
        push_signed_decimal(&mut text, events[i].timestamp_ms);
        text.append(" ");
        text.append(events[i].payload.as_str());
        assert(text@ =~= all[i as int]);
        lines.push(text);
        assert(texts(lines@) =~= texts(so_far).push(text@));
        i = i + 1;
        assert(texts(lines@) =~= all.take(i as int));
    }
    assert(all.take(i as int) =~= all);
    let mut count = String::from_str("");
    proof {
        reveal_strlit("");
    }
    push_decimal(&mut count, events.len() as u128);
    count.append(" event(s)");
    assert(count@ =~= decimal(events@.len()) + " event(s)"@);
    let ghost so_far = lines@;
    lines.push(count);
    assert(texts(lines@) =~= texts(so_far).push(count@));
    lines
}

} // verus!
