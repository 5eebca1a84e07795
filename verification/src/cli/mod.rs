//! The command line: what its arguments ask for, and what is printed.

pub mod fuzz;
pub mod job_event;
pub mod laws;
pub mod replay;
pub mod trace_store;

use vstd::prelude::*;

use crate::event::{opt_text, texts};
use crate::text::{push_signed_decimal, same_text, signed_decimal, starts_with};

verus! {

/// The arguments do not make sense: the usage is to be printed.
#[derive(Debug, Clone, Copy, PartialEq, Eq, Structural)]
pub struct UsageError;

/// What `ang` is asked to do. The arguments that follow a subcommand are
/// handed on to it.
#[derive(Debug)]
pub enum Command {
    /// Print the usage; `help` says that it was asked for.
    Usage { help: bool },
    /// Record one boundary event of the given kind.
    JobEvent { kind: Option<String> },
    TraceStore { args: Vec<String> },
    Replay { args: Vec<String> },
    Fuzz { args: Vec<String> },
    /// Run a command in a container.
    Container { image: String, command: Vec<String> },
}

/// The model of a `Command`.
#[verifier::ext_equal]
pub enum CommandView {
    Usage { help: bool },
    JobEvent { kind: Option<Seq<char>> },
    TraceStore { args: Seq<Seq<char>> },
    Replay { args: Seq<Seq<char>> },
    Fuzz { args: Seq<Seq<char>> },
    Container { image: Seq<char>, command: Seq<Seq<char>> },
}

impl View for Command {
    type V = CommandView;

    open spec fn view(&self) -> CommandView {
        match *self {
            Command::Usage { help } => CommandView::Usage { help },
            Command::JobEvent { kind } => CommandView::JobEvent { kind: opt_text(kind) },
            Command::TraceStore { args } => CommandView::TraceStore { args: texts(args@) },
            Command::Replay { args } => CommandView::Replay { args: texts(args@) },
            Command::Fuzz { args } => CommandView::Fuzz { args: texts(args@) },
            Command::Container { image, command } => CommandView::Container {
                image: image@,
                command: texts(command@),
            },
        }
    }
}

/// What arguments ask for: no argument, or a flag in the first place, asks for
/// the usage; the name of a subcommand for that; anything else is the image
/// of a container.
pub open spec fn command_of(args: Seq<Seq<char>>) -> CommandView {
    if args.len() == 0 {
        CommandView::Usage { help: false }
    } else if "-"@.is_prefix_of(args[0]) {
        CommandView::Usage { help: args[0] == "-h"@ || args[0] == "--help"@ }
    } else if args[0] == "job-event"@ {
        CommandView::JobEvent {
            kind: if args.len() > 1 {
                Some(args[1])
            } else {
                None
            },
        }
    } else if args[0] == "trace-store"@ {
        CommandView::TraceStore { args: args.skip(1) }
    } else if args[0] == "replay"@ {
        CommandView::Replay { args: args.skip(1) }
    } else if args[0] == "fuzz"@ {
        CommandView::Fuzz { args: args.skip(1) }
    } else {
        CommandView::Container { image: args[0], command: args.skip(1) }
    }
}

/// A copy of the arguments from position `from` on.
pub fn args_from(args: &Vec<String>, from: usize) -> (res: Vec<String>)
    requires
        from <= args@.len(),
    ensures
        texts(res@) == texts(args@).skip(from as int),
{
    let mut res: Vec<String> = Vec::new();
    let mut i: usize = from;
    while i < args.len()
        invariant
            from <= i <= args@.len(),
            res@.len() == i - from,
            forall|k: int| 0 <= k < i - from ==> (#[trigger] res@[k])@ == args@[from + k]@,
        decreases args@.len() - i,
    {
        res.push(args[i].clone());
        i = i + 1;
    }
    assert(texts(res@) =~= texts(args@).skip(from as int));
    res
}

/// Whether an argument is the given text.
pub fn arg_is(arg: &String, text: &str) -> (res: bool)
    ensures
        res == (arg@ == text@),
{
    same_text(arg.as_str(), text)
}

/// What the arguments of `ang` ask for.
pub fn dispatch(args: &Vec<String>) -> (res: Command)
    ensures
        res@ == command_of(texts(args@)),
{
    if args.len() == 0 {
        return Command::Usage { help: false };
    }
    let first = &args[0];
    assert(texts(args@)[0] == first@);
    if starts_with(first.as_str(), "-") {
        return Command::Usage { help: arg_is(first, "-h") || arg_is(first, "--help") };
    }
    if arg_is(first, "job-event") {
        return Command::JobEvent {
            kind: if args.len() > 1 {
                Some(args[1].clone())
            } else {
                None
            },
        };
    }
    if arg_is(first, "trace-store") {
        return Command::TraceStore { args: args_from(args, 1) };
    }
    if arg_is(first, "replay") {
        return Command::Replay { args: args_from(args, 1) };
    }
    if arg_is(first, "fuzz") {
        return Command::Fuzz { args: args_from(args, 1) };
    }
    Command::Container { image: first.clone(), command: args_from(args, 1) }
}

/// The usage of `ang`, line by line.
pub fn usage() -> (res: Vec<&'static str>)
    ensures
        res@.map_values(|line: &'static str| line@) == seq![
            "usage: ang <image> [command args...]"@,
            "       ang job-event <node-allocated|task-started|task-exited|job-exited>"@,
            "       ang trace-store <ingest-run|ingest-job|ingest-message|query> ..."@,
            "       ang replay --run-id <id> --db <path>"@,
            "       ang replay --job-id <id> --db <path>"@,
            "       ang fuzz --job-id <id> --db <path> --seeds <start> <end> [--exhaustive]"@,
        ],
{
    let mut lines: Vec<&'static str> = Vec::new();
    lines.push("usage: ang <image> [command args...]");
    lines.push("       ang job-event <node-allocated|task-started|task-exited|job-exited>");
    lines.push("       ang trace-store <ingest-run|ingest-job|ingest-message|query> ...");
    lines.push("       ang replay --run-id <id> --db <path>");
    lines.push("       ang replay --job-id <id> --db <path>");
    lines.push("       ang fuzz --job-id <id> --db <path> --seeds <start> <end> [--exhaustive]");
    assert(lines@.map_values(|line: &'static str| line@) =~= seq![
        "usage: ang <image> [command args...]"@,
        "       ang job-event <node-allocated|task-started|task-exited|job-exited>"@,
        "       ang trace-store <ingest-run|ingest-job|ingest-message|query> ..."@,
        "       ang replay --run-id <id> --db <path>"@,
        "       ang replay --job-id <id> --db <path>"@,
        "       ang fuzz --job-id <id> --db <path> --seeds <start> <end> [--exhaustive]"@,
    ]);
    lines
}

/// The status with which printing the usage ends: success where it was asked
/// for.
pub fn usage_status(help: bool) -> (res: i32)
    ensures
        res == if help {
            0i32
        } else {
            2i32
        },
{
    if help {
        0
    } else {
        2
    }
}

/// What is printed once a container has run: its Run, its log and its exit
/// code.
pub fn container_lines(run_id: &str, exit_code: i32) -> (res: Vec<String>)
    ensures
        texts(res@) == seq![
            "run_id: "@ + run_id@,
            "eventlog: "@ + (run_id@ + ".eventlog.jsonl"@),
            "exit_code: "@ + signed_decimal(exit_code as int),
        ],
{
    let mut run_line = String::from_str("run_id: ");
    run_line.append(run_id);
    let mut log_line = String::from_str("eventlog: ");
    log_line.append(log_file_name(run_id).as_str());
    let mut exit_line = String::from_str("exit_code: ");
    push_signed_decimal(&mut exit_line, exit_code as i64);
    let mut lines: Vec<String> = Vec::new();
    lines.push(run_line);
    lines.push(log_line);
    lines.push(exit_line);
    assert(texts(lines@) =~= seq![run_line@, log_line@, exit_line@]);
    lines
}

/// The name of the log that belongs to a Run or a Job.
pub fn log_file_name(id: &str) -> (res: String)
    ensures
        res@ == id@ + ".eventlog.jsonl"@,
{
    let mut name = id.to_owned();
    name.append(".eventlog.jsonl");
    name
}

} // verus!
