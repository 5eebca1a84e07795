//! `ang replay`: the replay of a Run or of a Job's timeline, with or without a
//! fault.

use vstd::prelude::*;

use crate::cli::fuzz::violation_text;
use crate::cli::{arg_is, UsageError};
use crate::event::{
    opt_text, run_stream, texts, timeline, Event, EventView, TimelineEvent, TimelineEventView,
};
use crate::fault::{
    apply, apply_timeline, faulted, faulted_timeline, from_seed, seeded_fault, Fault, FaultView,
};
use crate::invariants::{check, reports, violations, Violation, ViolationView};
use crate::replay::{
    drain_events, drain_timeline_events, job_exit, run_exit, run_lines, timeline_lines, written,
    LineView, OutputLine,
};
use crate::search::{fails, first_failing, seed_violations};
use crate::text::{parse_u64, parse_usize, parsed_u64, parsed_usize};

verus! {

/// A fault as the command line gives it. Which fault a seed selects depends on
/// the length of the stream, which is not known yet.
#[derive(Debug)]
pub enum FaultSpec {
    Explicit(Fault),
    Seeded(u64),
}

/// The model of a `FaultSpec`.
#[verifier::ext_equal]
pub enum FaultSpecView {
    Explicit(FaultView),
    Seeded(u64),
}

impl View for FaultSpec {
    type V = FaultSpecView;

    open spec fn view(&self) -> FaultSpecView {
        match *self {
            FaultSpec::Explicit(fault) => FaultSpecView::Explicit(fault@),
            FaultSpec::Seeded(seed) => FaultSpecView::Seeded(seed),
        }
    }
}

/// The fault that is meant for a stream of `len` events.
pub open spec fn resolved(fault: FaultSpecView, len: usize) -> FaultView {
    match fault {
        FaultSpecView::Explicit(fault) => fault,
        FaultSpecView::Seeded(seed) => seeded_fault(seed, len),
    }
}

impl FaultSpec {
    /// The fault that is meant for a stream of `len` events.
    pub fn resolve(&self, len: usize) -> (res: Fault)
        ensures
            res@ == resolved(self@, len),
    {
        match self {
            FaultSpec::Explicit(fault) => fault.clone(),
            FaultSpec::Seeded(seed) => from_seed(*seed, len),
        }
    }
}

/// What is replayed.
#[derive(Debug, PartialEq)]
pub enum Target {
    Run(String),
    Job(String),
}

/// The model of a `Target`.
#[verifier::ext_equal]
pub enum TargetView {
    Run(Seq<char>),
    Job(Seq<char>),
}

impl View for Target {
    type V = TargetView;

    open spec fn view(&self) -> TargetView {
        match *self {
            Target::Run(run_id) => TargetView::Run(run_id@),
            Target::Job(job_id) => TargetView::Job(job_id@),
        }
    }
}

/// What a replay is asked for.
#[derive(Debug)]
pub struct ReplayArgs {
    pub db: String,
    /// `None` where the arguments name neither a Run nor a Job, or both: that
    /// is reported once the store is open.
    pub target: Option<Target>,
    pub fault: Option<FaultSpec>,
}

/// The model of a `ReplayArgs`.
#[verifier::ext_equal]
pub struct ReplayArgsView {
    pub db: Seq<char>,
    pub target: Option<TargetView>,
    pub fault: Option<FaultSpecView>,
}

/// The model of a target, if there is one.
pub open spec fn opt_target(target: Option<Target>) -> Option<TargetView> {
    match target {
        Some(target) => Some(target@),
        None => None,
    }
}

/// The model of a fault, if there is one.
pub open spec fn opt_fault(fault: Option<FaultSpec>) -> Option<FaultSpecView> {
    match fault {
        Some(fault) => Some(fault@),
        None => None,
    }
}

impl View for ReplayArgs {
    type V = ReplayArgsView;

    open spec fn view(&self) -> ReplayArgsView {
        ReplayArgsView {
            db: self.db@,
            target: opt_target(self.target),
            fault: opt_fault(self.fault),
        }
    }
}

/// The fault that a flag and what follows it give, and how many arguments
/// these are together. `None` where no fault flag comes first, or where what
/// follows does not fit it.
pub open spec fn fault_flag(args: Seq<Seq<char>>) -> Option<(FaultSpecView, int)> {
    if args.len() < 2 {
        None
    } else if args[0] == "--drop-event"@ {
        match parsed_usize(args[1]) {
            Some(index) => Some(
                (FaultSpecView::Explicit(FaultView::DropEvent { index: index as int }), 2),
            ),
            None => None,
        }
    } else if args[0] == "--reorder-events"@ {
        if args.len() < 3 {
            None
        } else {
            match (parsed_usize(args[1]), parsed_usize(args[2])) {
                (Some(i), Some(j)) => Some(
                    (
                        FaultSpecView::Explicit(
                            FaultView::ReorderEvents { i: i as int, j: j as int },
                        ),
                        3,
                    ),
                ),
                _ => None,
            }
        }
    } else if args[0] == "--corrupt-node"@ {
        if args.len() < 3 {
            None
        } else {
            match parsed_usize(args[1]) {
                Some(index) => Some(
                    (
                        FaultSpecView::Explicit(
                            FaultView::CorruptNode { index: index as int, node: args[2] },
                        ),
                        3,
                    ),
                ),
                None => None,
            }
        }
    } else if args[0] == "--seed"@ {
        match parsed_u64(args[1]) {
            Some(seed) => Some((FaultSpecView::Seeded(seed), 2)),
            None => None,
        }
    } else {
        None
    }
}

/// The flags of a replay.
#[verifier::ext_equal]
pub struct ReplayFlags {
    pub run_id: Option<Seq<char>>,
    pub job_id: Option<Seq<char>>,
    pub db: Option<Seq<char>>,
    pub fault: Option<FaultSpecView>,
}

/// The flags that arguments give, where `seen` are those before them. A flag
/// that is given again replaces what it gave before, but there is at most one
/// fault.
pub open spec fn replay_flags(args: Seq<Seq<char>>, seen: ReplayFlags) -> Option<ReplayFlags>
    decreases args.len(),
{
    if args.len() == 0 {
        Some(seen)
    } else if args[0] == "--run-id"@ {
        if args.len() < 2 {
            None
        } else {
            replay_flags(args.skip(2), ReplayFlags { run_id: Some(args[1]), ..seen })
        }
    } else if args[0] == "--job-id"@ {
        if args.len() < 2 {
            None
        } else {
            replay_flags(args.skip(2), ReplayFlags { job_id: Some(args[1]), ..seen })
        }
    } else if args[0] == "--db"@ {
        if args.len() < 2 {
            None
        } else {
            replay_flags(args.skip(2), ReplayFlags { db: Some(args[1]), ..seen })
        }
    } else if seen.fault is Some {
        None
    } else {
        match fault_flag(args) {
            Some((fault, used)) => replay_flags(
                args.skip(used),
                ReplayFlags { fault: Some(fault), ..seen },
            ),
            None => None,
        }
    }
}

/// The Run or the Job that is replayed: exactly one of them is to be named.
pub open spec fn target_of(run_id: Option<Seq<char>>, job_id: Option<Seq<char>>) -> Option<
    TargetView,
> {
    match (run_id, job_id) {
        (Some(run_id), None) => Some(TargetView::Run(run_id)),
        (None, Some(job_id)) => Some(TargetView::Job(job_id)),
        _ => None,
    }
}

/// What arguments ask for: a store is needed.
pub open spec fn replay_args(args: Seq<Seq<char>>) -> Option<ReplayArgsView> {
    match replay_flags(args, ReplayFlags { run_id: None, job_id: None, db: None, fault: None }) {
        Some(flags) => match flags.db {
            Some(db) => Some(
                ReplayArgsView {
                    db,
                    target: target_of(flags.run_id, flags.job_id),
                    fault: flags.fault,
                },
            ),
            None => None,
        },
        None => None,
    }
}

/// Reads the fault that the flag at position `i` and what follows it give, and
/// how many arguments these are.
fn parse_fault(args: &Vec<String>, i: usize) -> (res: Option<(FaultSpec, usize)>)
    requires
        i < args@.len(),
    ensures
        match res {
            Some((fault, used)) => fault_flag(texts(args@).skip(i as int)) == Some(
                (fault@, used as int),
            ) && 2 <= used <= args@.len() - i,
            None => fault_flag(texts(args@).skip(i as int)) is None,
        },
{
    let ghost rest = texts(args@).skip(i as int);
    assert(forall|k: int| 0 <= k < rest.len() ==> #[trigger] rest[k] == args@[i + k]@);
    let left: usize = args.len() - i;
    if left < 2 {
        return None;
    }
    if arg_is(&args[i], "--drop-event") {
        return match parse_usize(args[i + 1].as_str()) {
            Some(index) => Some((FaultSpec::Explicit(Fault::DropEvent { index }), 2)),
            None => None,
        };
    }
    if arg_is(&args[i], "--reorder-events") {
        if left < 3 {
            return None;
        }
        return match (parse_usize(args[i + 1].as_str()), parse_usize(args[i + 2].as_str())) {
            (Some(first), Some(second)) => Some(
                (FaultSpec::Explicit(Fault::ReorderEvents { i: first, j: second }), 3),
            ),
            _ => None,
        };
    }
    if arg_is(&args[i], "--corrupt-node") {
        if left < 3 {
            return None;
        }
        return match parse_usize(args[i + 1].as_str()) {
            Some(index) => Some(
                (
                    FaultSpec::Explicit(Fault::CorruptNode { index, node: args[i + 2].clone() }),
                    3,
                ),
            ),
            None => None,
        };
    }
    if arg_is(&args[i], "--seed") {
        return match parse_u64(args[i + 1].as_str()) {
            Some(seed) => Some((FaultSpec::Seeded(seed), 2)),
            None => None,
        };
    }
    None
}

/// Reads the arguments of `ang replay`.
pub fn run(args: &Vec<String>) -> (res: Result<ReplayArgs, UsageError>)
    ensures
        match res {
            Ok(plan) => replay_args(texts(args@)) == Some(plan@),
            Err(_) => replay_args(texts(args@)) is None,
        },
{
    let ghost all = texts(args@);
    let mut run_id: Option<String> = None;
    let mut job_id: Option<String> = None;
    let mut db: Option<String> = None;
    let mut fault: Option<FaultSpec> = None;
    let mut i: usize = 0;
    assert(all.skip(0) =~= all);
    while i < args.len()
        invariant
            i <= args@.len(),
            all == texts(args@),
            replay_flags(
                all,
                ReplayFlags { run_id: None, job_id: None, db: None, fault: None },
            ) == replay_flags(
                all.skip(i as int),
                ReplayFlags {
                    run_id: opt_text(run_id),
                    job_id: opt_text(job_id),
                    db: opt_text(db),
                    fault: opt_fault(fault),
                },
            ),
        decreases args@.len() - i,
    {
        let ghost rest = all.skip(i as int);
        assert(rest[0] == args@[i as int]@);
        let left: usize = args.len() - i;
        if arg_is(&args[i], "--run-id") {
            if left < 2 {
                return Err(UsageError);
            }
            assert(rest.skip(2) =~= all.skip(i + 2));
            run_id = Some(args[i + 1].clone());
            i = i + 2;
        } else if arg_is(&args[i], "--job-id") {
            if left < 2 {
                return Err(UsageError);
            }
            assert(rest.skip(2) =~= all.skip(i + 2));
            job_id = Some(args[i + 1].clone());
            i = i + 2;
        } else if arg_is(&args[i], "--db") {
            if left < 2 {
                return Err(UsageError);
            }
            assert(rest.skip(2) =~= all.skip(i + 2));
            db = Some(args[i + 1].clone());
            i = i + 2;
        } else {
            if fault.is_some() {
                return Err(UsageError);
            }
            match parse_fault(args, i) {
                Some((given, used)) => {
                    assert(rest.skip(used as int) =~= all.skip(i + used));
                    fault = Some(given);
                    i = i + used;
                },
                None => {
                    return Err(UsageError);
                },
            }
        }
    }
    assert(all.skip(i as int).len() == 0);
    let target = match (run_id, job_id) {
        (Some(run_id), None) => Some(Target::Run(run_id)),
        (None, Some(job_id)) => Some(Target::Job(job_id)),
        _ => None,
    };
    match db {
        Some(db) => Ok(ReplayArgs { db, target, fault }),
        None => Err(UsageError),
    }
}

/// What a replay writes, in order, and the status that it ends with.
#[derive(Debug, PartialEq)]
pub struct Finished {
    pub lines: Vec<OutputLine>,
    pub status: i32,
}

/// The lines with which a replay ends: none where it has an exit code, else
/// the message that it has none.
pub open spec fn closing(exit_code: Option<i32>, message: Seq<char>) -> Seq<LineView> {
    match exit_code {
        Some(_) => Seq::empty(),
        None => seq![LineView::Stderr(message)],
    }
}

/// The status with which a replay ends: its exit code, or 1 where it has none.
pub open spec fn status_of(exit_code: Option<i32>) -> i32 {
    match exit_code {
        Some(code) => code,
        None => 1,
    }
}

fn finish(lines: Vec<OutputLine>, exit_code: Option<i32>, message: String) -> (res: Finished)
    ensures
        written(res.lines@) == written(lines@) + closing(exit_code, message@),
        res.status == status_of(exit_code),
{
    let ghost before = written(lines@);
    let mut lines = lines;
    let mut status: i32 = 1;
    match exit_code {
        Some(code) => {
            status = code;
        },
        None => {
            lines.push(OutputLine::Stderr(message));
        },
    }
    assert(written(lines@) =~= before + closing(exit_code, message@));
    Finished { lines, status }
}

/// The events of a Run as a fault leaves them.
pub open spec fn run_under(ev: Seq<EventView>, fault: Option<FaultSpecView>) -> Seq<EventView> {
    match fault {
        Some(fault) => faulted(ev, resolved(fault, ev.len() as usize)),
        None => ev,
    }
}

/// The events of a timeline as a fault leaves them.
pub open spec fn timeline_under(
    ev: Seq<TimelineEventView>,
    fault: Option<FaultSpecView>,
) -> Seq<TimelineEventView> {
    match fault {
        Some(fault) => faulted_timeline(ev, resolved(fault, ev.len() as usize)),
        None => ev,
    }
}

/// Replays a Run's events, as a fault leaves them. A Run without a
/// `ProcessExit` ends in a message and status 1.
pub fn replay_run(run_id: &str, events: Vec<Event>, fault: &Option<FaultSpec>) -> (res: Finished)
    ensures
        ({
            let ev = run_under(run_stream(events@), opt_fault(*fault));
            &&& written(res.lines@) == run_lines(ev) + closing(
                run_exit(ev),
                "no process_exit event found for run_id '"@ + run_id@ + "'"@,
            )
            &&& res.status == status_of(run_exit(ev))
        }),
{
    let ghost before = events@;
    let events: Vec<Event> = match fault {
        Some(spec) => {
            let fault = spec.resolve(events.len());
            let faulted_events = apply(events, &fault);
            assert(run_stream(faulted_events@) =~= faulted(run_stream(before), fault@));
            faulted_events
        },
        None => events,
    };
    let replayed = drain_events(events);
    let mut message = String::from_str("no process_exit event found for run_id '");
    message.append(run_id);
    message.append("'");
    finish(replayed.lines, replayed.exit_code, message)
}

/// The lines that report the violations of a timeline on the error stream.
pub open spec fn violation_errors(list: Seq<ViolationView>) -> Seq<LineView> {
    list.map_values(|v: ViolationView| LineView::Stderr("[invariant] "@ + v.description))
}

fn report_errors(list: &Vec<Violation>) -> (res: Vec<OutputLine>)
    ensures
        written(res@) == violation_errors(reports(list@)),
{
    let ghost all = violation_errors(reports(list@));
    let mut lines: Vec<OutputLine> = Vec::new();
    let mut i: usize = 0;
    assert(written(lines@) =~= all.take(0));
    while i < list.len()
        invariant
            i <= list@.len(),
            all == violation_errors(reports(list@)),
            written(lines@) == all.take(i as int),
        decreases list@.len() - i,
    {
        let ghost so_far = lines@;
        lines.push(OutputLine::Stderr(violation_text(&list[i])));
        assert(lines@.last()@ == all[i as int]);
        assert(written(lines@) =~= written(so_far).push(lines@.last()@));
        i = i + 1;
        assert(written(lines@) =~= all.take(i as int));
    }
    assert(all.take(i as int) =~= all);
    lines
}

/// Replays a Job's timeline, as a fault leaves it. Its violations are reported
/// first, on the error stream. A timeline without a `JobExited` ends in a
/// message and status 1.
pub fn replay_job(job_id: &str, events: Vec<TimelineEvent>, fault: &Option<FaultSpec>) -> (res:
    Finished)
    ensures
        ({
            let ev = timeline_under(timeline(events@), opt_fault(*fault));
            &&& written(res.lines@) == violation_errors(violations(ev)) + timeline_lines(ev)
                + closing(job_exit(ev), "no job_exited event found for job_id '"@ + job_id@ + "'"@)
            &&& res.status == status_of(job_exit(ev))
        }),
{
    let events: Vec<TimelineEvent> = match fault {
        Some(spec) => {
            let fault = spec.resolve(events.len());
            apply_timeline(events, &fault)
        },
        None => events,
    };
    let ghost ev = timeline(events@);
    let found = check(&events);
    let mut lines = report_errors(&found);
    let ghost reported = written(lines@);
    let mut replayed = drain_timeline_events(events);
    let ghost drained = written(replayed.lines@);
    lines.append(&mut replayed.lines);
    assert(written(lines@) =~= reported + drained);
    let mut message = String::from_str("no job_exited event found for job_id '");
    message.append(job_id);
    message.append("'");
    finish(lines, replayed.exit_code, message)
}

/// A seed that the search finds is reproduced by replaying with it: the replay
/// reports the violations that the search found, and there are some.
pub proof fn law_found_seed_is_reproduced(
    ev: Seq<TimelineEventView>,
    start: u64,
    end: u64,
    seed: u64,
    list: Vec<Violation>,
)
    requires
        first_failing(ev, start, end, Some((seed, list))),
    ensures
        violations(timeline_under(ev, Some(FaultSpecView::Seeded(seed)))) == reports(list@),
        reports(list@).len() > 0,
{
}

/// Replaying with a seed reports violations exactly where the search counts
/// that seed as failing, and reports the same ones.
pub proof fn law_replayed_seed_agrees_with_search(ev: Seq<TimelineEventView>, seed: u64)
    ensures
        violations(timeline_under(ev, Some(FaultSpecView::Seeded(seed)))) == seed_violations(
            ev,
            seed,
        ),
        fails(ev, seed) <==> violations(
            timeline_under(ev, Some(FaultSpecView::Seeded(seed))),
        ).len() > 0,
{
}

} // verus!
