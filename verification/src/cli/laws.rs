//! What the command line promises, argument by argument and line by line.

use vstd::prelude::*;

use crate::cli::fuzz::{
    breakdown_lines, finding, first_failure_lines, fuzz_args, fuzz_flags, reports_all,
    reports_first, search_lines, search_status, violation_lines, ExhaustiveReport, FuzzFlags,
    Report,
};
use crate::cli::job_event::{event_of_hook, exit_code2, is_first_colon, var_text, SlurmEnv};
use crate::cli::replay::{
    closing, replay_args, replay_flags, resolved, run_under, status_of, timeline_under,
    violation_errors, FaultSpecView, ReplayFlags, TargetView,
};
use crate::cli::trace_store::{
    db_flag, event_line, selected, store_command, DbFlagErrorView, LogKind, SelectorErrorView,
    SelectorView, StoreArgsErrorView, StoreCommandView,
};
use crate::cli::{command_of, CommandView};
use crate::event::{texts, EventView, JobEventKindView, TimelineEventView};
use crate::fault::{faulted, faulted_timeline, seeded_fault, FaultView};
use crate::invariants::{reports, Violation, ViolationView};
use crate::replay::LineView;
use crate::search::first_failing;
use crate::search_laws::{
    counts_breaking, is_failing, is_least_failing, law_search_finds_the_least,
    law_tally_counts_breaking_seeds,
};
use crate::store::StoredEvent;
use crate::tally::{counts, in_order};
use crate::text::{decimal, parsed_i32, parsed_u64, parsed_usize, signed_decimal};

verus! {

/// A subcommand is handed the arguments that follow it.
pub proof fn law_subcommands_get_what_follows(rest: Seq<Seq<char>>)
    ensures
        command_of(seq!["job-event"@] + rest) == (CommandView::JobEvent {
            kind: if rest.len() > 0 {
                Some(rest[0])
            } else {
                None
            },
        }),
        command_of(seq!["trace-store"@] + rest) == (CommandView::TraceStore { args: rest }),
        command_of(seq!["replay"@] + rest) == (CommandView::Replay { args: rest }),
        command_of(seq!["fuzz"@] + rest) == (CommandView::Fuzz { args: rest }),
{
    reveal_strlit("-");
    reveal_strlit("job-event");
    reveal_strlit("trace-store");
    reveal_strlit("replay");
    reveal_strlit("fuzz");
    lemma_no_dash("job-event"@);
    lemma_no_dash("trace-store"@);
    lemma_no_dash("replay"@);
    lemma_no_dash("fuzz"@);
    assert("job-event"@.len() == 9 && "trace-store"@.len() == 11 && "replay"@.len() == 6
        && "fuzz"@.len() == 4);
    assert((seq!["job-event"@] + rest).skip(1) =~= rest);
    assert((seq!["trace-store"@] + rest).skip(1) =~= rest);
    assert((seq!["replay"@] + rest).skip(1) =~= rest);
    assert((seq!["fuzz"@] + rest).skip(1) =~= rest);
}

proof fn lemma_no_dash(s: Seq<char>)
    requires
        s.len() > 0,
    ensures
        "-"@.is_prefix_of(s) <==> s[0] == '-',
{
    reveal_strlit("-");
    if s[0] == '-' {
        assert("-"@ =~= s.subrange(0, 1));
    }
    if "-"@.is_prefix_of(s) {
        assert(s.subrange(0, 1)[0] == '-');
    }
}

/// No argument, or one that starts with a dash, asks for the usage, and two of
/// those for help. A first argument that is neither that nor a subcommand is
/// the image of a container, and the others are its command.
pub proof fn law_other_arguments_are_a_container(first: Seq<char>, rest: Seq<Seq<char>>)
    ensures
        command_of(Seq::empty()) == (CommandView::Usage { help: false }),
        first.len() > 0 && first[0] == '-' ==> command_of(seq![first] + rest)
            == (CommandView::Usage { help: first == "-h"@ || first == "--help"@ }),
        (first.len() == 0 || first[0] != '-') && first != "job-event"@ && first != "trace-store"@
            && first != "replay"@ && first != "fuzz"@ ==> command_of(seq![first] + rest)
            == (CommandView::Container { image: first, command: rest }),
{
    reveal_strlit("-");
    if first.len() > 0 {
        lemma_no_dash(first);
    }
    assert((seq![first] + rest).skip(1) =~= rest);
}

/// The value of a variable that is set, and `unknown` for one that is not.
pub proof fn law_unset_variables_are_unknown(var: Option<String>)
    ensures
        var matches Some(value) ==> var_text(var) == value@,
        var is None ==> var_text(var) == "unknown"@,
{
}

/// The number that a text reads as, and -1 where it reads as none.
pub open spec fn number_or_minus_one(s: Seq<char>) -> int {
    match parsed_i32(s) {
        Some(n) => n as int,
        None => -1,
    }
}

/// What comes before the first colon is the exit code, and what follows it the
/// signal. Without a colon there is no signal.
pub proof fn law_exit_code_and_signal_are_split_at_the_colon(a: Seq<char>, b: Seq<char>)
    requires
        forall|k: int| 0 <= k < a.len() ==> #[trigger] a[k] != ':',
    ensures
        exit_code2(a + seq![':'] + b).0 == number_or_minus_one(a),
        exit_code2(a + seq![':'] + b).1 == number_or_minus_one(b),
        exit_code2(a).0 == number_or_minus_one(a),
        exit_code2(a).1 == -1,
{
    let raw = a + seq![':'] + b;
    let at = a.len() as int;
    assert forall|k: int| 0 <= k < at implies #[trigger] raw[k] != ':' by {
        assert(raw[k] == a[k]);
    }
    assert(raw[at] == ':');
    assert(is_first_colon(raw, at));
    assert forall|c: int| is_first_colon(raw, c) implies c == at by {
        if c < at {
            assert(raw[c] != ':');
        } else if at < c {
            assert(raw[at] != ':');
        }
    }
    assert(raw.take(at) =~= a);
    assert(raw.skip(at + 1) =~= b);
    assert forall|c: int| !is_first_colon(a, c) by {}
}

/// Each kind of hook records its own event, from the variables that belong to
/// it; there are four kinds.
pub proof fn law_hooks_record_their_events(kind: Seq<char>, env: SlurmEnv)
    ensures
        event_of_hook("node-allocated"@, env) == Some(
            JobEventKindView::NodeAllocated {
                node: var_text(env.node),
                user: var_text(env.user),
                work_dir: var_text(env.work_dir),
            },
        ),
        event_of_hook("task-started"@, env) == Some(
            JobEventKindView::TaskStarted {
                step_id: var_text(env.step_id),
                task_id: var_text(env.task_id),
                node: var_text(env.node),
            },
        ),
        event_of_hook("task-exited"@, env) == Some(
            JobEventKindView::TaskExited {
                step_id: var_text(env.step_id),
                task_id: var_text(env.task_id),
                node: var_text(env.node),
            },
        ),
        event_of_hook("job-exited"@, env) == Some(
            JobEventKindView::JobExited {
                exit_code: exit_code2(var_text(env.exit_code2)).0,
                signal: exit_code2(var_text(env.exit_code2)).1,
                job_name: var_text(env.job_name),
                node_list: var_text(env.node_list),
            },
        ),
        kind != "node-allocated"@ && kind != "task-started"@ && kind != "task-exited"@ && kind
            != "job-exited"@ ==> event_of_hook(kind, env) is None,
{
    reveal_strlit("node-allocated");
    reveal_strlit("task-started");
    reveal_strlit("task-exited");
    reveal_strlit("job-exited");
    assert("node-allocated"@.len() == 14 && "task-started"@.len() == 12 && "task-exited"@.len()
        == 11 && "job-exited"@.len() == 10);
}

/// Each flag of a search says one thing, wherever it stands: the last of its
/// kind counts, and any other argument is refused.
pub proof fn law_search_flags(rest: Seq<Seq<char>>, x: Seq<char>, y: Seq<char>, seen: FuzzFlags)
    ensures
        fuzz_flags(Seq::empty(), seen) == Some(seen),
        fuzz_flags(seq!["--job-id"@, x] + rest, seen) == fuzz_flags(
            rest,
            FuzzFlags { job_id: Some(x), ..seen },
        ),
        fuzz_flags(seq!["--db"@, x] + rest, seen) == fuzz_flags(
            rest,
            FuzzFlags { db: Some(x), ..seen },
        ),
        fuzz_flags(seq!["--exhaustive"@] + rest, seen) == fuzz_flags(
            rest,
            FuzzFlags { exhaustive: true, ..seen },
        ),
        fuzz_flags(seq!["--seeds"@, x, y] + rest, seen) == match (parsed_u64(x), parsed_u64(y)) {
            (Some(start), Some(end)) => fuzz_flags(
                rest,
                FuzzFlags { seeds: Some((start, end)), ..seen },
            ),
            _ => None,
        },
        fuzz_flags(seq!["--job-id"@], seen) is None,
        fuzz_flags(seq!["--db"@], seen) is None,
        fuzz_flags(seq!["--seeds"@], seen) is None,
        fuzz_flags(seq!["--seeds"@, x], seen) is None,
        x != "--job-id"@ && x != "--db"@ && x != "--seeds"@ && x != "--exhaustive"@ ==> fuzz_flags(
            seq![x] + rest,
            seen,
        ) is None,
{
    reveal_strlit("--job-id");
    reveal_strlit("--db");
    reveal_strlit("--seeds");
    reveal_strlit("--exhaustive");
    assert("--job-id"@.len() == 8 && "--db"@.len() == 4 && "--seeds"@.len() == 7
        && "--exhaustive"@.len() == 12);
    assert((seq!["--job-id"@, x] + rest).skip(2) =~= rest);
    assert((seq!["--db"@, x] + rest).skip(2) =~= rest);
    assert((seq!["--exhaustive"@] + rest).skip(1) =~= rest);
    assert((seq!["--seeds"@, x, y] + rest).skip(3) =~= rest);
}

/// A search needs a Job, a store and a range of seeds, and is asked for exactly
/// what the flags say.
pub proof fn law_search_needs_three_flags(args: Seq<Seq<char>>)
    ensures
        ({
            let flags = fuzz_flags(
                args,
                FuzzFlags { job_id: None, db: None, seeds: None, exhaustive: false },
            );
            &&& fuzz_args(args) is Some <==> (flags matches Some(f) && f.job_id is Some
                && f.db is Some && f.seeds is Some)
            &&& fuzz_args(args) matches Some(plan) ==> (flags matches Some(f) && f.job_id == Some(
                plan.job_id,
            ) && f.db == Some(plan.db) && f.seeds == Some((plan.start, plan.end)) && f.exhaustive
                == plan.exhaustive)
        }),
{
}

/// Each flag of a replay says one thing, wherever it stands, and there is at
/// most one fault.
pub proof fn law_replay_flags(rest: Seq<Seq<char>>, x: Seq<char>, y: Seq<char>, seen: ReplayFlags)
    ensures
        replay_flags(Seq::empty(), seen) == Some(seen),
        replay_flags(seq!["--run-id"@, x] + rest, seen) == replay_flags(
            rest,
            ReplayFlags { run_id: Some(x), ..seen },
        ),
        replay_flags(seq!["--job-id"@, x] + rest, seen) == replay_flags(
            rest,
            ReplayFlags { job_id: Some(x), ..seen },
        ),
        replay_flags(seq!["--db"@, x] + rest, seen) == replay_flags(
            rest,
            ReplayFlags { db: Some(x), ..seen },
        ),
        replay_flags(seq!["--run-id"@], seen) is None,
        replay_flags(seq!["--job-id"@], seen) is None,
        replay_flags(seq!["--db"@], seen) is None,
{
    reveal_strlit("--run-id");
    reveal_strlit("--job-id");
    reveal_strlit("--db");
    assert("--run-id"@[2] != "--job-id"@[2]);
    assert("--run-id"@.len() == 8 && "--job-id"@.len() == 8 && "--db"@.len() == 4);
    assert((seq!["--run-id"@, x] + rest).skip(2) =~= rest);
    assert((seq!["--job-id"@, x] + rest).skip(2) =~= rest);
    assert((seq!["--db"@, x] + rest).skip(2) =~= rest);
}

/// A fault flag gives the fault that it names, with the positions, the node or
/// the seed that follow it; a second one is refused, and so is any other
/// argument.
pub proof fn law_replay_fault_flags(
    rest: Seq<Seq<char>>,
    x: Seq<char>,
    y: Seq<char>,
    seen: ReplayFlags,
)
    ensures
        seen.fault is None ==> {
            &&& replay_flags(seq!["--drop-event"@, x] + rest, seen) == match parsed_usize(x) {
                Some(n) => replay_flags(
                    rest,
                    ReplayFlags {
                        fault: Some(
                            FaultSpecView::Explicit(FaultView::DropEvent { index: n as int }),
                        ),
                        ..seen
                    },
                ),
                None => None,
            }
            &&& replay_flags(seq!["--reorder-events"@, x, y] + rest, seen) == match (
                parsed_usize(x),
                parsed_usize(y),
            ) {
                (Some(n), Some(m)) => replay_flags(
                    rest,
                    ReplayFlags {
                        fault: Some(
                            FaultSpecView::Explicit(
                                FaultView::ReorderEvents { i: n as int, j: m as int },
                            ),
                        ),
                        ..seen
                    },
                ),
                _ => None,
            }
            &&& replay_flags(seq!["--corrupt-node"@, x, y] + rest, seen) == match parsed_usize(x) {
                Some(n) => replay_flags(
                    rest,
                    ReplayFlags {
                        fault: Some(
                            FaultSpecView::Explicit(
                                FaultView::CorruptNode { index: n as int, node: y },
                            ),
                        ),
                        ..seen
                    },
                ),
                None => None,
            }
            &&& replay_flags(seq!["--seed"@, x] + rest, seen) == match parsed_u64(x) {
                Some(n) => replay_flags(
                    rest,
                    ReplayFlags { fault: Some(FaultSpecView::Seeded(n)), ..seen },
                ),
                None => None,
            }
        },
        seen.fault is Some && x != "--run-id"@ && x != "--job-id"@ && x != "--db"@ ==> replay_flags(
            seq![x] + rest,
            seen,
        ) is None,
        x != "--run-id"@ && x != "--job-id"@ && x != "--db"@ && x != "--drop-event"@ && x
            != "--reorder-events"@ && x != "--corrupt-node"@ && x != "--seed"@ ==> replay_flags(
            seq![x] + rest,
            seen,
        ) is None,
        x != "--run-id"@ && x != "--job-id"@ && x != "--db"@ ==> replay_flags(
            seq![x],
            seen,
        ) is None,
        replay_flags(seq!["--reorder-events"@, x], seen) is None,
        replay_flags(seq!["--corrupt-node"@, x], seen) is None,
{
    reveal_strlit("--run-id");
    reveal_strlit("--job-id");
    reveal_strlit("--db");
    reveal_strlit("--drop-event");
    reveal_strlit("--reorder-events");
    reveal_strlit("--corrupt-node");
    reveal_strlit("--seed");
    assert("--run-id"@.len() == 8 && "--job-id"@.len() == 8 && "--db"@.len() == 4);
    assert("--drop-event"@.len() == 12 && "--reorder-events"@.len() == 16
        && "--corrupt-node"@.len() == 14 && "--seed"@.len() == 6);
    assert((seq!["--drop-event"@, x] + rest).skip(2) =~= rest);
    assert((seq!["--seed"@, x] + rest).skip(2) =~= rest);
    assert((seq!["--reorder-events"@, x, y] + rest).skip(3) =~= rest);
    assert((seq!["--corrupt-node"@, x, y] + rest).skip(3) =~= rest);
}

/// A replay needs a store, and is asked for exactly what the flags say: a Run
/// or a Job, where exactly one is named.
pub proof fn law_replay_needs_a_store(args: Seq<Seq<char>>)
    ensures
        ({
            let flags = replay_flags(
                args,
                ReplayFlags { run_id: None, job_id: None, db: None, fault: None },
            );
            &&& replay_args(args) is Some <==> (flags matches Some(f) && f.db is Some)
            &&& replay_args(args) matches Some(plan) ==> (flags matches Some(f) && f.db == Some(
                plan.db,
            ) && f.fault == plan.fault && (plan.target is None <==> f.run_id is Some
                == f.job_id is Some) && (plan.target matches Some(TargetView::Run(id)) ==> f.run_id
                == Some(id)) && (plan.target matches Some(TargetView::Job(id)) ==> f.job_id == Some(
                id,
            )))
        }),
{
}

/// A fault that is given is the one that is applied, and a seed stands for the
/// one that it selects for the length of the stream. Without a fault a stream
/// stays as it is.
pub proof fn law_faults_are_applied_as_given(
    fault: FaultView,
    seed: u64,
    len: usize,
    run: Seq<EventView>,
    ev: Seq<TimelineEventView>,
)
    ensures
        resolved(FaultSpecView::Explicit(fault), len) == fault,
        resolved(FaultSpecView::Seeded(seed), len) == seeded_fault(seed, len),
        run_under(run, None) == run,
        timeline_under(ev, None) == ev,
        run_under(run, Some(FaultSpecView::Explicit(fault))) == faulted(run, fault),
        timeline_under(ev, Some(FaultSpecView::Explicit(fault))) == faulted_timeline(ev, fault),
        run_under(run, Some(FaultSpecView::Seeded(seed))) == faulted(
            run,
            seeded_fault(seed, run.len() as usize),
        ),
        timeline_under(ev, Some(FaultSpecView::Seeded(seed))) == faulted_timeline(
            ev,
            seeded_fault(seed, ev.len() as usize),
        ),
{
}

/// A replay with an exit code ends with it and adds no line; one without ends
/// with status 1 and its message on the error stream.
pub proof fn law_replay_ends_with_its_exit_code(code: i32, message: Seq<char>)
    ensures
        status_of(Some(code)) == code,
        closing(Some(code), message) == Seq::<LineView>::empty(),
        status_of(None) == 1,
        closing(None, message) == seq![LineView::Stderr(message)],
{
}

/// Each violation is reported on a line of its own, in order, by what it says.
pub proof fn law_each_violation_has_its_line(list: Seq<ViolationView>)
    ensures
        violation_lines(list).len() == list.len(),
        forall|k: int|
            0 <= k < list.len() ==> #[trigger] violation_lines(list)[k] == "[invariant] "@
                + list[k].description,
        violation_errors(list).len() == list.len(),
        forall|k: int|
            0 <= k < list.len() ==> #[trigger] violation_errors(list)[k] == LineView::Stderr(
                "[invariant] "@ + list[k].description,
            ),
{
}

/// The report on the first failing seed names the seed, and has a line for each
/// of its violations; without one it says how many seeds there were.
pub proof fn law_search_report_lines(seed: u64, list: Vec<Violation>, start: u64, end: u64)
    ensures
        ({
            let lines = search_lines(finding(Some((seed, list))), start, end);
            &&& lines.len() == 1 + list@.len()
            &&& lines[0] == "seed "@ + decimal(seed as nat) + " fails:"@
            &&& forall|k: int|
                0 <= k < list@.len() ==> #[trigger] lines[1 + k] == "[invariant] "@
                    + list@[k].description@
        }),
        search_lines(finding(None), start, end).len() == 1,
        start <= end ==> search_lines(finding(None), start, end)[0] == "no violations in "@
            + decimal((end - start) as nat) + " seed(s)"@,
        end < start ==> search_lines(finding(None), start, end)[0] == "no violations in "@
            + decimal(0) + " seed(s)"@,
        first_failure_lines(finding(Some((seed, list)))) == seq![
            "first failure: seed "@ + decimal(seed as nat),
        ],
        first_failure_lines(finding(None)) == Seq::<Seq<char>>::empty(),
{
    let lines = search_lines(finding(Some((seed, list))), start, end);
    assert forall|k: int| 0 <= k < list@.len() implies #[trigger] lines[1 + k] == "[invariant] "@
        + list@[k].description@ by {
        assert(reports(list@)[k] == list@[k]@);
    }
}

/// A breakdown has a line for each entry of the tally, in order, with its name
/// and count.
pub proof fn law_breakdown_lines(entries: Seq<(&'static str, u64)>)
    ensures
        breakdown_lines(entries).len() == entries.len(),
        forall|k: int|
            0 <= k < entries.len() ==> #[trigger] breakdown_lines(entries)[k] == "  "@
                + entries[k].0@ + ": "@ + decimal(entries[k].1 as nat),
{
}

/// Both reports end with status 2 where some seed of the range fails, and else
/// with 0; they tell of the least failing seed, and the one on every seed of how
/// many break each invariant.
pub proof fn law_reports_tell_what_was_found(
    ev: Seq<TimelineEventView>,
    start: u64,
    end: u64,
    first: Report,
    all: ExhaustiveReport,
)
    requires
        reports_first(ev, start, end, first),
        reports_all(ev, start, end, all),
    ensures
        first.status == all.status,
        (exists|s: int| start <= s < end && #[trigger] is_failing(ev, s)) ==> first.status == 2,
        !(exists|s: int| start <= s < end && #[trigger] is_failing(ev, s)) ==> first.status == 0,
        exists|found: Option<(u64, Vec<Violation>)>|
            {
                &&& #[trigger] is_least_failing(ev, start, end, found)
                &&& texts(first.lines@) == search_lines(finding(found), start, end)
                &&& texts(all.first_failure@).len() == if found is Some {
                    1int
                } else {
                    0int
                }
                &&& found matches Some((seed, _)) ==> texts(all.first_failure@)[0]
                    == "first failure: seed "@ + decimal(seed as nat)
            },
        start <= end ==> all.total@ == "total: "@ + decimal((end - start) as nat) && all.seeds
            == end - start,
        end < start ==> all.total@ == "total: "@ + decimal(0) && all.seeds == 0,
        exists|entries: Seq<(&'static str, u64)>|
            {
                &&& in_order(entries)
                &&& counts_breaking(ev, start as int, end as int, #[trigger] counts(entries))
                &&& texts(all.breakdown@) == breakdown_lines(entries)
            },
{
    let found = choose|found: Option<(u64, Vec<Violation>)>| #[trigger]
        first_failing(ev, start, end, found) && texts(first.lines@) == search_lines(
            finding(found),
            start,
            end,
        );
    let also = choose|found: Option<(u64, Vec<Violation>)>| #[trigger]
        first_failing(ev, start, end, found) && texts(all.first_failure@) == first_failure_lines(
            finding(found),
        );
    law_search_finds_the_least(ev, start, end, found);
    crate::search::law_search_is_deterministic(ev, start, end, found, also);
    let entries = choose|entries: Seq<(&'static str, u64)>|
        {
            &&& in_order(entries)
            &&& crate::search::tallies(ev, start, end as int, counts(entries))
            &&& texts(all.breakdown@) == #[trigger] breakdown_lines(entries)
        };
    law_tally_counts_breaking_seeds(ev, start, end, counts(entries));
    lemma_status(ev, start, end, found);
}

proof fn lemma_status(
    ev: Seq<TimelineEventView>,
    start: u64,
    end: u64,
    found: Option<(u64, Vec<Violation>)>,
)
    requires
        first_failing(ev, start, end, found),
    ensures
        search_status(ev, start, end) == if exists|s: int|
            start <= s < end && #[trigger] is_failing(ev, s) {
            2i32
        } else {
            0i32
        },
{
    assert forall|s: u64| #[trigger] crate::search::fails(ev, s) == is_failing(ev, s as int) by {}
    if crate::cli::fuzz::some_seed_fails(ev, start, end) {
        let s = choose|s: u64| start <= s < end && crate::search::fails(ev, s);
        assert(is_failing(ev, s as int));
    }
    if exists|s: int| start <= s < end && #[trigger] is_failing(ev, s) {
        let s = choose|s: int| start <= s < end && #[trigger] is_failing(ev, s);
        assert(crate::search::fails(ev, s as u64));
    }
}

/// The path of the store follows `--db`, which comes first.
pub proof fn law_store_path_follows_its_flag(flag: Seq<char>, path: Seq<char>, rest: Seq<Seq<char>>)
    ensures
        db_flag(seq!["--db"@, path] + rest) == Ok::<Seq<char>, DbFlagErrorView>(path),
        db_flag(seq!["--db"@]) == Err::<Seq<char>, DbFlagErrorView>(DbFlagErrorView::NoPath),
        db_flag(Seq::empty()) == Err::<Seq<char>, DbFlagErrorView>(DbFlagErrorView::Missing),
        flag != "--db"@ ==> db_flag(seq![flag] + rest) == Err::<Seq<char>, DbFlagErrorView>(
            DbFlagErrorView::Unexpected(flag),
        ),
{
}

/// A query selects by the flag and the value that come first.
pub proof fn law_queries_select_by_flag(flag: Seq<char>, value: Seq<char>, rest: Seq<Seq<char>>)
    ensures
        selected(seq!["--run-id"@, value] + rest) == Ok::<SelectorView, SelectorErrorView>(
            SelectorView::Run(value),
        ),
        selected(seq!["--job-id"@, value] + rest) == Ok::<SelectorView, SelectorErrorView>(
            SelectorView::Job(value),
        ),
        selected(seq!["--kind"@, value] + rest) == Ok::<SelectorView, SelectorErrorView>(
            SelectorView::Kind(value),
        ),
        selected(Seq::empty()) == Err::<SelectorView, SelectorErrorView>(SelectorErrorView::Usage),
        selected(seq![flag]) == Err::<SelectorView, SelectorErrorView>(
            SelectorErrorView::NoValue(flag),
        ),
        flag != "--run-id"@ && flag != "--job-id"@ && flag != "--kind"@ ==> selected(
            seq![flag, value] + rest,
        ) == Err::<SelectorView, SelectorErrorView>(SelectorErrorView::Usage),
{
    reveal_strlit("--run-id");
    reveal_strlit("--job-id");
    reveal_strlit("--kind");
    assert("--run-id"@[2] != "--job-id"@[2]);
    assert("--run-id"@.len() == 8 && "--job-id"@.len() == 8 && "--kind"@.len() == 6);
}

/// Each subcommand of the store does its own work on the store that it names,
/// with the logs that follow, or by what the query selects. One that does not
/// name a store is told so, and any other is refused.
pub proof fn law_store_subcommands(sub: Seq<char>, db: Seq<char>, rest: Seq<Seq<char>>)
    ensures
        store_command(seq!["ingest-run"@, "--db"@, db] + rest) == Ok::<
            StoreCommandView,
            StoreArgsErrorView,
        >(StoreCommandView::Ingest { log: LogKind::Run, db, paths: rest }),
        store_command(seq!["ingest-job"@, "--db"@, db] + rest) == Ok::<
            StoreCommandView,
            StoreArgsErrorView,
        >(StoreCommandView::Ingest { log: LogKind::Job, db, paths: rest }),
        store_command(seq!["ingest-message"@, "--db"@, db] + rest) == Ok::<
            StoreCommandView,
            StoreArgsErrorView,
        >(StoreCommandView::Ingest { log: LogKind::Message, db, paths: rest }),
        store_command(seq!["query"@, "--db"@, db] + rest) == Ok::<
            StoreCommandView,
            StoreArgsErrorView,
        >(StoreCommandView::Query { db, selector: selected(rest) }),
        store_command(Seq::empty()) == Err::<StoreCommandView, StoreArgsErrorView>(
            StoreArgsErrorView::Usage,
        ),
        sub != "ingest-run"@ && sub != "ingest-job"@ && sub != "ingest-message"@ && sub != "query"@
            ==> store_command(seq![sub] + rest) == Err::<StoreCommandView, StoreArgsErrorView>(
            StoreArgsErrorView::Usage,
        ),
        (sub == "ingest-run"@ || sub == "ingest-job"@ || sub == "ingest-message"@ || sub
            == "query"@) && db_flag(rest) is Err ==> store_command(seq![sub] + rest) == Err::<
            StoreCommandView,
            StoreArgsErrorView,
        >(StoreArgsErrorView::Db(db_flag(rest)->Err_0)),
{
    reveal_strlit("ingest-run");
    reveal_strlit("ingest-job");
    reveal_strlit("ingest-message");
    reveal_strlit("query");
    assert("ingest-run"@[7] != "ingest-job"@[7]);
    assert("ingest-run"@.len() == 10 && "ingest-job"@.len() == 10 && "ingest-message"@.len() == 14
        && "query"@.len() == 5);
    assert((seq![sub] + rest).skip(1) =~= rest);
    lemma_after_db("ingest-run"@, db, rest);
    lemma_after_db("ingest-job"@, db, rest);
    lemma_after_db("ingest-message"@, db, rest);
    lemma_after_db("query"@, db, rest);
}

proof fn lemma_after_db(sub: Seq<char>, db: Seq<char>, rest: Seq<Seq<char>>)
    ensures
        (seq![sub, "--db"@, db] + rest).skip(1) == seq!["--db"@, db] + rest,
        (seq![sub, "--db"@, db] + rest).skip(3) == rest,
{
    assert((seq![sub, "--db"@, db] + rest).skip(1) =~= seq!["--db"@, db] + rest);
    assert((seq![sub, "--db"@, db] + rest).skip(3) =~= rest);
}

/// A queried event is printed as its time and its payload.
pub proof fn law_queried_events_are_printed(event: StoredEvent)
    ensures
        event_line(event) == signed_decimal(event.timestamp_ms as int) + " "@ + event.payload@,
{
}

} // verus!
