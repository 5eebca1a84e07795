//! `ang fuzz`: the search for a failing seed over a Job's timeline, and its
//! report.

use vstd::prelude::*;

use crate::cli::{arg_is, UsageError};
use crate::event::{opt_text, texts, timeline, TimelineEvent, TimelineEventView};
use crate::invariants::{reports, Violation, ViolationView};
use crate::search::{
    fails, failing_seeds, first_failing, seed_search, seed_search_stats, tallies, SeedSearchStats,
};
use crate::tally::{counts, in_order, Tally};
use crate::text::{decimal, parse_u64, parsed_u64, push_decimal};

verus! {

/// What a search is asked for.
#[derive(Debug, PartialEq)]
pub struct FuzzArgs {
    pub job_id: String,
    pub db: String,
    pub start: u64,
    pub end: u64,
    /// Evaluate every seed in place of stopping at the first that fails.
    pub exhaustive: bool,
}

/// The model of a `FuzzArgs`.
#[verifier::ext_equal]
pub struct FuzzArgsView {
    pub job_id: Seq<char>,
    pub db: Seq<char>,
    pub start: u64,
    pub end: u64,
    pub exhaustive: bool,
}

impl View for FuzzArgs {
    type V = FuzzArgsView;

    open spec fn view(&self) -> FuzzArgsView {
        FuzzArgsView {
            job_id: self.job_id@,
            db: self.db@,
            start: self.start,
            end: self.end,
            exhaustive: self.exhaustive,
        }
    }
}

/// The flags of a search.
#[verifier::ext_equal]
pub struct FuzzFlags {
    pub job_id: Option<Seq<char>>,
    pub db: Option<Seq<char>>,
    pub seeds: Option<(u64, u64)>,
    pub exhaustive: bool,
}

/// The flags that arguments give, where `seen` are those before them. A flag
/// that is given again replaces what it gave before.
pub open spec fn fuzz_flags(args: Seq<Seq<char>>, seen: FuzzFlags) -> Option<FuzzFlags>
    decreases args.len(),
{
    if args.len() == 0 {
        Some(seen)
    } else if args[0] == "--job-id"@ {
        if args.len() < 2 {
            None
        } else {
            fuzz_flags(args.skip(2), FuzzFlags { job_id: Some(args[1]), ..seen })
        }
    } else if args[0] == "--db"@ {
        if args.len() < 2 {
            None
        } else {
            fuzz_flags(args.skip(2), FuzzFlags { db: Some(args[1]), ..seen })
        }
    } else if args[0] == "--seeds"@ {
        if args.len() < 3 {
            None
        } else {
            match (parsed_u64(args[1]), parsed_u64(args[2])) {
                (Some(start), Some(end)) => fuzz_flags(
                    args.skip(3),
                    FuzzFlags { seeds: Some((start, end)), ..seen },
                ),
                _ => None,
            }
        }
    } else if args[0] == "--exhaustive"@ {
        fuzz_flags(args.skip(1), FuzzFlags { exhaustive: true, ..seen })
    } else {
        None
    }
}

/// What arguments ask for: a Job, a store and a range of seeds are needed.
pub open spec fn fuzz_args(args: Seq<Seq<char>>) -> Option<FuzzArgsView> {
    match fuzz_flags(
        args,
        FuzzFlags { job_id: None, db: None, seeds: None, exhaustive: false },
    ) {
        Some(flags) => match (flags.job_id, flags.db, flags.seeds) {
            (Some(job_id), Some(db), Some((start, end))) => Some(
                FuzzArgsView { job_id, db, start, end, exhaustive: flags.exhaustive },
            ),
            _ => None,
        },
        None => None,
    }
}

/// Reads the arguments of `ang fuzz`.
pub fn run(args: &Vec<String>) -> (res: Result<FuzzArgs, UsageError>)
    ensures
        match res {
            Ok(plan) => fuzz_args(texts(args@)) == Some(plan@),
            Err(_) => fuzz_args(texts(args@)) is None,
        },
{
    let ghost all = texts(args@);
    let mut job_id: Option<String> = None;
    let mut db: Option<String> = None;
    let mut seeds: Option<(u64, u64)> = None;
    let mut exhaustive = false;
    let mut i: usize = 0;
    assert(all.skip(0) =~= all);
    while i < args.len()
        invariant
            i <= args@.len(),
            all == texts(args@),
            fuzz_flags(
                all,
                FuzzFlags { job_id: None, db: None, seeds: None, exhaustive: false },
            ) == fuzz_flags(
                all.skip(i as int),
                FuzzFlags { job_id: opt_text(job_id), db: opt_text(db), seeds, exhaustive },
            ),
        decreases args@.len() - i,
    {
        let ghost rest = all.skip(i as int);
        assert(rest[0] == args@[i as int]@);
        let left: usize = args.len() - i;
        if arg_is(&args[i], "--job-id") {
            if left < 2 {
                return Err(UsageError);
            }
            assert(rest.skip(2) =~= all.skip(i + 2));
            job_id = Some(args[i + 1].clone());
            i = i + 2;
        } else if arg_is(&args[i], "--db") {
            if left < 2 {
                return Err(UsageError);
            }
            assert(rest.skip(2) =~= all.skip(i + 2));
            db = Some(args[i + 1].clone());
            i = i + 2;
        } else if arg_is(&args[i], "--seeds") {
            if left < 3 {
                return Err(UsageError);
            }
            assert(rest.skip(3) =~= all.skip(i + 3));
            match (parse_u64(args[i + 1].as_str()), parse_u64(args[i + 2].as_str())) {
                (Some(start), Some(end)) => {
                    seeds = Some((start, end));
                },
                _ => {
                    return Err(UsageError);
                },
            }
            i = i + 3;
        } else if arg_is(&args[i], "--exhaustive") {
            assert(rest.skip(1) =~= all.skip(i + 1));
            exhaustive = true;
            i = i + 1;
        } else {
            return Err(UsageError);
        }
    }
    assert(all.skip(i as int).len() == 0);
    match (job_id, db, seeds) {
        (Some(job_id), Some(db), Some((start, end))) => Ok(
            FuzzArgs { job_id, db, start, end, exhaustive },
        ),
        _ => Err(UsageError),
    }
}

/// The lines that report violations.
pub open spec fn violation_lines(list: Seq<ViolationView>) -> Seq<Seq<char>> {
    list.map_values(|v: ViolationView| "[invariant] "@ + v.description)
}

/// The line that reports a violation.
pub fn violation_text(violation: &Violation) -> (res: String)
    ensures
        res@ == "[invariant] "@ + violation@.description,
{
    let mut text = String::from_str("[invariant] ");
    text.append(violation.description.as_str());
    text
}

/// Appends the lines that report violations.
pub fn print_violations(lines: &mut Vec<String>, list: &Vec<Violation>)
    ensures
        texts(final(lines)@) == texts(old(lines)@) + violation_lines(reports(list@)),
{
    let ghost before = texts(lines@);
    let ghost all = violation_lines(reports(list@));
    let mut i: usize = 0;
    assert(texts(lines@) =~= before + all.take(0));
    while i < list.len()
        invariant
            i <= list@.len(),
            all == violation_lines(reports(list@)),
            texts(lines@) == before + all.take(i as int),
        decreases list@.len() - i,
    {
        let ghost so_far = lines@;
        lines.push(violation_text(&list[i]));
        assert(lines@.last()@ == all[i as int]);
        assert(texts(lines@) =~= texts(so_far).push(lines@.last()@));
        i = i + 1;
        assert(texts(lines@) =~= before + all.take(i as int));
    }
    assert(all.take(i as int) =~= all);
}

/// What a search prints, and the status that it ends with.
#[derive(Debug, PartialEq)]
pub struct Report {
    pub lines: Vec<String>,
    pub status: i32,
}

/// The report on a search that stops at the first failing seed.
pub open spec fn search_lines(
    found: Option<(u64, Seq<ViolationView>)>,
    start: u64,
    end: u64,
) -> Seq<Seq<char>> {
    match found {
        Some((seed, list)) => seq!["seed "@ + decimal(seed as nat) + " fails:"@] + violation_lines(
            list,
        ),
        None => seq![
            "no violations in "@ + decimal(
                if start <= end {
                    (end - start) as nat
                } else {
                    0
                },
            ) + " seed(s)"@,
        ],
    }
}

/// The model of what a search found.
pub open spec fn finding(found: Option<(u64, Vec<Violation>)>) -> Option<
    (u64, Seq<ViolationView>),
> {
    match found {
        Some((seed, list)) => Some((seed, reports(list@))),
        None => None,
    }
}

/// Reports what a search that stops at the first failing seed has found.
pub fn search_report(found: &Option<(u64, Vec<Violation>)>, start: u64, end: u64) -> (res: Report)
    ensures
        texts(res.lines@) == search_lines(finding(*found), start, end),
        res.status == if found is Some {
            2i32
        } else {
            0i32
        },
{
    let mut lines: Vec<String> = Vec::new();
    match found {
        Some((seed, list)) => {
            let mut text = String::from_str("seed ");
            push_decimal(&mut text, *seed as u128);
            text.append(" fails:");
            lines.push(text);
            assert(texts(lines@) =~= seq!["seed "@ + decimal(*seed as nat) + " fails:"@]);
            print_violations(&mut lines, list);
            Report { lines, status: 2 }
        },
        None => {
            let mut text = String::from_str("no violations in ");
            push_decimal(&mut text, end.saturating_sub(start) as u128);
            text.append(" seed(s)");
            lines.push(text);
            assert(texts(lines@) =~= search_lines(None, start, end));
            Report { lines, status: 0 }
        },
    }
}

/// Some seed of a range fails.
pub open spec fn some_seed_fails(ev: Seq<TimelineEventView>, start: u64, end: u64) -> bool {
    exists|seed: u64| start <= seed < end && fails(ev, seed)
}

/// The status that a search ends with: 2 where some seed of the range fails.
pub open spec fn search_status(ev: Seq<TimelineEventView>, start: u64, end: u64) -> i32 {
    if some_seed_fails(ev, start, end) {
        2
    } else {
        0
    }
}

/// The report on the first failing seed of a range: what the search for it
/// finds, and its status.
pub open spec fn reports_first(
    ev: Seq<TimelineEventView>,
    start: u64,
    end: u64,
    res: Report,
) -> bool {
    &&& exists|found: Option<(u64, Vec<Violation>)>| #[trigger]
        first_failing(ev, start, end, found) && texts(res.lines@) == search_lines(
            finding(found),
            start,
            end,
        )
    &&& res.status == search_status(ev, start, end)
}

proof fn lemma_found_iff_some_fails(
    ev: Seq<TimelineEventView>,
    start: u64,
    end: u64,
    found: Option<(u64, Vec<Violation>)>,
)
    requires
        first_failing(ev, start, end, found),
    ensures
        found is Some <==> some_seed_fails(ev, start, end),
{
    if let Some((seed, _)) = found {
        assert(fails(ev, seed));
    }
}

/// Searches a timeline for the first failing seed and reports it: the search
/// ends with status 2 exactly where some seed of the range fails.
pub fn fuzz(events: &[TimelineEvent], start: u64, end: u64) -> (res: Report)
    ensures
        reports_first(timeline(events@), start, end, res),
{
    let found = seed_search(events, start..end);
    proof {
        lemma_found_iff_some_fails(timeline(events@), start, end, found);
    }
    search_report(&found, start, end)
}

/// The lines that break a count of failing seeds down by invariant.
pub open spec fn breakdown_lines(entries: Seq<(&'static str, u64)>) -> Seq<Seq<char>> {
    entries.map_values(
        |e: (&'static str, u64)| "  "@ + e.0@ + ": "@ + decimal(e.1 as nat),
    )
}

/// Breaks a count of failing seeds down by invariant, in dictionary order.
pub fn breakdown(tally: &Tally) -> (res: Vec<String>)
    ensures
        texts(res@) == breakdown_lines(tally.listed()),
        in_order(tally.listed()),
        counts(tally.listed()) == tally@,
{
    let entries = tally.entries();
    let ghost all = breakdown_lines(entries@);
    let mut lines: Vec<String> = Vec::new();
    let mut i: usize = 0;
    assert(texts(lines@) =~= all.take(0));
    while i < entries.len()
        invariant
            i <= entries@.len(),
            all == breakdown_lines(entries@),
            texts(lines@) == all.take(i as int),
        decreases entries@.len() - i,
    {
        let ghost so_far = lines@;
        let mut text = String::from_str("  ");
        text.append(entries[i].0);
        text.append(": ");
        push_decimal(&mut text, entries[i].1 as u128);
        assert(text@ == all[i as int]);
        lines.push(text);
        assert(texts(lines@) =~= texts(so_far).push(text@));
        i = i + 1;
        assert(texts(lines@) =~= all.take(i as int));
    }
    assert(all.take(i as int) =~= all);
    lines
}

/// The report on a search over every seed. The line on the rate of failing
/// seeds stands between `total` and `breakdown`.
#[derive(Debug, PartialEq)]
pub struct ExhaustiveReport {
    /// How many seeds there are in the range.
    pub seeds: u64,
    pub total: String,
    pub breakdown: Vec<String>,
    pub first_failure: Vec<String>,
    pub status: i32,
}

/// The line on the first failing seed of a search over every seed. What that
/// seed breaks is left to a replay of it.
pub open spec fn first_failure_lines(found: Option<(u64, Seq<ViolationView>)>) -> Seq<Seq<char>> {
    match found {
        Some((seed, _)) => seq!["first failure: seed "@ + decimal(seed as nat)],
        None => Seq::empty(),
    }
}

/// Reports what a search over every seed has found.
pub fn exhaustive_report(stats: &SeedSearchStats) -> (res: ExhaustiveReport)
    ensures
        res.seeds == stats.total,
        res.total@ == "total: "@ + decimal(stats.total as nat),
        texts(res.breakdown@) == breakdown_lines(stats.by_invariant.listed()),
        in_order(stats.by_invariant.listed()),
        counts(stats.by_invariant.listed()) == stats.by_invariant@,
        texts(res.first_failure@) == first_failure_lines(finding(stats.first_failure)),
        res.status == if stats.first_failure is Some {
            2i32
        } else {
            0i32
        },
{
    let mut total = String::from_str("total: ");
    push_decimal(&mut total, stats.total as u128);
    let breakdown = self::breakdown(&stats.by_invariant);
    let mut first_failure: Vec<String> = Vec::new();
    let mut status: i32 = 0;
    if let Some((seed, _)) = &stats.first_failure {
        let mut text = String::from_str("first failure: seed ");
        push_decimal(&mut text, *seed as u128);
        first_failure.push(text);
        status = 2;
    }
    assert(texts(first_failure@) =~= first_failure_lines(finding(stats.first_failure)));
    ExhaustiveReport { seeds: stats.total, total, breakdown, first_failure, status }
}

/// The report on every seed of a range: their number, the failing ones broken
/// down by invariant in dictionary order, the first of them, and the status.
pub open spec fn reports_all(
    ev: Seq<TimelineEventView>,
    start: u64,
    end: u64,
    res: ExhaustiveReport,
) -> bool {
    &&& res.seeds == if start <= end {
        end - start
    } else {
        0
    }
    &&& res.total@ == "total: "@ + decimal(res.seeds as nat)
    &&& exists|entries: Seq<(&'static str, u64)>|
        {
            &&& in_order(entries)
            &&& tallies(ev, start, end as int, counts(entries))
            &&& texts(res.breakdown@) == #[trigger] breakdown_lines(entries)
        }
    &&& exists|found: Option<(u64, Vec<Violation>)>| #[trigger]
        first_failing(ev, start, end, found) && texts(res.first_failure@) == first_failure_lines(
            finding(found),
        )
    &&& res.status == search_status(ev, start, end)
}

/// Evaluates every seed of a range. Returns how many fail, and the report: the
/// search ends with status 2 exactly where some seed of the range fails.
pub fn fuzz_exhaustive(events: &[TimelineEvent], start: u64, end: u64) -> (res: (
    u64,
    ExhaustiveReport,
))
    ensures
        res.0 == failing_seeds(timeline(events@), start, end as int),
        reports_all(timeline(events@), start, end, res.1),
{
    let stats = seed_search_stats(events, start..end);
    let report = exhaustive_report(&stats);
    proof {
        lemma_found_iff_some_fails(timeline(events@), start, end, stats.first_failure);
    }
    (stats.failing, report)
}

/// What a search has to say, in the mode that it was asked for.
#[derive(Debug, PartialEq)]
pub enum Outcome {
    First(Report),
    /// The number of failing seeds comes with the report.
    All(u64, ExhaustiveReport),
}

/// Searches a timeline as asked: up to the first failing seed, or over every
/// seed of the range.
pub fn search(plan: &FuzzArgs, events: &[TimelineEvent]) -> (res: Outcome)
    ensures
        match res {
            Outcome::First(report) => !plan.exhaustive && reports_first(
                timeline(events@),
                plan.start,
                plan.end,
                report,
            ),
            Outcome::All(failing, report) => plan.exhaustive && failing == failing_seeds(
                timeline(events@),
                plan.start,
                plan.end as int,
            ) && reports_all(timeline(events@), plan.start, plan.end, report),
        },
{
    if plan.exhaustive {
        let (failing, report) = fuzz_exhaustive(events, plan.start, plan.end);
        Outcome::All(failing, report)
    } else {
        Outcome::First(fuzz(events, plan.start, plan.end))
    }
}

} // verus!
