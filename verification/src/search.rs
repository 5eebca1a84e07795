//! The search for seeds whose fault breaks an invariant.

use std::ops::Range;

use vstd::prelude::*;

use crate::event::{clone_timeline, timeline, TimelineEvent, TimelineEventView};
use crate::fault::{apply_timeline, faulted_timeline, from_seed, seeded_fault};
use crate::invariant_laws::{is_registered, law_violations_are_registered};
use crate::invariants::{check, reports, violations, Violation, ViolationView};
use crate::search_laws::{
    counts_breaking, failing_in, is_least_failing, law_failing_seeds_are_counted,
    law_search_finds_the_least, law_tally_counts_breaking_seeds,
};
use crate::tally::Tally;
use crate::text::same_text;

verus! {

/// The violations of a timeline under the fault that a seed selects for it.
pub open spec fn seed_violations(ev: Seq<TimelineEventView>, seed: u64) -> Seq<ViolationView> {
    violations(faulted_timeline(ev, seeded_fault(seed, ev.len() as usize)))
}

/// The fault that the seed selects breaks an invariant.
pub open spec fn fails(ev: Seq<TimelineEventView>, seed: u64) -> bool {
    seed_violations(ev, seed).len() > 0
}

/// Some violation in a list is one of the invariant of the given name.
pub open spec fn names(list: Seq<ViolationView>, name: Seq<char>) -> bool {
    exists|k: int| 0 <= k < list.len() && (#[trigger] list[k]).invariant == name
}

/// The fault that the seed selects breaks the invariant of the given name.
pub open spec fn breaks(ev: Seq<TimelineEventView>, seed: u64, name: Seq<char>) -> bool {
    names(seed_violations(ev, seed), name)
}

/// The violations of a copy of `events` under the fault that a seed selects.
pub fn evaluate_seed(events: &[TimelineEvent], seed: u64) -> (res: Vec<Violation>)
    ensures
        reports(res@) == seed_violations(timeline(events@), seed),
        reports(res@) == violations(
            faulted_timeline(timeline(events@), seeded_fault(seed, events@.len() as usize)),
        ),
{
    let fault = from_seed(seed, events.len());
    let faulted = apply_timeline(clone_timeline(events), &fault);
    check(&faulted)
}

/// What the search for the first failing seed in a range finds: the seed and
/// its violations, where every earlier seed leaves the timeline clean; or
/// nothing, where every seed does.
pub open spec fn first_failing(
    ev: Seq<TimelineEventView>,
    start: u64,
    end: u64,
    found: Option<(u64, Vec<Violation>)>,
) -> bool {
    match found {
        Some((seed, list)) => {
            &&& start <= seed < end
            &&& fails(ev, seed)
            &&& reports(list@) == seed_violations(ev, seed)
            &&& forall|s: u64| start <= s < seed ==> !fails(ev, s)
        },
        None => forall|s: u64| start <= s < end ==> !fails(ev, s),
    }
}

/// Evaluates the seeds of a range in order and stops at the first that fails.
pub fn seed_search(events: &[TimelineEvent], seeds: Range<u64>) -> (res: Option<
    (u64, Vec<Violation>),
>)
    ensures
        first_failing(timeline(events@), seeds.start, seeds.end, res),
        is_least_failing(timeline(events@), seeds.start, seeds.end, res),
{
    let mut seed: u64 = seeds.start;
    while seed < seeds.end
        invariant
            seeds.start <= seed,
            seed <= seeds.end || seed == seeds.start,
            forall|s: u64| seeds.start <= s < seed ==> !fails(timeline(events@), s),
        decreases seeds.end - seed,
    {
        let found = evaluate_seed(events, seed);
        assert(reports(found@).len() == found@.len());
        if !found.is_empty() {
            proof {
                law_search_finds_the_least(
                    timeline(events@),
                    seeds.start,
                    seeds.end,
                    Some((seed, found)),
                );
            }
            return Some((seed, found));
        }
        seed = seed + 1;
    }
    proof {
        law_search_finds_the_least(timeline(events@), seeds.start, seeds.end, None);
    }
    None
}

/// How many seeds from `start` up to `end` meet `p`.
pub open spec fn count_seeds(start: int, end: int, p: spec_fn(u64) -> bool) -> nat
    decreases end - start,
{
    if end <= start {
        0
    } else {
        count_seeds(start, end - 1, p) + if p((end - 1) as u64) {
            1nat
        } else {
            0nat
        }
    }
}

pub open spec fn failing_seed(ev: Seq<TimelineEventView>) -> spec_fn(u64) -> bool {
    |s: u64| fails(ev, s)
}

pub open spec fn breaking_seed(ev: Seq<TimelineEventView>, name: Seq<char>) -> spec_fn(
    u64,
) -> bool {
    |s: u64| breaks(ev, s, name)
}

/// The number of failing seeds in a range.
pub open spec fn failing_seeds(ev: Seq<TimelineEventView>, start: u64, end: int) -> nat {
    count_seeds(start as int, end, failing_seed(ev))
}

/// The number of seeds in a range that break an invariant.
pub open spec fn breaking_seeds(
    ev: Seq<TimelineEventView>,
    start: u64,
    end: int,
    name: Seq<char>,
) -> nat {
    count_seeds(start as int, end, breaking_seed(ev, name))
}

/// A tally gives each invariant the number of seeds in a range that break it,
/// and has no entry for one that none breaks.
pub open spec fn tallies(
    ev: Seq<TimelineEventView>,
    start: u64,
    end: int,
    tally: Map<Seq<char>, nat>,
) -> bool {
    forall|name: Seq<char>| #![trigger tally.contains_key(name)] {
        &&& tally.contains_key(name) <==> breaking_seeds(ev, start, end, name) > 0
        &&& tally.contains_key(name) ==> tally[name] == breaking_seeds(ev, start, end, name)
    }
}

/// How many seeds of a range fail, out of how many.
#[derive(Debug, Clone, PartialEq)]
pub struct SeedSearchStats {
    pub total: u64,
    pub failing: u64,
    pub first_failure: Option<(u64, Vec<Violation>)>,
    /// The failing seeds for each invariant. A seed that breaks several
    /// invariants counts once toward each.
    pub by_invariant: Tally,
}

/// Whether `list[..n]` holds a violation of the invariant of the given name.
fn named_before(list: &Vec<Violation>, n: usize, name: &str) -> (res: bool)
    requires
        n <= list@.len(),
    ensures
        res == names(reports(list@).take(n as int), name@),
{
    let ghost all = reports(list@);
    let mut k: usize = 0;
    while k < n
        invariant
            k <= n <= list@.len(),
            all == reports(list@),
            forall|l: int| 0 <= l < k ==> (#[trigger] all[l]).invariant != name@,
        decreases n - k,
    {
        assert(all[k as int] == list@[k as int]@);
        if same_text(list[k].invariant, name) {
            assert(all.take(n as int)[k as int].invariant == name@);
            return true;
        }
        k = k + 1;
    }
    assert forall|l: int| 0 <= l < n implies (#[trigger] all.take(n as int)[l]).invariant
        != name@ by {
        assert(all[l].invariant != name@);
    }
    false
}

/// A tally with one more for each name that a list of violations holds.
pub open spec fn counted(tally: Map<Seq<char>, nat>, list: Seq<ViolationView>) -> Map<
    Seq<char>,
    nat,
> {
    Map::new(
        |name: Seq<char>| tally.contains_key(name) || names(list, name),
        |name: Seq<char>|
            (if tally.contains_key(name) {
                tally[name]
            } else {
                0
            }) + (if names(list, name) {
                1nat
            } else {
                0nat
            }),
    )
}

/// Counts each name that a list of violations holds once.
fn count_names(tally: &mut Tally, list: &Vec<Violation>)
    requires
        forall|name: Seq<char>| #[trigger]
            old(tally)@.contains_key(name) ==> old(tally)@[name] < u64::MAX,
    ensures
        final(tally)@ == counted(old(tally)@, reports(list@)),
{
    let ghost start = tally@;
    let ghost all = reports(list@);
    let mut i: usize = 0;
    assert(tally@ =~= counted(start, all.take(0)));
    while i < list.len()
        invariant
            i <= list@.len(),
            all == reports(list@),
            forall|name: Seq<char>| #[trigger] start.contains_key(name) ==> start[name] < u64::MAX,
            tally@ == counted(start, all.take(i as int)),
        decreases list@.len() - i,
    {
        let ghost before = tally@;
        let name: &'static str = list[i].invariant;
        assert(all[i as int].invariant == name@);
        let seen = named_before(list, i, name);
        proof {
            lemma_names_step(all, i as int);
        }
        if !seen {
            tally.count(name);
        }
        i = i + 1;
        assert(tally@ =~= counted(start, all.take(i as int)));
    }
    assert(all.take(i as int) =~= all);
}

proof fn lemma_names_step(all: Seq<ViolationView>, i: int)
    requires
        0 <= i < all.len(),
    ensures
        forall|name: Seq<char>| #[trigger]
            names(all.take(i + 1), name) <==> names(all.take(i), name) || name
                == all[i].invariant,
{
    assert forall|name: Seq<char>| #[trigger]
        names(all.take(i + 1), name) <==> names(all.take(i), name) || name
            == all[i].invariant by {
        let longer = all.take(i + 1);
        let shorter = all.take(i);
        if names(longer, name) {
            let k = choose|k: int|
                0 <= k < longer.len() && (#[trigger] longer[k]).invariant == name;
            if k < i {
                assert(shorter[k].invariant == name);
            }
        }
        if names(shorter, name) {
            let k = choose|k: int|
                0 <= k < shorter.len() && (#[trigger] shorter[k]).invariant == name;
            assert(longer[k].invariant == name);
        }
        if name == all[i].invariant {
            assert(longer[i].invariant == name);
        }
    }
}

proof fn lemma_count_seeds_bound(start: int, end: int, p: spec_fn(u64) -> bool)
    ensures
        count_seeds(start, end, p) <= if end <= start {
            0
        } else {
            end - start
        },
    decreases end - start,
{
    if start < end {
        lemma_count_seeds_bound(start, end - 1, p);
    }
}

proof fn lemma_failing_step(ev: Seq<TimelineEventView>, start: u64, seed: u64)
    requires
        start <= seed,
    ensures
        failing_seeds(ev, start, seed + 1) == failing_seeds(ev, start, seed as int) + if fails(
            ev,
            seed,
        ) {
            1nat
        } else {
            0nat
        },
        failing_seeds(ev, start, seed as int) <= seed - start,
{
    lemma_count_seeds_bound(start as int, seed as int, failing_seed(ev));
    assert(failing_seed(ev)(seed) == fails(ev, seed));
}

proof fn lemma_breaking_step(
    ev: Seq<TimelineEventView>,
    start: u64,
    seed: u64,
    name: Seq<char>,
)
    requires
        start <= seed,
    ensures
        breaking_seeds(ev, start, seed + 1, name) == breaking_seeds(ev, start, seed as int, name)
            + if breaks(ev, seed, name) {
            1nat
        } else {
            0nat
        },
        breaking_seeds(ev, start, seed as int, name) <= seed - start,
{
    lemma_count_seeds_bound(start as int, seed as int, breaking_seed(ev, name));
    assert(breaking_seed(ev, name)(seed) == breaks(ev, seed, name));
}

/// Where a tally has the counts `before` and each name in a list is counted
/// once more, it has the counts `after`.
proof fn lemma_counted(
    tally: Map<Seq<char>, nat>,
    list: Seq<ViolationView>,
    before: spec_fn(Seq<char>) -> nat,
    after: spec_fn(Seq<char>) -> nat,
)
    requires
        forall|name: Seq<char>| #[trigger] tally.contains_key(name) <==> before(name) > 0,
        forall|name: Seq<char>| #[trigger]
            tally.contains_key(name) ==> tally[name] == before(name),
        forall|name: Seq<char>| #[trigger]
            after(name) == before(name) + if names(list, name) {
                1nat
            } else {
                0nat
            },
    ensures
        forall|name: Seq<char>| #[trigger]
            counted(tally, list).contains_key(name) <==> after(name) > 0,
        forall|name: Seq<char>| #[trigger]
            counted(tally, list).contains_key(name) ==> counted(tally, list)[name] == after(name),
{
    assert forall|name: Seq<char>| #[trigger]
        counted(tally, list).contains_key(name) <==> after(name) > 0 by {
        assert(tally.contains_key(name) <==> before(name) > 0);
    }
    assert forall|name: Seq<char>| #[trigger]
        counted(tally, list).contains_key(name) implies counted(tally, list)[name] == after(
        name,
    ) by {
        assert(tally.contains_key(name) <==> before(name) > 0);
        assert(after(name) > 0);
    }
}

proof fn lemma_tallies_step(
    ev: Seq<TimelineEventView>,
    start: u64,
    seed: u64,
    tally: Map<Seq<char>, nat>,
    list: Seq<ViolationView>,
)
    requires
        start <= seed,
        tallies(ev, start, seed as int, tally),
        list == seed_violations(ev, seed),
    ensures
        tallies(ev, start, seed + 1, counted(tally, list)),
        forall|name: Seq<char>| #[trigger]
            tally.contains_key(name) ==> tally[name] <= seed - start,
{
    let before = |name: Seq<char>| breaking_seeds(ev, start, seed as int, name);
    let after = |name: Seq<char>| breaking_seeds(ev, start, seed + 1, name);
    assert forall|name: Seq<char>| #[trigger] tally.contains_key(name) implies tally[name] <= seed
        - start by {
        lemma_breaking_step(ev, start, seed, name);
    }
    assert forall|name: Seq<char>| #[trigger] after(name) == before(name) + if names(list, name) {
        1nat
    } else {
        0nat
    } by {
        lemma_breaking_step(ev, start, seed, name);
    }
    lemma_counted(tally, list, before, after);
    let result = counted(tally, list);
    assert forall|name: Seq<char>| #![trigger result.contains_key(name)]
        ({
            &&& result.contains_key(name) <==> breaking_seeds(ev, start, seed + 1, name) > 0
            &&& result.contains_key(name) ==> result[name] == breaking_seeds(
                ev,
                start,
                seed + 1,
                name,
            )
        }) by {
        assert(after(name) == breaking_seeds(ev, start, seed + 1, name));
    }
}

/// Evaluates the next seed of a range and counts each invariant that it breaks.
fn tally_seed(events: &[TimelineEvent], start: u64, seed: u64, by_invariant: &mut Tally) -> (res:
    Vec<Violation>)
    requires
        start <= seed < u64::MAX,
        tallies(timeline(events@), start, seed as int, old(by_invariant)@),
    ensures
        reports(res@) == seed_violations(timeline(events@), seed),
        tallies(timeline(events@), start, seed + 1, final(by_invariant)@),
{
    let found = evaluate_seed(events, seed);
    proof {
        lemma_tallies_step(timeline(events@), start, seed, by_invariant@, reports(found@));
    }
    count_names(by_invariant, &found);
    found
}

proof fn lemma_stats(
    ev: Seq<TimelineEventView>,
    start: u64,
    end: u64,
    seed: u64,
    first_failure: Option<(u64, Vec<Violation>)>,
    tally: Map<Seq<char>, nat>,
)
    requires
        seed == end || (seed == start && end <= start),
        first_failing(ev, start, seed, first_failure),
        tallies(ev, start, seed as int, tally),
    ensures
        failing_seeds(ev, start, seed as int) == failing_seeds(ev, start, end as int),
        failing_seeds(ev, start, end as int) == failing_in(ev, start as int, end as int).len(),
        first_failing(ev, start, end, first_failure),
        is_least_failing(ev, start, end, first_failure),
        tallies(ev, start, end as int, tally),
        counts_breaking(ev, start as int, end as int, tally),
{
    if seed != end {
        assert forall|name: Seq<char>| #[trigger]
            breaking_seeds(ev, start, seed as int, name) == breaking_seeds(
                ev,
                start,
                end as int,
                name,
            ) by {}
        assert(tallies(ev, start, end as int, tally)) by {
            assert forall|name: Seq<char>| #![trigger tally.contains_key(name)]
                ({
                    &&& tally.contains_key(name) <==> breaking_seeds(ev, start, end as int, name)
                        > 0
                    &&& tally.contains_key(name) ==> tally[name] == breaking_seeds(
                        ev,
                        start,
                        end as int,
                        name,
                    )
                }) by {
                assert(breaking_seeds(ev, start, seed as int, name) == breaking_seeds(
                    ev,
                    start,
                    end as int,
                    name,
                ));
            }
        }
    }
    law_failing_seeds_are_counted(ev, start, end);
    law_search_finds_the_least(ev, start, end, first_failure);
    law_tally_counts_breaking_seeds(ev, start, end, tally);
}

/// Evaluates every seed of a range.
pub fn seed_search_stats(events: &[TimelineEvent], seeds: Range<u64>) -> (res: SeedSearchStats)
    ensures
        res.total == if seeds.start <= seeds.end {
            seeds.end - seeds.start
        } else {
            0
        },
        res.failing == failing_seeds(timeline(events@), seeds.start, seeds.end as int),
        first_failing(timeline(events@), seeds.start, seeds.end, res.first_failure),
        tallies(timeline(events@), seeds.start, seeds.end as int, res.by_invariant@),
        res.failing == failing_in(
            timeline(events@),
            seeds.start as int,
            seeds.end as int,
        ).len(),
        is_least_failing(timeline(events@), seeds.start, seeds.end, res.first_failure),
        counts_breaking(
            timeline(events@),
            seeds.start as int,
            seeds.end as int,
            res.by_invariant@,
        ),
{
    let ghost ev = timeline(events@);
    let total: u64 = seeds.end.saturating_sub(seeds.start);
    let mut failing: u64 = 0;
    let mut first_failure: Option<(u64, Vec<Violation>)> = None;
    let mut by_invariant = Tally::new();
    let mut seed: u64 = seeds.start;
    while seed < seeds.end
        invariant
            ev == timeline(events@),
            seeds.start <= seed,
            seed <= seeds.end || seed == seeds.start,
            failing == failing_seeds(ev, seeds.start, seed as int),
            first_failing(ev, seeds.start, seed, first_failure),
            tallies(ev, seeds.start, seed as int, by_invariant@),
        decreases seeds.end - seed,
    {
        let found = tally_seed(events, seeds.start, seed, &mut by_invariant);
        proof {
            assert(reports(found@).len() == found@.len());
            lemma_failing_step(ev, seeds.start, seed);
        }
        if !found.is_empty() {
            failing = failing + 1;
            if first_failure.is_none() {
                first_failure = Some((seed, found));
            }
        }
        seed = seed + 1;
    }
    proof {
        lemma_stats(ev, seeds.start, seeds.end, seed, first_failure, by_invariant@);
    }
    SeedSearchStats { total, failing, first_failure, by_invariant }
}

proof fn lemma_count_seeds_zero(start: int, end: int, p: spec_fn(u64) -> bool)
    requires
        0 <= start,
        end <= u64::MAX,
    ensures
        count_seeds(start, end, p) == 0 <==> forall|s: u64| start <= s < end ==> !#[trigger] p(s),
    decreases end - start,
{
    if start < end {
        lemma_count_seeds_zero(start, end - 1, p);
        let last = (end - 1) as u64;
        if count_seeds(start, end, p) == 0 {
            assert forall|s: u64| start <= s < end implies !#[trigger] p(s) by {
                if s < last {
                    assert(!p(s));
                }
            }
        }
    }
}

/// The two searches agree on what a failure is: the first failing seed is
/// found exactly where some seed is counted as failing.
pub proof fn law_first_failure_iff_failing(
    ev: Seq<TimelineEventView>,
    start: u64,
    end: u64,
    found: Option<(u64, Vec<Violation>)>,
)
    requires
        first_failing(ev, start, end, found),
    ensures
        found is Some <==> failing_seeds(ev, start, end as int) > 0,
{
    lemma_count_seeds_zero(start as int, end as int, failing_seed(ev));
    match found {
        Some((seed, _)) => {
            assert(failing_seed(ev)(seed));
        },
        None => {
            assert forall|s: u64| start <= s < end implies !#[trigger] failing_seed(ev)(s) by {
                assert(!fails(ev, s));
            }
        },
    }
}

/// A search finds one seed and one list of violations: two outcomes that both
/// answer the same search are the same.
pub proof fn law_search_is_deterministic(
    ev: Seq<TimelineEventView>,
    start: u64,
    end: u64,
    a: Option<(u64, Vec<Violation>)>,
    b: Option<(u64, Vec<Violation>)>,
)
    requires
        first_failing(ev, start, end, a),
        first_failing(ev, start, end, b),
    ensures
        match (a, b) {
            (Some((s, found)), Some((t, also_found))) => s == t && reports(found@) == reports(
                also_found@,
            ),
            (None, None) => true,
            _ => false,
        },
{
    if let Some((s, _)) = a {
        assert(fails(ev, s));
    }
    if let Some((s, _)) = b {
        assert(fails(ev, s));
    }
}

/// No more seeds fail than there are in the range.
pub proof fn law_failing_at_most_total(ev: Seq<TimelineEventView>, start: u64, end: u64)
    ensures
        failing_seeds(ev, start, end as int) <= if start <= end {
            end - start
        } else {
            0
        },
{
    lemma_count_seeds_bound(start as int, end as int, failing_seed(ev));
}

proof fn lemma_count_seeds_covered(
    start: int,
    end: int,
    p: spec_fn(u64) -> bool,
    q: spec_fn(u64) -> bool,
)
    requires
        0 <= start,
        end <= u64::MAX,
        forall|s: u64| start <= s < end && #[trigger] p(s) ==> q(s),
    ensures
        count_seeds(start, end, p) <= count_seeds(start, end, q),
    decreases end - start,
{
    if start < end {
        lemma_count_seeds_covered(start, end - 1, p, q);
        let last = (end - 1) as u64;
        assert(p(last) ==> q(last));
    }
}

/// A seed counts at most once toward an invariant, and only if it fails.
pub proof fn law_breaking_at_most_failing(
    ev: Seq<TimelineEventView>,
    start: u64,
    end: u64,
    name: Seq<char>,
)
    ensures
        breaking_seeds(ev, start, end as int, name) <= failing_seeds(ev, start, end as int),
{
    assert forall|s: u64| start <= s < end && #[trigger] breaking_seed(ev, name)(
        s,
    ) implies failing_seed(ev)(s) by {
        let list = seed_violations(ev, s);
        let k = choose|k: int| 0 <= k < list.len() && (#[trigger] list[k]).invariant == name;
        assert(list.len() > 0);
    }
    lemma_count_seeds_covered(
        start as int,
        end as int,
        breaking_seed(ev, name),
        failing_seed(ev),
    );
}

/// The seeds of a range that break each invariant, added up.
pub open spec fn attributed_seeds(ev: Seq<TimelineEventView>, start: u64, end: int) -> nat {
    breaking_seeds(ev, start, end, "task_exited_requires_prior_task_started"@) + breaking_seeds(
        ev,
        start,
        end,
        "job_exited_is_last"@,
    ) + breaking_seeds(ev, start, end, "task_started_requires_prior_node_allocated"@)
        + breaking_seeds(ev, start, end, "connect_precedes_activity"@) + breaking_seeds(
        ev,
        start,
        end,
        "recv_precedes_task_exited"@,
    )
}

/// Each failing seed is attributed to at least one invariant.
pub proof fn law_failing_seeds_are_attributed(ev: Seq<TimelineEventView>, start: u64, end: int)
    requires
        end <= u64::MAX,
    ensures
        failing_seeds(ev, start, end) <= attributed_seeds(ev, start, end),
        forall|s: u64| #[trigger]
            fails(ev, s) ==> exists|name: Seq<char>|
                is_registered(name) && #[trigger] breaks(ev, s, name),
    decreases end - start,
{
    assert forall|s: u64| #[trigger] fails(ev, s) implies exists|name: Seq<char>|
        is_registered(name) && #[trigger] breaks(ev, s, name) by {
        lemma_failing_seed_breaks(ev, s);
    }
    if start < end {
        law_failing_seeds_are_attributed(ev, start, end - 1);
        let last = (end - 1) as u64;
        if fails(ev, last) {
            lemma_failing_seed_breaks(ev, last);
            let name = choose|name: Seq<char>|
                is_registered(name) && #[trigger] breaks(ev, last, name);
            assert(breaking_seed(ev, name)(last));
        }
    }
}

proof fn lemma_failing_seed_breaks(ev: Seq<TimelineEventView>, seed: u64)
    requires
        fails(ev, seed),
    ensures
        exists|name: Seq<char>| is_registered(name) && #[trigger] breaks(ev, seed, name),
{
    let after = faulted_timeline(ev, seeded_fault(seed, ev.len() as usize));
    law_violations_are_registered(after);
    let name = violations(after)[0].invariant;
    assert(is_registered(name));
    assert(seed_violations(ev, seed)[0].invariant == name);
    assert(breaks(ev, seed, name));
}

/// A tally of a range has entries for registered invariants only.
pub proof fn law_tally_names_are_registered(
    ev: Seq<TimelineEventView>,
    start: u64,
    end: u64,
    tally: Map<Seq<char>, nat>,
    name: Seq<char>,
)
    requires
        tallies(ev, start, end as int, tally),
        tally.contains_key(name),
    ensures
        is_registered(name),
{
    lemma_count_seeds_zero(start as int, end as int, breaking_seed(ev, name));
    let s = choose|s: u64| start <= s < end && #[trigger] breaking_seed(ev, name)(s);
    let after = faulted_timeline(ev, seeded_fault(s, ev.len() as usize));
    law_violations_are_registered(after);
    let list = seed_violations(ev, s);
    let k = choose|k: int| 0 <= k < list.len() && (#[trigger] list[k]).invariant == name;
    assert(is_registered(violations(after)[k].invariant));
}

} // verus!
