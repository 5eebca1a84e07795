//! What the searches find, over the seeds themselves.

use vstd::prelude::*;
use vstd::set_lib::set_int_range;

use crate::event::TimelineEventView;
use crate::fault::{faulted_timeline, seeded_fault};
use crate::invariants::{reports, violations, Violation};
use crate::search::{
    breaking_seed, breaking_seeds, breaks, count_seeds, failing_seed, failing_seeds, fails,
    first_failing, names, seed_violations, tallies,
};

verus! {

/// The fault that a seed selects for a timeline breaks an invariant: the
/// faulted timeline has a violation.
pub open spec fn is_failing(ev: Seq<TimelineEventView>, seed: int) -> bool {
    violations(faulted_timeline(ev, seeded_fault(seed as u64, ev.len() as usize))).len() > 0
}

/// The fault that a seed selects for a timeline breaks the invariant of the
/// given name.
pub open spec fn is_breaking(ev: Seq<TimelineEventView>, seed: int, name: Seq<char>) -> bool {
    exists|k: int|
        #![trigger violations(
            faulted_timeline(ev, seeded_fault(seed as u64, ev.len() as usize)),
        )[k]]
        {
            let list = violations(
                faulted_timeline(ev, seeded_fault(seed as u64, ev.len() as usize)),
            );
            0 <= k < list.len() && list[k].invariant == name
        }
}

/// The failing seeds of a range.
pub open spec fn failing_in(ev: Seq<TimelineEventView>, start: int, end: int) -> Set<int> {
    set_int_range(start, end).filter(|s: int| is_failing(ev, s))
}

/// The seeds of a range that break the invariant of the given name.
pub open spec fn breaking_in(
    ev: Seq<TimelineEventView>,
    start: int,
    end: int,
    name: Seq<char>,
) -> Set<int> {
    set_int_range(start, end).filter(|s: int| is_breaking(ev, s, name))
}

/// A search finds the least failing seed of a range, with the violations of the
/// timeline under its fault; it finds nothing where no seed fails.
pub open spec fn is_least_failing(
    ev: Seq<TimelineEventView>,
    start: u64,
    end: u64,
    found: Option<(u64, Vec<Violation>)>,
) -> bool {
    match found {
        Some((seed, list)) => {
            &&& start <= seed < end
            &&& reports(list@) == violations(
                faulted_timeline(ev, seeded_fault(seed, ev.len() as usize)),
            )
            &&& list@.len() > 0
            &&& forall|s: int| start <= s < seed ==> !#[trigger] is_failing(ev, s)
        },
        None => forall|s: int| start <= s < end ==> !#[trigger] is_failing(ev, s),
    }
}

/// What a search finds is the least failing seed of the range.
pub proof fn law_search_finds_the_least(
    ev: Seq<TimelineEventView>,
    start: u64,
    end: u64,
    found: Option<(u64, Vec<Violation>)>,
)
    ensures
        first_failing(ev, start, end, found) <==> is_least_failing(ev, start, end, found),
{
    assert forall|s: int| 0 <= s <= u64::MAX implies #[trigger] is_failing(ev, s) == fails(
        ev,
        s as u64,
    ) by {}
    if first_failing(ev, start, end, found) {
        match found {
            Some((seed, list)) => {
                assert(reports(list@).len() == list@.len());
                assert forall|s: int| start <= s < seed implies !#[trigger] is_failing(ev, s) by {
                    assert(!fails(ev, s as u64));
                }
            },
            None => {
                assert forall|s: int| start <= s < end implies !#[trigger] is_failing(ev, s) by {
                    assert(!fails(ev, s as u64));
                }
            },
        }
    }
    if is_least_failing(ev, start, end, found) {
        match found {
            Some((seed, list)) => {
                assert(reports(list@).len() == list@.len());
                assert forall|s: u64| start <= s < seed implies !fails(ev, s) by {
                    assert(!is_failing(ev, s as int));
                }
            },
            None => {
                assert forall|s: u64| start <= s < end implies !fails(ev, s) by {
                    assert(!is_failing(ev, s as int));
                }
            },
        }
    }
}

proof fn lemma_count_is_cardinality(
    start: int,
    end: int,
    p: spec_fn(u64) -> bool,
    q: spec_fn(int) -> bool,
)
    requires
        0 <= start,
        end <= u64::MAX,
        forall|s: int| start <= s < end ==> #[trigger] q(s) == p(s as u64),
    ensures
        count_seeds(start, end, p) == set_int_range(start, end).filter(q).len(),
        set_int_range(start, end).filter(q).finite(),
    decreases end - start,
{
    if end <= start {
        assert(set_int_range(start, end).filter(q) =~= Set::empty());
    } else {
        let last = end - 1;
        lemma_count_is_cardinality(start, last, p, q);
        let before = set_int_range(start, last).filter(q);
        let after = set_int_range(start, end).filter(q);
        assert(q(last) == p(last as u64));
        if q(last) {
            assert(after =~= before.insert(last));
            assert(!before.contains(last));
        } else {
            assert(after =~= before);
        }
    }
}

/// The count of failing seeds is the number of seeds in the range whose fault
/// leaves a violation.
pub proof fn law_failing_seeds_are_counted(ev: Seq<TimelineEventView>, start: u64, end: u64)
    ensures
        failing_seeds(ev, start, end as int) == failing_in(ev, start as int, end as int).len(),
        failing_in(ev, start as int, end as int).finite(),
{
    let p = failing_seed(ev);
    let q = |s: int| is_failing(ev, s);
    assert forall|s: int| start <= s < end implies #[trigger] q(s) == p(s as u64) by {}
    lemma_count_is_cardinality(start as int, end as int, p, q);
}

proof fn lemma_is_breaking(ev: Seq<TimelineEventView>, seed: int, name: Seq<char>)
    requires
        0 <= seed <= u64::MAX,
    ensures
        is_breaking(ev, seed, name) == breaks(ev, seed as u64, name),
{
    let list = violations(faulted_timeline(ev, seeded_fault(seed as u64, ev.len() as usize)));
    assert(list == seed_violations(ev, seed as u64));
    if is_breaking(ev, seed, name) {
        let k = choose|k: int|
            #![trigger violations(
                faulted_timeline(ev, seeded_fault(seed as u64, ev.len() as usize)),
            )[k]]
            0 <= k < list.len() && list[k].invariant == name;
        assert(list[k].invariant == name);
        assert(names(list, name));
    }
    if names(list, name) {
        let k = choose|k: int| 0 <= k < list.len() && (#[trigger] list[k]).invariant == name;
        assert(violations(
            faulted_timeline(ev, seeded_fault(seed as u64, ev.len() as usize)),
        )[k].invariant == name);
    }
}

/// The count of seeds that break an invariant is the number of seeds in the
/// range whose fault leaves a violation of that name.
pub proof fn law_breaking_seeds_are_counted(
    ev: Seq<TimelineEventView>,
    start: u64,
    end: u64,
    name: Seq<char>,
)
    ensures
        breaking_seeds(ev, start, end as int, name) == breaking_in(
            ev,
            start as int,
            end as int,
            name,
        ).len(),
        breaking_in(ev, start as int, end as int, name).finite(),
{
    let p = breaking_seed(ev, name);
    let q = |s: int| is_breaking(ev, s, name);
    assert forall|s: int| start <= s < end implies #[trigger] q(s) == p(s as u64) by {
        lemma_is_breaking(ev, s, name);
    }
    lemma_count_is_cardinality(start as int, end as int, p, q);
}

/// A tally gives each invariant the number of seeds of a range that break it,
/// and has an entry for those that some seed breaks.
pub open spec fn counts_breaking(
    ev: Seq<TimelineEventView>,
    start: int,
    end: int,
    tally: Map<Seq<char>, nat>,
) -> bool {
    forall|name: Seq<char>|
        #![trigger tally.contains_key(name)]
        {
            &&& tally.contains_key(name) <==> exists|s: int|
                start <= s < end && #[trigger] is_breaking(ev, s, name)
            &&& tally.contains_key(name) ==> tally[name] == breaking_in(ev, start, end, name).len()
        }
}

/// A tally of a range counts, for each invariant, the seeds that break it.
pub proof fn law_tally_counts_breaking_seeds(
    ev: Seq<TimelineEventView>,
    start: u64,
    end: u64,
    tally: Map<Seq<char>, nat>,
)
    requires
        tallies(ev, start, end as int, tally),
    ensures
        counts_breaking(ev, start as int, end as int, tally),
{
    assert forall|name: Seq<char>| #![trigger tally.contains_key(name)]
        ({
            &&& tally.contains_key(name) <==> exists|s: int|
                start <= s < end && #[trigger] is_breaking(ev, s, name)
            &&& tally.contains_key(name) ==> tally[name] == breaking_in(
                ev,
                start as int,
                end as int,
                name,
            ).len()
        }) by {
        law_breaking_seeds_are_counted(ev, start, end, name);
        let set = breaking_in(ev, start as int, end as int, name);
        if set.len() > 0 {
            let s = set.choose();
            assert(set.contains(s));
            assert(is_breaking(ev, s, name));
        }
        if exists|s: int| start <= s < end && #[trigger] is_breaking(ev, s, name) {
            let s = choose|s: int| start <= s < end && #[trigger] is_breaking(ev, s, name);
            assert(set.contains(s));
            assert(set.len() > 0) by {
                if set.len() == 0 {
                    assert(set =~= Set::empty());
                }
            }
        }
    }
}

} // verus!
