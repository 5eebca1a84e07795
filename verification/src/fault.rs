//! Faults: what they are, how a seed selects one, and what one does to a
//! stream.

use vstd::prelude::*;

use crate::event::{
    timeline, JobEventKind, JobEventKindView, JobEventView, TimelineEvent, TimelineEventView,
};
use crate::rng::{draw_i32, draw_usize, rng_draw_i32, rng_draw_usize, rng_seeded, seeded_rng};

verus! {

/// Clearly synthetic node names that `CorruptNode` draws from: never a real
/// allocation, so that a corrupted value cannot collide with one.
pub const CORRUPT_NODE_POOL: [&'static str; 3] = [
    "seed-corrupted-node-a",
    "seed-corrupted-node-b",
    "seed-corrupted-node-c",
];

/// A single injectable fault.
#[derive(Debug)]
pub enum Fault {
    /// Remove the event at this position. Nothing happens where there is none.
    DropEvent { index: usize },
    /// Swap the events at these two positions. Nothing happens unless there
    /// are two.
    ReorderEvents { i: usize, j: usize },
    /// Overwrite the `node` field of the event at this position. Only a
    /// timeline has such a field, so only `apply_timeline` does this.
    CorruptNode { index: usize, node: String },
}

/// The model of a `Fault`.
#[verifier::ext_equal]
pub enum FaultView {
    DropEvent { index: int },
    ReorderEvents { i: int, j: int },
    CorruptNode { index: int, node: Seq<char> },
}

impl View for Fault {
    type V = FaultView;

    open spec fn view(&self) -> FaultView {
        match *self {
            Fault::DropEvent { index } => FaultView::DropEvent { index: index as int },
            Fault::ReorderEvents { i, j } => FaultView::ReorderEvents { i: i as int, j: j as int },
            Fault::CorruptNode { index, node } => FaultView::CorruptNode {
                index: index as int,
                node: node@,
            },
        }
    }
}

impl Clone for Fault {
    fn clone(&self) -> (res: Self)
        ensures
            res@ == self@,
    {
        match self {
            Fault::DropEvent { index } => Fault::DropEvent { index: *index },
            Fault::ReorderEvents { i, j } => Fault::ReorderEvents { i: *i, j: *j },
            Fault::CorruptNode { index, node } => Fault::CorruptNode {
                index: *index,
                node: node.clone(),
            },
        }
    }
}

/// The name at position `k` of the pool of corrupted nodes.
pub open spec fn corrupt_node(k: int) -> Seq<char> {
    if k == 0 {
        "seed-corrupted-node-a"@
    } else if k == 1 {
        "seed-corrupted-node-b"@
    } else {
        "seed-corrupted-node-c"@
    }
}

/// The fault that draws select: `kind` says which, `first` is a position, and
/// `second` another position or that of a name in the pool.
pub open spec fn fault_of_draws(kind: i32, first: usize, second: usize) -> FaultView {
    if kind == 0 {
        FaultView::DropEvent { index: first as int }
    } else if kind == 1 {
        FaultView::ReorderEvents { i: first as int, j: second as int }
    } else {
        FaultView::CorruptNode { index: first as int, node: corrupt_node(second as int) }
    }
}

/// The fault that draws select. `second` plays no part where `kind` is zero.
pub fn fault_from_draws(kind: i32, first: usize, second: usize) -> (res: Fault)
    requires
        kind != 0 && kind != 1 ==> second < 3,
    ensures
        res@ == fault_of_draws(kind, first, second),
{
    if kind == 0 {
        Fault::DropEvent { index: first }
    } else if kind == 1 {
        Fault::ReorderEvents { i: first, j: second }
    } else {
        Fault::CorruptNode { index: first, node: CORRUPT_NODE_POOL[second].to_owned() }
    }
}

/// The fault that a seed selects for a stream of `len` events: a kind is drawn
/// first, then a position, then what the kind needs besides.
pub open spec fn seeded_fault(seed: u64, len: usize) -> FaultView {
    if len == 0 {
        FaultView::DropEvent { index: 0 }
    } else {
        let (kind, after_kind) = rng_draw_i32(rng_seeded(seed), 3);
        let (first, after_first) = rng_draw_usize(after_kind, len, usize::BITS);
        let (second, _) = rng_draw_usize(
            after_first,
            if kind == 1 {
                len
            } else {
                3
            },
            usize::BITS,
        );
        fault_of_draws(kind, first, second)
    }
}

/// A fault whose positions lie within a stream of `len` events, and whose
/// node, if it has one, comes from the pool.
pub open spec fn in_range(fault: FaultView, len: int) -> bool {
    match fault {
        FaultView::DropEvent { index } => 0 <= index < len,
        FaultView::ReorderEvents { i, j } => 0 <= i < len && 0 <= j < len,
        FaultView::CorruptNode { index, node } => 0 <= index < len && exists|k: int|
            0 <= k < 3 && node == #[trigger] corrupt_node(k),
    }
}

/// A text is the name at position `k` of the pool of corrupted nodes, which has
/// three.
pub open spec fn is_pool_name(text: Seq<char>, k: usize) -> bool {
    ||| k == 0 && text == "seed-corrupted-node-a"@
    ||| k == 1 && text == "seed-corrupted-node-b"@
    ||| k == 2 && text == "seed-corrupted-node-c"@
}

/// Selects a fault from a seed: the same seed and length always give the same
/// fault. Its positions lie within a stream of that length; an empty stream
/// has none, and gets a `DropEvent` that does nothing to it.
pub fn from_seed(seed: u64, len: usize) -> (res: Fault)
    ensures
        res@ == seeded_fault(seed, len),
        len > 0 ==> in_range(res@, len as int),
        len == 0 ==> (res matches Fault::DropEvent { index } && index == 0),
        len > 0 ==> ({
            let (kind, after_kind) = rng_draw_i32(rng_seeded(seed), 3);
            let (first, after_first) = rng_draw_usize(after_kind, len, usize::BITS);
            &&& 0 <= kind < 3
            &&& first < len
            &&& kind == 0 ==> (res matches Fault::DropEvent { index } && index == first)
            &&& kind == 1 ==> (res matches Fault::ReorderEvents { i, j } && i == first && j
                == rng_draw_usize(after_first, len, usize::BITS).0)
            &&& kind == 2 ==> (res matches Fault::CorruptNode { index, node } && index == first
                && is_pool_name(node@, rng_draw_usize(after_first, 3, usize::BITS).0))
        }),
{
    let mut rng = seeded_rng(seed);
    if len == 0 {
        return Fault::DropEvent { index: 0 };
    }
    let kind: i32 = draw_i32(&mut rng, 3);
    let first: usize = draw_usize(&mut rng, len);
    let second: usize = if kind == 0 {
        0
    } else if kind == 1 {
        draw_usize(&mut rng, len)
    } else {
        draw_usize(&mut rng, CORRUPT_NODE_POOL.len())
    };
    fault_from_draws(kind, first, second)
}

/// A sequence with the elements at two positions swapped.
pub open spec fn swapped<T>(s: Seq<T>, i: int, j: int) -> Seq<T> {
    s.update(i, s[j]).update(j, s[i])
}

fn swap_ascending<T>(events: &mut Vec<T>, low: usize, high: usize)
    requires
        low < high < old(events)@.len(),
    ensures
        final(events)@ == swapped(old(events)@, low as int, high as int),
{
    let later = events.remove(high);
    let earlier = events.remove(low);
    events.insert(low, later);
    events.insert(high, earlier);
    assert(events@ =~= swapped(old(events)@, low as int, high as int));
}

/// What a fault makes of a stream of any kind.
pub open spec fn faulted<T>(events: Seq<T>, fault: FaultView) -> Seq<T> {
    match fault {
        FaultView::DropEvent { index } => if 0 <= index < events.len() {
            events.remove(index)
        } else {
            events
        },
        FaultView::ReorderEvents { i, j } => if 0 <= i < events.len() && 0 <= j < events.len() {
            swapped(events, i, j)
        } else {
            events
        },
        FaultView::CorruptNode { .. } => events,
    }
}

/// An event with its `node` field overwritten, where it has one.
pub open spec fn with_node(e: TimelineEventView, new_node: Seq<char>) -> TimelineEventView {
    match e {
        TimelineEventView::Boundary(job_event) => TimelineEventView::Boundary(
            JobEventView {
                kind: match job_event.kind {
                    JobEventKindView::NodeAllocated { node, user, work_dir } =>
                    JobEventKindView::NodeAllocated { node: new_node, user, work_dir },
                    JobEventKindView::TaskStarted { step_id, task_id, node } =>
                    JobEventKindView::TaskStarted { step_id, task_id, node: new_node },
                    JobEventKindView::TaskExited { step_id, task_id, node } =>
                    JobEventKindView::TaskExited { step_id, task_id, node: new_node },
                    JobEventKindView::JobExited { .. } => job_event.kind,
                },
                ..job_event
            },
        ),
        _ => e,
    }
}

/// What a fault makes of a timeline.
pub open spec fn faulted_timeline(events: Seq<TimelineEventView>, fault: FaultView) -> Seq<
    TimelineEventView,
> {
    match fault {
        FaultView::CorruptNode { index, node } => if 0 <= index < events.len() {
            events.update(index, with_node(events[index], node))
        } else {
            events
        },
        _ => faulted(events, fault),
    }
}

/// Applies a fault to a stream of any kind. `CorruptNode` does nothing here.
pub fn apply<T>(events: Vec<T>, fault: &Fault) -> (res: Vec<T>)
    ensures
        res@ == faulted(events@, fault@),
        match *fault {
            Fault::DropEvent { index } => if index < events@.len() {
                res@ == events@.remove(index as int)
            } else {
                res@ == events@
            },
            Fault::ReorderEvents { i, j } => if i < events@.len() && j < events@.len() {
                &&& res@.len() == events@.len()
                &&& res@[i as int] == events@[j as int]
                &&& res@[j as int] == events@[i as int]
                &&& forall|k: int|
                    0 <= k < events@.len() && k != i && k != j ==> #[trigger] res@[k] == events@[k]
            } else {
                res@ == events@
            },
            Fault::CorruptNode { .. } => res@ == events@,
        },
{
    let ghost before = events@;
    let mut events = events;
    match fault {
        Fault::DropEvent { index } => {
            if *index < events.len() {
                let _dropped = events.remove(*index);
            }
        },
        Fault::ReorderEvents { i, j } => {
            if *i < events.len() && *j < events.len() {
                if *i < *j {
                    swap_ascending(&mut events, *i, *j);
                } else if *j < *i {
                    swap_ascending(&mut events, *j, *i);
                    assert(events@ =~= swapped(before, *i as int, *j as int));
                } else {
                    assert(events@ =~= swapped(before, *i as int, *j as int));
                }
            }
        },
        Fault::CorruptNode { .. } => {},
    }
    events
}

/// `now` is `was` with its node overwritten, where it has one: the allocation of
/// a node and the start and exit of a task do.
pub open spec fn is_corrupted(was: TimelineEvent, now: TimelineEvent, new_node: Seq<char>) -> bool {
    match (was, now) {
        (TimelineEvent::Boundary(a), TimelineEvent::Boundary(b)) => {
            &&& b.job_id == a.job_id
            &&& b.timestamp_ms == a.timestamp_ms
            &&& match (a.kind, b.kind) {
                (
                    JobEventKind::NodeAllocated { user, work_dir, .. },
                    JobEventKind::NodeAllocated { node: n, user: u, work_dir: w },
                ) => n@ == new_node && u == user && w == work_dir,
                (
                    JobEventKind::TaskStarted { step_id, task_id, .. },
                    JobEventKind::TaskStarted { step_id: s, task_id: t, node: n },
                ) => n@ == new_node && s == step_id && t == task_id,
                (
                    JobEventKind::TaskExited { step_id, task_id, .. },
                    JobEventKind::TaskExited { step_id: s, task_id: t, node: n },
                ) => n@ == new_node && s == step_id && t == task_id,
                (JobEventKind::JobExited { .. }, _) => b.kind == a.kind,
                _ => false,
            }
        },
        _ => now == was,
    }
}

/// Applies a fault to a timeline. `DropEvent` and `ReorderEvents` act as in
/// `apply`.
pub fn apply_timeline(events: Vec<TimelineEvent>, fault: &Fault) -> (res: Vec<TimelineEvent>)
    ensures
        timeline(res@) == faulted_timeline(timeline(events@), fault@),
        match *fault {
            Fault::DropEvent { index } => if index < events@.len() {
                res@ == events@.remove(index as int)
            } else {
                res@ == events@
            },
            Fault::ReorderEvents { i, j } => if i < events@.len() && j < events@.len() {
                &&& res@.len() == events@.len()
                &&& res@[i as int] == events@[j as int]
                &&& res@[j as int] == events@[i as int]
                &&& forall|k: int|
                    0 <= k < events@.len() && k != i && k != j ==> #[trigger] res@[k] == events@[k]
            } else {
                res@ == events@
            },
            Fault::CorruptNode { index, node } => {
                &&& res@.len() == events@.len()
                &&& forall|k: int|
                    0 <= k < events@.len() && k != index ==> #[trigger] res@[k] == events@[k]
                &&& index < events@.len() ==> is_corrupted(
                    events@[index as int],
                    res@[index as int],
                    node@,
                )
            },
        },
{
    match fault {
        Fault::CorruptNode { index, node } => {
            let ghost before = timeline(events@);
            let mut events = events;
            if *index < events.len() {
                match &mut events[*index] {
                    TimelineEvent::Boundary(job_event) => match &mut job_event.kind {
                        JobEventKind::NodeAllocated { node: n, .. } => {
                            *n = node.clone();
                        },
                        JobEventKind::TaskStarted { node: n, .. } => {
                            *n = node.clone();
                        },
                        JobEventKind::TaskExited { node: n, .. } => {
                            *n = node.clone();
                        },
                        JobEventKind::JobExited { .. } => {},
                    },
                    _ => {},
                }
            }
            assert(timeline(events@) =~= faulted_timeline(before, fault@));
            events
        },
        _ => {
            let ghost before = events@;
            let res = apply(events, fault);
            assert(timeline(res@) =~= faulted(timeline(before), fault@));
            res
        },
    }
}

/// Dropping an event never changes the relative order of what is left: the
/// earlier events keep their positions, and the later ones move up by one.
pub proof fn law_drop_keeps_order<T>(events: Seq<T>, index: int)
    requires
        0 <= index < events.len(),
    ensures
        faulted(events, FaultView::DropEvent { index }).len() == events.len() - 1,
        forall|k: int|
            0 <= k < index ==> #[trigger] faulted(events, FaultView::DropEvent { index })[k]
                == events[k],
        forall|k: int|
            index <= k < events.len() - 1 ==> #[trigger] faulted(
                events,
                FaultView::DropEvent { index },
            )[k] == events[k + 1],
{
}

/// Reordering keeps every event: only positions change.
pub proof fn law_reorder_keeps_events<T>(events: Seq<T>, i: int, j: int)
    ensures
        faulted(events, FaultView::ReorderEvents { i, j }).len() == events.len(),
        faulted(events, FaultView::ReorderEvents { i, j }).to_multiset() == events.to_multiset(),
{
    if 0 <= i < events.len() && 0 <= j < events.len() {
        lemma_swapped_multiset(events, i, j);
    }
}

proof fn lemma_swapped_multiset<T>(events: Seq<T>, i: int, j: int)
    requires
        0 <= i < events.len(),
        0 <= j < events.len(),
    ensures
        swapped(events, i, j).to_multiset() == events.to_multiset(),
{
    broadcast use vstd::seq_lib::group_to_multiset_ensures;

    if i == j {
        assert(swapped(events, i, j) =~= events);
    } else {
        let low = if i < j {
            i
        } else {
            j
        };
        let high = if i < j {
            j
        } else {
            i
        };
        let result = swapped(events, i, j);
        assert(result.remove(high).remove(low) =~= events.remove(high).remove(low));
        vstd::seq_lib::to_multiset_remove(result, high);
        vstd::seq_lib::to_multiset_remove(result.remove(high), low);
        vstd::seq_lib::to_multiset_remove(events, high);
        vstd::seq_lib::to_multiset_remove(events.remove(high), low);
        let rest = events.remove(high).remove(low).to_multiset();
        assert(events.contains(events[high]) && events.remove(high).contains(
            events.remove(high)[low],
        ));
        assert(result.contains(result[high]) && result.remove(high).contains(
            result.remove(high)[low],
        ));
        assert(events.to_multiset() =~= rest.insert(events[low]).insert(events[high]));
        assert(result.to_multiset() =~= rest.insert(events[high]).insert(events[low]));
        assert(events.to_multiset() =~= result.to_multiset());
    }
}

/// Reordering puts each of two events in the place of the other, and leaves all
/// others where they are.
pub proof fn law_reorder_swaps_two_places<T>(events: Seq<T>, i: int, j: int)
    requires
        0 <= i < events.len(),
        0 <= j < events.len(),
    ensures
        faulted(events, FaultView::ReorderEvents { i, j })[i] == events[j],
        faulted(events, FaultView::ReorderEvents { i, j })[j] == events[i],
        forall|k: int|
            0 <= k < events.len() && k != i && k != j ==> #[trigger] faulted(
                events,
                FaultView::ReorderEvents { i, j },
            )[k] == events[k],
{
}

/// Applying the same reorder twice gives back the stream.
pub proof fn law_reorder_undoes_itself<T>(events: Seq<T>, i: int, j: int)
    ensures
        faulted(
            faulted(events, FaultView::ReorderEvents { i, j }),
            FaultView::ReorderEvents { i, j },
        ) == events,
{
    assert(faulted(
        faulted(events, FaultView::ReorderEvents { i, j }),
        FaultView::ReorderEvents { i, j },
    ) =~= events);
}

/// A fault with a position outside the stream does nothing.
pub proof fn law_out_of_range_does_nothing(events: Seq<TimelineEventView>, fault: FaultView)
    requires
        match fault {
            FaultView::DropEvent { index } => !(0 <= index < events.len()),
            FaultView::ReorderEvents { i, j } => !(0 <= i < events.len()) || !(0 <= j
                < events.len()),
            FaultView::CorruptNode { index, .. } => !(0 <= index < events.len()),
        },
    ensures
        faulted(events, fault) == events,
        faulted_timeline(events, fault) == events,
{
}

/// A stream of any kind has no node to corrupt; on a timeline the other two
/// faults act as on any stream.
pub proof fn law_generic_and_timeline_faults<T>(
    stream: Seq<T>,
    events: Seq<TimelineEventView>,
    fault: FaultView,
)
    ensures
        fault is CorruptNode ==> faulted(stream, fault) == stream,
        !(fault is CorruptNode) ==> faulted_timeline(events, fault) == faulted(events, fault),
{
}

/// Corrupting a node changes at most that one field: no event comes or goes,
/// no other event changes, and what is not the start or end of a task or the
/// allocation of a node stays as it is.
pub proof fn law_corrupt_changes_one_field(
    events: Seq<TimelineEventView>,
    index: int,
    node: Seq<char>,
)
    requires
        0 <= index < events.len(),
    ensures
        ({
            let after = faulted_timeline(events, FaultView::CorruptNode { index, node });
            &&& after.len() == events.len()
            &&& forall|k: int|
                0 <= k < events.len() && k != index ==> #[trigger] after[k] == events[k]
            &&& match (events[index], after[index]) {
                (TimelineEventView::Boundary(was), TimelineEventView::Boundary(now)) => {
                    &&& now.job_id == was.job_id
                    &&& now.timestamp_ms == was.timestamp_ms
                    &&& match was.kind {
                        JobEventKindView::NodeAllocated { node: _, user, work_dir } =>
                        now.kind == (JobEventKindView::NodeAllocated { node, user, work_dir }),
                        JobEventKindView::TaskStarted { step_id, task_id, node: _ } =>
                        now.kind == (JobEventKindView::TaskStarted {
                            step_id,
                            task_id,
                            node,
                        }),
                        JobEventKindView::TaskExited { step_id, task_id, node: _ } =>
                        now.kind == (JobEventKindView::TaskExited { step_id, task_id, node }),
                        JobEventKindView::JobExited { .. } => now.kind == was.kind,
                    }
                },
                (was, now) => now == was,
            }
        }),
{
}

/// Whatever the length of a stream that is not empty, the first draw decides
/// the kind of the fault that a seed selects, and the draws that follow are its
/// positions, or the place of its node in the pool.
pub proof fn law_draws_select_the_fault(seed: u64, len: usize)
    requires
        len > 0,
    ensures
        ({
            let (kind, after_kind) = rng_draw_i32(rng_seeded(seed), 3);
            let (first, after_first) = rng_draw_usize(after_kind, len, usize::BITS);
            let fault = seeded_fault(seed, len);
            &&& kind == 0 ==> fault == (FaultView::DropEvent { index: first as int })
            &&& kind == 1 ==> fault == (FaultView::ReorderEvents {
                i: first as int,
                j: rng_draw_usize(after_first, len, usize::BITS).0 as int,
            })
            &&& kind == 2 ==> (fault matches FaultView::CorruptNode { index, node } && index
                == first && ({
                let k = rng_draw_usize(after_first, 3, usize::BITS).0;
                k < 3 ==> is_pool_name(node, k)
            }))
        }),
{
}

/// A seed selects a fault of the same kind for every stream that is not empty:
/// only its fields depend on the length.
pub proof fn law_kind_does_not_depend_on_length(seed: u64, a: usize, b: usize)
    requires
        a > 0,
        b > 0,
    ensures
        seeded_fault(seed, a) is DropEvent == seeded_fault(seed, b) is DropEvent,
        seeded_fault(seed, a) is ReorderEvents == seeded_fault(seed, b) is ReorderEvents,
        seeded_fault(seed, a) is CorruptNode == seeded_fault(seed, b) is CorruptNode,
{
}

/// The node that an event names, if it has that field.
pub open spec fn node_of(e: TimelineEventView) -> Option<Seq<char>> {
    match e {
        TimelineEventView::Boundary(job_event) => match job_event.kind {
            JobEventKindView::NodeAllocated { node, .. } => Some(node),
            JobEventKindView::TaskStarted { node, .. } => Some(node),
            JobEventKindView::TaskExited { node, .. } => Some(node),
            JobEventKindView::JobExited { .. } => None,
        },
        _ => None,
    }
}

/// The fault finds something to change: an event to drop, two different events
/// to swap, or an event that names another node.
pub open spec fn has_effect(events: Seq<TimelineEventView>, fault: FaultView) -> bool {
    match fault {
        FaultView::DropEvent { index } => 0 <= index < events.len(),
        FaultView::ReorderEvents { i, j } => 0 <= i < events.len() && 0 <= j < events.len()
            && events[i] != events[j],
        FaultView::CorruptNode { index, node } => 0 <= index < events.len() && (node_of(
            events[index],
        ) matches Some(named) && named != node),
    }
}

/// A fault changes a timeline exactly where it finds something to change. One
/// with its positions in the timeline, as a seed selects, leaves it as it is
/// only by swapping equal events, or by overwriting a node with itself or in an
/// event without one.
pub proof fn law_fault_changes_timeline(events: Seq<TimelineEventView>, fault: FaultView)
    ensures
        faulted_timeline(events, fault) != events <==> has_effect(events, fault),
{
    let after = faulted_timeline(events, fault);
    match fault {
        FaultView::DropEvent { index } => {
            if 0 <= index < events.len() {
                assert(after.len() != events.len());
            }
        },
        FaultView::ReorderEvents { i, j } => {
            if 0 <= i < events.len() && 0 <= j < events.len() {
                assert(after[j] == events[i]);
                if events[i] == events[j] {
                    assert(after =~= events);
                }
            }
        },
        FaultView::CorruptNode { index, node } => {
            if 0 <= index < events.len() {
                assert(after[index] == with_node(events[index], node));
                if node_of(events[index]) is None || node_of(events[index]) == Some(node) {
                    assert(with_node(events[index], node) == events[index]);
                    assert(after =~= events);
                } else {
                    assert(node_of(after[index]) == Some(node));
                }
            }
        },
    }
}

/// The fault that any seed selects for an empty stream does nothing to it.
pub proof fn law_empty_stream_stays_empty<T>(seed: u64)
    ensures
        faulted(Seq::<T>::empty(), seeded_fault(seed, 0)) == Seq::<T>::empty(),
        faulted_timeline(Seq::empty(), seeded_fault(seed, 0)) == Seq::<
            TimelineEventView,
        >::empty(),
{
}

} // verus!
