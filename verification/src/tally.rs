//! A count for each name, kept in dictionary order of the names.

use vstd::prelude::*;

use crate::text::{
    is_before, lemma_text_before_total, lemma_text_before_transitive, same_text, text_before,
};

verus! {

/// How often each name was counted. A name that was never counted has no
/// entry.
#[derive(Debug, PartialEq)]
pub struct Tally {
    entries: Vec<(&'static str, u64)>,
}

/// The names of a list of entries come in dictionary order, each once.
pub open spec fn in_order(entries: Seq<(&'static str, u64)>) -> bool {
    forall|i: int, j: int|
        0 <= i < j < entries.len() ==> text_before(
            (#[trigger] entries[i]).0@,
            (#[trigger] entries[j]).0@,
        )
}

/// The count that a list of entries gives to each name.
pub open spec fn counts(entries: Seq<(&'static str, u64)>) -> Map<Seq<char>, nat>
    decreases entries.len(),
{
    if entries.len() == 0 {
        Map::empty()
    } else {
        counts(entries.drop_last()).insert(entries.last().0@, entries.last().1 as nat)
    }
}

proof fn lemma_counts(entries: Seq<(&'static str, u64)>)
    requires
        in_order(entries),
    ensures
        forall|i: int|
            0 <= i < entries.len() ==> counts(entries).contains_key((#[trigger] entries[i]).0@)
                && counts(entries)[entries[i].0@] == entries[i].1 as nat,
        forall|name: Seq<char>| #[trigger]
            counts(entries).contains_key(name) ==> exists|i: int|
                0 <= i < entries.len() && (#[trigger] entries[i]).0@ == name,
    decreases entries.len(),
{
    if entries.len() > 0 {
        let rest = entries.drop_last();
        let n = rest.len() as int;
        assert(in_order(rest)) by {
            assert forall|i: int, j: int| 0 <= i < j < rest.len() implies text_before(
                (#[trigger] rest[i]).0@,
                (#[trigger] rest[j]).0@,
            ) by {
                assert(entries[i] == rest[i] && entries[j] == rest[j]);
            }
        }
        lemma_counts(rest);
        assert forall|i: int| 0 <= i < entries.len() implies counts(entries).contains_key(
            (#[trigger] entries[i]).0@,
        ) && counts(entries)[entries[i].0@] == entries[i].1 as nat by {
            if i < n {
                assert(rest[i] == entries[i]);
                assert(text_before(entries[i].0@, entries[n].0@));
                lemma_text_before_total(entries[i].0@, entries[n].0@);
            }
        }
        assert forall|name: Seq<char>| #[trigger]
            counts(entries).contains_key(name) implies exists|i: int|
            0 <= i < entries.len() && (#[trigger] entries[i]).0@ == name by {
            if name == entries[n].0@ {
            } else {
                assert(counts(rest).contains_key(name));
                let i = choose|i: int| 0 <= i < rest.len() && (#[trigger] rest[i]).0@ == name;
                assert(entries[i].0@ == name);
            }
        }
    }
}

impl View for Tally {
    type V = Map<Seq<char>, nat>;

    closed spec fn view(&self) -> Map<Seq<char>, nat> {
        counts(self.entries@)
    }
}

impl Clone for Tally {
    fn clone(&self) -> (res: Self)
        ensures
            res.listed() == self.listed(),
            res@ == self@,
    {
        proof {
            use_type_invariant(self);
        }
        Tally { entries: self.entries() }
    }
}

impl Tally {
    /// The entries, in the order in which they are kept.
    pub closed spec fn listed(&self) -> Seq<(&'static str, u64)> {
        self.entries@
    }

    /// The names come in dictionary order, each once.
    #[verifier::type_invariant]
    spec fn well_formed(self) -> bool {
        in_order(self.entries@)
    }

    /// A tally of nothing.
    pub fn new() -> (res: Tally)
        ensures
            res@ == Map::<Seq<char>, nat>::empty(),
    {
        Tally { entries: Vec::new() }
    }

    /// Counts a name once more.
    pub fn count(&mut self, name: &'static str)
        requires
            old(self)@.contains_key(name@) ==> old(self)@[name@] < u64::MAX,
        ensures
            final(self)@ == old(self)@.insert(
                name@,
                if old(self)@.contains_key(name@) {
                    old(self)@[name@] + 1
                } else {
                    1
                },
            ),
    {
        let ghost before = self.entries@;
        proof {
            use_type_invariant(&*self);
            lemma_counts(before);
        }
        let mut entries: Vec<(&'static str, u64)> = Vec::new();
        std::mem::swap(&mut entries, &mut self.entries);
        let mut pos: usize = 0;
        while pos < entries.len()
            invariant
                entries@ == before,
                pos <= before.len(),
                in_order(before),
                forall|k: int|
                    0 <= k < pos ==> text_before((#[trigger] before[k]).0@, name@),
            ensures
                pos <= before.len(),
                entries@ == before,
                forall|k: int|
                    0 <= k < pos ==> text_before((#[trigger] before[k]).0@, name@),
                pos < before.len() ==> !text_before(before[pos as int].0@, name@),
            decreases before.len() - pos,
        {
            if !is_before(entries[pos].0, name) {
                break;
            }
            pos = pos + 1;
        }
        if pos < entries.len() && same_text(entries[pos].0, name) {
            let old_count: u64 = entries[pos].1;
            let kept: &'static str = entries[pos].0;
            entries.set(pos, (kept, old_count + 1));
            let ghost after = entries@;
            proof {
                assert forall|i: int, j: int| 0 <= i < j < after.len() implies text_before(
                    (#[trigger] after[i]).0@,
                    (#[trigger] after[j]).0@,
                ) by {
                    assert(after[i].0@ == before[i].0@ && after[j].0@ == before[j].0@);
                }
                lemma_counts(after);
                assert(counts(after) =~= counts(before).insert(
                    name@,
                    counts(before)[name@] + 1,
                )) by {
                    lemma_same_names(before, after, name@, pos as int);
                }
            }
        } else {
            entries.insert(pos, (name, 1));
            let ghost after = entries@;
            proof {
                lemma_inserted(before, after, name@, pos as int);
            }
        }
        self.entries = entries;
    }

    /// The count of a name, if it was ever counted.
    pub fn get(&self, name: &str) -> (res: Option<u64>)
        ensures
            match res {
                Some(n) => self@.contains_key(name@) && self@[name@] == n,
                None => !self@.contains_key(name@),
            },
    {
        proof {
            use_type_invariant(self);
            lemma_counts(self.entries@);
        }
        let mut i: usize = 0;
        while i < self.entries.len()
            invariant
                i <= self.entries@.len(),
                in_order(self.entries@),
                forall|k: int| 0 <= k < i ==> (#[trigger] self.entries@[k]).0@ != name@,
            decreases self.entries@.len() - i,
        {
            if same_text(self.entries[i].0, name) {
                proof {
                    lemma_counts(self.entries@);
                }
                return Some(self.entries[i].1);
            }
            i = i + 1;
        }
        None
    }

    /// The names that were counted, with their counts, in dictionary order.
    pub fn entries(&self) -> (res: Vec<(&'static str, u64)>)
        ensures
            res@ == self.listed(),
            in_order(res@),
            counts(res@) == self@,
            forall|i: int|
                0 <= i < res@.len() ==> self@.contains_key((#[trigger] res@[i]).0@)
                    && self@[res@[i].0@] == res@[i].1,
            forall|name: Seq<char>| #[trigger]
                self@.contains_key(name) ==> exists|i: int|
                    0 <= i < res@.len() && (#[trigger] res@[i]).0@ == name,
    {
        proof {
            use_type_invariant(self);
            lemma_counts(self.entries@);
        }
        let mut res: Vec<(&'static str, u64)> = Vec::new();
        let mut i: usize = 0;
        while i < self.entries.len()
            invariant
                i <= self.entries@.len(),
                res@ == self.entries@.take(i as int),
            decreases self.entries@.len() - i,
        {
            res.push(self.entries[i]);
            i = i + 1;
            assert(res@ =~= self.entries@.take(i as int));
        }
        assert(res@ =~= self.entries@);
        res
    }
}

proof fn lemma_same_names(
    before: Seq<(&'static str, u64)>,
    after: Seq<(&'static str, u64)>,
    name: Seq<char>,
    pos: int,
)
    requires
        in_order(before),
        in_order(after),
        0 <= pos < before.len(),
        before.len() == after.len(),
        before[pos].0@ == name,
        before[pos].1 < u64::MAX,
        after == before.update(pos, (before[pos].0, (before[pos].1 + 1) as u64)),
    ensures
        counts(after) == counts(before).insert(name, counts(before)[name] + 1),
{
    lemma_counts(before);
    lemma_counts(after);
    let expected = counts(before).insert(name, counts(before)[name] + 1);
    assert forall|other: Seq<char>| #[trigger]
        counts(after).contains_key(other) <==> expected.contains_key(other) by {
        if counts(after).contains_key(other) {
            let i = choose|i: int| 0 <= i < after.len() && (#[trigger] after[i]).0@ == other;
            assert(before[i].0@ == other);
        }
        if expected.contains_key(other) {
            if other == name {
                assert(after[pos].0@ == name);
            } else {
                let i = choose|i: int|
                    0 <= i < before.len() && (#[trigger] before[i]).0@ == other;
                assert(after[i].0@ == other);
            }
        }
    }
    assert forall|other: Seq<char>| #[trigger] counts(after).contains_key(other) implies counts(
        after,
    )[other] == expected[other] by {
        let i = choose|i: int| 0 <= i < after.len() && (#[trigger] after[i]).0@ == other;
        assert(before[i].0@ == other);
        if i != pos {
            if i < pos {
                assert(text_before(before[i].0@, before[pos].0@));
            } else {
                assert(text_before(before[pos].0@, before[i].0@));
            }
            lemma_text_before_total(before[i].0@, before[pos].0@);
        }
    }
    assert(counts(after) =~= expected);
}

proof fn lemma_inserted(
    before: Seq<(&'static str, u64)>,
    after: Seq<(&'static str, u64)>,
    name: Seq<char>,
    pos: int,
)
    requires
        in_order(before),
        0 <= pos <= before.len(),
        after.len() == before.len() + 1,
        after[pos].0@ == name,
        after[pos].1 == 1,
        forall|k: int| 0 <= k < pos ==> #[trigger] after[k] == before[k],
        forall|k: int| pos < k < after.len() ==> #[trigger] after[k] == before[k - 1],
        forall|k: int| 0 <= k < pos ==> text_before((#[trigger] before[k]).0@, name),
        pos < before.len() ==> !text_before(before[pos].0@, name) && before[pos].0@ != name,
    ensures
        in_order(after),
        !counts(before).contains_key(name),
        counts(after) == counts(before).insert(name, 1),
{
    assert forall|k: int| pos <= k < before.len() implies text_before(
        name,
        (#[trigger] before[k]).0@,
    ) by {
        lemma_text_before_total(before[pos].0@, name);
        if k > pos {
            lemma_text_before_transitive(name, before[pos].0@, before[k].0@);
        }
    }
    assert forall|i: int, j: int| 0 <= i < j < after.len() implies text_before(
        (#[trigger] after[i]).0@,
        (#[trigger] after[j]).0@,
    ) by {
        if i < pos && j == pos {
            assert(text_before(before[i].0@, name));
        } else if i < pos && j > pos {
            assert(text_before(before[i].0@, before[j - 1].0@));
        } else if i == pos {
            assert(text_before(name, before[j - 1].0@));
        } else if i > pos {
            assert(text_before(before[i - 1].0@, before[j - 1].0@));
        } else {
            assert(text_before(before[i].0@, before[j].0@));
        }
    }
    lemma_counts(before);
    lemma_counts(after);
    if counts(before).contains_key(name) {
        let i = choose|i: int| 0 <= i < before.len() && (#[trigger] before[i]).0@ == name;
        if i < pos {
            assert(text_before(before[i].0@, name));
        } else {
            assert(text_before(name, before[i].0@));
        }
        lemma_text_before_total(before[i].0@, name);
    }
    let expected = counts(before).insert(name, 1);
    assert forall|other: Seq<char>| #[trigger]
        counts(after).contains_key(other) <==> expected.contains_key(other) by {
        if counts(after).contains_key(other) {
            let i = choose|i: int| 0 <= i < after.len() && (#[trigger] after[i]).0@ == other;
            if i < pos {
                assert(before[i].0@ == other);
            } else if i > pos {
                assert(before[i - 1].0@ == other);
            }
        }
        if expected.contains_key(other) {
            if other == name {
                assert(after[pos].0@ == name);
            } else {
                let i = choose|i: int|
                    0 <= i < before.len() && (#[trigger] before[i]).0@ == other;
                if i < pos {
                    assert(after[i].0@ == other);
                } else {
                    assert(after[i + 1].0@ == other);
                }
            }
        }
    }
    assert forall|other: Seq<char>| #[trigger] counts(after).contains_key(other) implies counts(
        after,
    )[other] == expected[other] by {
        let i = choose|i: int| 0 <= i < after.len() && (#[trigger] after[i]).0@ == other;
        if i < pos {
            assert(before[i].0@ == other);
        } else if i > pos {
            assert(before[i - 1].0@ == other);
        }
    }
    assert(counts(after) =~= expected);
}

} // verus!
