//! Per-warrior process counts as the viewer keeps them: a map from
//! warrior id to the number of live processes, listed in id order.
use std::collections::BTreeMap;

use vstd::prelude::*;
use vstd::std_specs::cmp::OrdSpec;
use vstd::std_specs::iter::IteratorSpec;

use crate::protocol::{CycleEvent, WarriorInfo};

verus! {

/// The entries of a count map in increasing id order.
pub open spec fn ascending_entries(r: Seq<(u32, usize)>, m: Map<u32, usize>) -> bool {
    &&& forall|i: int, j: int| 0 <= i < j < r.len() ==> r[i].0 < r[j].0
    &&& forall|i: int| 0 <= i < r.len() ==> m.contains_key(#[trigger] r[i].0) && m[r[i].0] == r[i].1
    &&& forall|k: u32| #[trigger] m.contains_key(k) ==> exists|i: int| 0 <= i < r.len() && r[i].0 == k
}

pub fn entries_of(m: &BTreeMap<u32, usize>) -> (r: Vec<(u32, usize)>)
    ensures
        ascending_entries(r@, m@),
{
    let ghost s = vstd::std_specs::btree::spec_btree_map_iter(m).remaining();
    assert(vstd::std_specs::btree::key_obeys_cmp_spec::<u32>());
    let mut r: Vec<(u32, usize)> = Vec::new();
    for kv in it: m.iter()
        invariant
            it.seq() == s,
            r@.len() == it.index(),
            forall|i: int| 0 <= i < r@.len() ==> r@[i] == (*s[i].0, *s[i].1),
    {
        r.push((*kv.0, *kv.1));
    }
    proof {
        let keys = s.map_values(|kv: (&u32, &usize)| *kv.0);
        assert(vstd::std_specs::btree::increasing_seq(keys));
        assert forall|i: int, j: int| 0 <= i < j < r@.len() implies r@[i].0 < r@[j].0 by {
            assert(keys[i] == r@[i].0);
            assert(keys[j] == r@[j].0);
            assert(keys[i].cmp_spec(&keys[j]) is Less);
        }
        assert forall|k: u32| #[trigger] m@.contains_key(k) implies exists|i: int|
            0 <= i < r@.len() && r@[i].0 == k by {
            assert(s.contains((&k, &m@[k])));
            let i = choose|i: int| 0 <= i < s.len() && s[i] == (&k, &m@[k]);
            assert(r@[i].0 == k);
        }
        assert forall|i: int| 0 <= i < r@.len() implies m@.contains_key(#[trigger] r@[i].0)
            && m@[r@[i].0] == r@[i].1 by {
            assert(m@.contains_key(*s[i].0));
        }
    }
    r
}

/// The count recorded for `id`; 0 when there is none.
pub open spec fn count_or_zero(m: Map<u32, usize>, id: u32) -> int {
    if m.contains_key(id) {
        m[id] as int
    } else {
        0
    }
}

/// The counts after one cycle event: a created process adds one to its
/// warrior, a killed one takes one away (never below zero); either way the
/// warrior is recorded. Other events change nothing.
pub open spec fn count_event(m: Map<u32, usize>, e: CycleEvent) -> Map<u32, usize> {
    match e {
        CycleEvent::ProcessCreated { warrior_id, .. } => m.insert(
            warrior_id,
            (count_or_zero(m, warrior_id) + 1) as usize,
        ),
        CycleEvent::ProcessKilled { warrior_id, .. } => m.insert(
            warrior_id,
            if count_or_zero(m, warrior_id) > 0 {
                (count_or_zero(m, warrior_id) - 1) as usize
            } else {
                0
            },
        ),
        _ => m,
    }
}

/// The counts after the events, in order.
pub open spec fn count_events(m: Map<u32, usize>, events: Seq<CycleEvent>) -> Map<u32, usize>
    decreases events.len(),
{
    if events.len() == 0 {
        m
    } else {
        count_event(count_events(m, events.drop_last()), events.last())
    }
}

/// Every count, a new one starting from 0 too, can grow by `n` without
/// leaving `usize`.
pub open spec fn counts_fit(m: Map<u32, usize>, n: int) -> bool {
    &&& n <= usize::MAX
    &&& forall|k: u32| #[trigger] m.contains_key(k) ==> m[k] + n <= usize::MAX
}

/// The counts a roster announces; a later entry for the same id wins.
pub open spec fn roster_counts(warriors: Seq<WarriorInfo>) -> Map<u32, usize>
    decreases warriors.len(),
{
    if warriors.len() == 0 {
        Map::empty()
    } else {
        roster_counts(warriors.drop_last()).insert(
            warriors.last().id,
            warriors.last().process_count,
        )
    }
}

/// The warriors with at least one process.
pub open spec fn live_ids(m: Map<u32, usize>) -> Set<u32> {
    m.dom().filter(|k: u32| m[k] > 0)
}

/// The count for `id` in `m`, 0 when there is none.
pub fn count_of(m: &BTreeMap<u32, usize>, id: u32) -> (r: usize)
    ensures
        r == count_or_zero(m@, id),
{
    match m.get(&id) {
        Some(c) => *c,
        None => 0,
    }
}

/// Replays the process births and deaths of one cycle into the counts.
pub fn count_cycle_events(m: &mut BTreeMap<u32, usize>, events: &[CycleEvent])
    requires
        counts_fit(old(m)@, events@.len() as int),
    ensures
        final(m)@ == count_events(old(m)@, events@),
{
    let n = events.len();
    let mut i: usize = 0;
    while i < n
        invariant
            i <= n,
            n == events@.len(),
            m@ == count_events(old(m)@, events@.take(i as int)),
            counts_fit(m@, (n - i) as int),
        decreases n - i,
    {
        proof {
            assert(events@.take(i + 1 as int).drop_last() =~= events@.take(i as int));
            assert(events@.take(i + 1 as int).last() == events@[i as int]);
        }
        match events[i] {
            CycleEvent::ProcessCreated { warrior_id, .. } => {
                let c = count_of(m, warrior_id);
                assert(c + 1 <= usize::MAX) by {
                    if m@.contains_key(warrior_id) {
                        assert(m@[warrior_id] + (n - i) <= usize::MAX);
                    }
                }
                m.insert(warrior_id, c + 1);
            },
            CycleEvent::ProcessKilled { warrior_id, .. } => {
                let c = count_of(m, warrior_id);
                m.insert(warrior_id, c.saturating_sub(1));
            },
            _ => {},
        }
        proof {
            assert forall|k: u32| #[trigger] m@.contains_key(k) implies m@[k] + (n - i - 1)
                <= usize::MAX by {
                if old(m)@.contains_key(k) {
                }
            }
        }
        i = i + 1;
    }
    assert(events@.take(n as int) =~= events@);
}

/// Whether every count can grow by `n` (see [`counts_fit`]).
pub fn counts_have_room(m: &BTreeMap<u32, usize>, n: usize) -> (r: bool)
    ensures
        r == counts_fit(m@, n as int),
{
    let entries = entries_of(m);
    let mut i: usize = 0;
    while i < entries.len()
        invariant
            i <= entries@.len(),
            ascending_entries(entries@, m@),
            forall|j: int| 0 <= j < i ==> entries@[j].1 + n <= usize::MAX,
        decreases entries@.len() - i,
    {
        if entries[i].1 > usize::MAX - n {
            assert(m@.contains_key(entries@[i as int].0));
            return false;
        }
        i = i + 1;
    }
    proof {
        assert forall|k: u32| #[trigger] m@.contains_key(k) implies m@[k] + n <= usize::MAX by {
            let j = choose|j: int| 0 <= j < entries@.len() && entries@[j].0 == k;
        }
    }
    true
}

/// The counts announced by a roster.
pub fn roster(warriors: &[WarriorInfo]) -> (m: BTreeMap<u32, usize>)
    ensures
        m@ == roster_counts(warriors@),
{
    let mut m: BTreeMap<u32, usize> = BTreeMap::new();
    let mut i: usize = 0;
    while i < warriors.len()
        invariant
            i <= warriors@.len(),
            m@ == roster_counts(warriors@.take(i as int)),
        decreases warriors@.len() - i,
    {
        proof {
            assert(warriors@.take(i + 1 as int).drop_last() =~= warriors@.take(i as int));
        }
        m.insert(warriors[i].id, warriors[i].process_count);
        i = i + 1;
    }
    assert(warriors@.take(warriors@.len() as int) =~= warriors@);
    m
}

/// How many warriors have at least one process.
pub fn live_count(m: &BTreeMap<u32, usize>) -> (r: usize)
    ensures
        r == live_ids(m@).len(),
{
    let entries = entries_of(m);
    let mut ids: Vec<u32> = Vec::new();
    let mut i: usize = 0;
    while i < entries.len()
        invariant
            i <= entries@.len(),
            ascending_entries(entries@, m@),
            ids@.no_duplicates(),
            forall|a: int| 0 <= a < ids@.len() ==> exists|j: int|
                0 <= j < i && entries@[j].0 == #[trigger] ids@[a],
            forall|x: u32| ids@.contains(x) <==> exists|j: int|
                0 <= j < i && entries@[j].0 == x && entries@[j].1 > 0,
        decreases entries@.len() - i,
    {
        let ghost before = ids@;
        if entries[i].1 > 0 {
            let k = entries[i].0;
            proof {
                assert forall|a: int| 0 <= a < ids@.len() implies ids@[a] != k by {
                    let j = choose|j: int| 0 <= j < i && entries@[j].0 == ids@[a];
                }
            }
            ids.push(k);
        }
        proof {
            let e = entries@[i as int];
            assert forall|x: u32| ids@.contains(x) implies exists|j: int|
                0 <= j < i + 1 && entries@[j].0 == x && entries@[j].1 > 0 by {
                if before.contains(x) {
                    let j = choose|j: int| 0 <= j < i && entries@[j].0 == x && entries@[j].1 > 0;
                    assert(0 <= j < i + 1 && entries@[j].0 == x && entries@[j].1 > 0);
                } else {
                    assert(x == e.0 && e.1 > 0);
                    assert(entries@[i as int].0 == x);
                }
            }
            assert forall|x: u32| (exists|j: int| 0 <= j < i + 1 && entries@[j].0 == x
                && entries@[j].1 > 0) implies ids@.contains(x) by {
                let j = choose|j: int| 0 <= j < i + 1 && entries@[j].0 == x && entries@[j].1 > 0;
                if j < i {
                    assert(before.contains(x));
                    let a = choose|a: int| 0 <= a < before.len() && before[a] == x;
                    assert(ids@[a] == x);
                } else {
                    assert(ids@.last() == x);
                }
            }
            assert forall|a: int| 0 <= a < ids@.len() implies exists|j: int|
                0 <= j < i + 1 && entries@[j].0 == #[trigger] ids@[a] by {
                if a < before.len() {
                    let j = choose|j: int| 0 <= j < i && entries@[j].0 == before[a];
                    assert(ids@[a] == before[a]);
                } else {
                    assert(entries@[i as int].0 == ids@[a]);
                }
            }
        }
        i = i + 1;
    }
    proof {
        assert(ids@.to_set() =~= live_ids(m@)) by {
            assert forall|x: u32| live_ids(m@).contains(x) implies ids@.contains(x) by {
                let j = choose|j: int| 0 <= j < entries@.len() && entries@[j].0 == x;
            }
        }
        ids@.unique_seq_to_set();
    }
    ids.len()
}

/// A process born and then killed leaves every warrior's count as it was
/// (the warrior is recorded, with the count it had).
pub proof fn lemma_born_then_killed(
    m: Map<u32, usize>,
    warrior_id: u32,
    born_at: usize,
    killed_at: usize,
    k: u32,
)
    requires
        counts_fit(m, 1),
    ensures
        ({
            let events = seq![
                CycleEvent::ProcessCreated { warrior_id, address: born_at },
                CycleEvent::ProcessKilled { warrior_id, address: killed_at },
            ];
            count_or_zero(count_events(m, events), k) == count_or_zero(m, k)
        }),
{
    let events = seq![
        CycleEvent::ProcessCreated { warrior_id, address: born_at },
        CycleEvent::ProcessKilled { warrior_id, address: killed_at },
    ];
    assert(events.drop_last() =~= seq![events[0]]);
    assert(events.drop_last().drop_last() =~= Seq::<CycleEvent>::empty());
    let c = count_or_zero(m, warrior_id);
    if m.contains_key(warrior_id) {
        assert(m[warrior_id] + 1 <= usize::MAX);
    }
    let first = events.drop_last();
    assert(first.len() == 1 && first.last() == events[0]);
    assert(count_events(m, first.drop_last()) == m);
    let born = count_events(m, first);
    assert(born == count_event(m, events[0]));
    assert(born == m.insert(warrior_id, (c + 1) as usize));
    assert(count_or_zero(born, warrior_id) == c + 1);
    let after = count_events(m, events);
    assert(after == born.insert(warrior_id, c as usize));
    if k != warrior_id {
        assert(count_or_zero(after, k) == count_or_zero(born, k));
        assert(count_or_zero(born, k) == count_or_zero(m, k));
    }
}

} // verus!
