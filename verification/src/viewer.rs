//! The visualization's model of a battle: which warrior owns each core
//! cell and when it was last touched, replayed from cycle events and
//! snapshots, together with the viewer's playback and selection state.
//!
//! How brightly a cell glows, the camera and the drawing itself are
//! floating-point work done by the frontends; the replay functions hand
//! them the addresses they touched.
use std::collections::{BTreeMap, VecDeque};

use vstd::prelude::*;

use crate::counts::{
    ascending_entries, count_cycle_events, count_events, counts_fit, counts_have_room, entries_of,
    live_count, live_ids, roster, roster_counts,
};
use crate::protocol::{CellInfo, CycleEvent, WarriorInfo};
use crate::viz::{spec_faster, spec_slower, InputAction, PlaybackSpeed, SelectedCellInfo};

verus! {

/// Visual state for a single core address.
#[derive(Debug, Clone, Copy, PartialEq, Eq, Structural)]
pub struct CellState {
    pub owner: Option<u32>,
    pub last_access_cycle: u64,
}

/// A cell nobody owns and nothing has touched.
pub open spec fn blank_cell() -> CellState {
    CellState { owner: None, last_access_cycle: 0 }
}

impl Default for CellState {
    fn default() -> (r: Self)
        ensures
            r == blank_cell(),
    {
        CellState { owner: None, last_access_cycle: 0 }
    }
}

/// The visual model of the core grid.
#[derive(Debug, Clone)]
pub struct CoreState {
    pub cells: Vec<CellState>,
    pub width: u32,
    pub height: u32,
    pub current_cycle: u64,
}

/// `n` blank cells.
pub open spec fn blank_cells(n: nat) -> Seq<CellState> {
    Seq::new(n, |i: int| blank_cell())
}

/// The cycle counter after one more cycle; it stops at its maximum.
pub open spec fn next_cycle(c: u64) -> u64 {
    if c == u64::MAX {
        c
    } else {
        (c + 1) as u64
    }
}

/// What an event does to the grid: the cell it touches and the owner it
/// leaves there. Reads leave the grid as it is; a killed process leaves
/// its cell without owner.
pub open spec fn event_touch(e: CycleEvent) -> Option<(usize, Option<u32>)> {
    match e {
        CycleEvent::Read { .. } => None,
        CycleEvent::Write { address, warrior_id } => Some((address, Some(warrior_id))),
        CycleEvent::Execute { address, warrior_id } => Some((address, Some(warrior_id))),
        CycleEvent::ProcessCreated { warrior_id, address } => Some((address, Some(warrior_id))),
        CycleEvent::ProcessKilled { address, .. } => Some((address, None)),
    }
}

/// `cells` after cell `address`, if it exists, is touched at `cycle`.
pub open spec fn touch(cells: Seq<CellState>, address: usize, owner: Option<u32>, cycle: u64) -> Seq<
    CellState,
> {
    if address < cells.len() {
        cells.update(address as int, CellState { owner, last_access_cycle: cycle })
    } else {
        cells
    }
}

/// `cells` after the events, in order, all at `cycle`.
pub open spec fn replay(cells: Seq<CellState>, events: Seq<CycleEvent>, cycle: u64) -> Seq<
    CellState,
>
    decreases events.len(),
{
    if events.len() == 0 {
        cells
    } else {
        let before = replay(cells, events.drop_last(), cycle);
        match event_touch(events.last()) {
            Some((address, owner)) => touch(before, address, owner, cycle),
            None => before,
        }
    }
}

/// The addresses of a grid of `size` cells that the events touch, in order.
pub open spec fn touched(events: Seq<CycleEvent>, size: nat) -> Seq<usize>
    decreases events.len(),
{
    if events.len() == 0 {
        Seq::empty()
    } else {
        let before = touched(events.drop_last(), size);
        match event_touch(events.last()) {
            Some((address, owner)) => if address < size {
                before.push(address)
            } else {
                before
            },
            None => before,
        }
    }
}

/// `cells` with the owners a snapshot gives, later entries winning;
/// addresses outside the grid are skipped and access cycles are kept.
pub open spec fn with_owners(cells: Seq<CellState>, snapshot: Seq<CellInfo>) -> Seq<CellState>
    decreases snapshot.len(),
{
    if snapshot.len() == 0 {
        cells
    } else {
        let before = with_owners(cells, snapshot.drop_last());
        let c = snapshot.last();
        if c.address < before.len() {
            before.update(
                c.address as int,
                CellState { owner: c.owner, ..before[c.address as int] },
            )
        } else {
            before
        }
    }
}

pub proof fn lemma_replay_len(cells: Seq<CellState>, events: Seq<CycleEvent>, cycle: u64)
    ensures
        replay(cells, events, cycle).len() == cells.len(),
    decreases events.len(),
{
    if events.len() > 0 {
        lemma_replay_len(cells, events.drop_last(), cycle);
    }
}

pub proof fn lemma_with_listings_len(details: Seq<Seq<char>>, snapshot: Seq<CellInfo>)
    ensures
        with_listings(details, snapshot).len() == details.len(),
    decreases snapshot.len(),
{
    if snapshot.len() > 0 {
        lemma_with_listings_len(details, snapshot.drop_last());
    }
}

pub proof fn lemma_with_owners_len(cells: Seq<CellState>, snapshot: Seq<CellInfo>)
    ensures
        with_owners(cells, snapshot).len() == cells.len(),
    decreases snapshot.len(),
{
    if snapshot.len() > 0 {
        lemma_with_owners_len(cells, snapshot.drop_last());
    }
}

impl CoreState {
    /// A blank grid of `width` by `height` cells at cycle 0.
    pub fn new(width: u32, height: u32) -> (r: Self)
        requires
            width * height <= usize::MAX,
        ensures
            r.cells@ == blank_cells((width * height) as nat),
            r.width == width,
            r.height == height,
            r.current_cycle == 0,
    {
        let len = width as usize * height as usize;
        let mut cells: Vec<CellState> = Vec::new();
        let mut i: usize = 0;
        while i < len
            invariant
                i <= len,
                cells@ == blank_cells(i as nat),
            decreases len - i,
        {
            cells.push(CellState::default());
            assert(cells@ =~= blank_cells(i as nat + 1));
            i = i + 1;
        }
        CoreState { cells, width, height, current_cycle: 0 }
    }

    pub fn len(&self) -> (r: usize)
        ensures
            r == self.cells@.len(),
    {
        self.cells.len()
    }

    pub fn is_empty(&self) -> (r: bool)
        ensures
            r == (self.cells@.len() == 0),
    {
        self.cells.len() == 0
    }

    /// Marks cell `address`, if it exists, as touched now with `owner`;
    /// says whether it existed.
    fn touch_cell(&mut self, address: usize, owner: Option<u32>) -> (hit: bool)
        ensures
            final(self).cells@ == touch(old(self).cells@, address, owner, old(self).current_cycle),
            final(self).width == old(self).width,
            final(self).height == old(self).height,
            final(self).current_cycle == old(self).current_cycle,
            hit == (address < old(self).cells@.len()),
    {
        if address < self.cells.len() {
            let cycle = self.current_cycle;
            self.cells.set(address, CellState { owner, last_access_cycle: cycle });
            true
        } else {
            false
        }
    }

    /// Advances the cycle counter and replays one cycle's events; returns
    /// the addresses touched, in order, so the frontend can light them up.
    pub fn apply_events(&mut self, events: &[CycleEvent]) -> (lit: Vec<usize>)
        ensures
            final(self).current_cycle == next_cycle(old(self).current_cycle),
            final(self).cells@ == replay(old(self).cells@, events@, final(self).current_cycle),
            final(self).width == old(self).width,
            final(self).height == old(self).height,
            lit@ == touched(events@, old(self).cells@.len()),
    {
        self.current_cycle = self.current_cycle.saturating_add(1);
        let ghost start = self.cells@;
        let ghost cycle = self.current_cycle;
        let mut lit: Vec<usize> = Vec::new();
        let mut i: usize = 0;
        while i < events.len()
            invariant
                i <= events@.len(),
                self.current_cycle == cycle,
                self.width == old(self).width,
                self.height == old(self).height,
                start == old(self).cells@,
                self.cells@ == replay(start, events@.take(i as int), cycle),
                lit@ == touched(events@.take(i as int), start.len()),
            decreases events@.len() - i,
        {
            proof {
                lemma_replay_len(start, events@.take(i as int), cycle);
                assert(events@.take(i + 1 as int).drop_last() =~= events@.take(i as int));
                assert(events@.take(i + 1 as int).last() == events@[i as int]);
            }
            let hit = match events[i] {
                CycleEvent::Read { .. } => false,
                CycleEvent::Write { address, warrior_id } => self.touch_cell(
                    address,
                    Some(warrior_id),
                ),
                CycleEvent::Execute { address, warrior_id } => self.touch_cell(
                    address,
                    Some(warrior_id),
                ),
                CycleEvent::ProcessCreated { warrior_id, address } => self.touch_cell(
                    address,
                    Some(warrior_id),
                ),
                CycleEvent::ProcessKilled { address, .. } => self.touch_cell(address, None),
            };
            if hit {
                let address = match events[i] {
                    CycleEvent::Read { address, .. } => address,
                    CycleEvent::Write { address, .. } => address,
                    CycleEvent::Execute { address, .. } => address,
                    CycleEvent::ProcessCreated { address, .. } => address,
                    CycleEvent::ProcessKilled { address, .. } => address,
                };
                lit.push(address);
            }
            i = i + 1;
        }
        assert(events@.take(events@.len() as int) =~= events@);
        lit
    }
}

/// Resets the grid to a server snapshot: every cell blank, the cycle
/// counter at 0, and each listed cell owned as the snapshot says.
pub fn apply_snapshot(core: &mut CoreState, cells: &[CellInfo])
    ensures
        final(core).cells@ == with_owners(blank_cells(old(core).cells@.len()), cells@),
        final(core).current_cycle == 0,
        final(core).width == old(core).width,
        final(core).height == old(core).height,
{
    let n = core.cells.len();
    let mut i: usize = 0;
    while i < n
        invariant
            i <= n,
            n == core.cells@.len(),
            n == old(core).cells@.len(),
            core.width == old(core).width,
            core.height == old(core).height,
            forall|k: int| 0 <= k < i ==> core.cells@[k] == blank_cell(),
        decreases n - i,
    {
        core.cells.set(i, CellState::default());
        i = i + 1;
    }
    assert(core.cells@ =~= blank_cells(n as nat));
    core.current_cycle = 0;
    let ghost blank = core.cells@;
    let mut j: usize = 0;
    while j < cells.len()
        invariant
            j <= cells@.len(),
            blank == blank_cells(n as nat),
            core.current_cycle == 0,
            core.width == old(core).width,
            core.height == old(core).height,
            core.cells@ == with_owners(blank, cells@.take(j as int)),
        decreases cells@.len() - j,
    {
        proof {
            lemma_with_owners_len(blank, cells@.take(j as int));
            assert(cells@.take(j + 1 as int).drop_last() =~= cells@.take(j as int));
            assert(cells@.take(j + 1 as int).last() == cells@[j as int]);
        }
        let address = cells[j].address;
        if address < core.cells.len() {
            let old_cell = core.cells[address];
            core.cells.set(
                address,
                CellState { owner: cells[j].owner, last_access_cycle: old_cell.last_access_cycle },
            );
        }
        j = j + 1;
    }
    assert(cells@.take(cells@.len() as int) =~= cells@);
}

/// A run of cycles holds at least as many events as any run it starts with.
pub proof fn lemma_events_in_take_grows(batches: Seq<Seq<CycleEvent>>, i: int, j: int)
    requires
        0 <= i <= j <= batches.len(),
    ensures
        events_in(batches.take(i)) <= events_in(batches.take(j)),
    decreases j - i,
{
    if i < j {
        lemma_events_in_take_grows(batches, i, j - 1);
        assert(batches.take(j).drop_last() =~= batches.take(j - 1));
    }
}

/// Replaying `events` raises no count by more than their number.
pub proof fn lemma_count_events_fit(m: Map<u32, usize>, events: Seq<CycleEvent>, n: int)
    requires
        counts_fit(m, n + events.len()),
        n >= 0,
    ensures
        counts_fit(count_events(m, events), n),
    decreases events.len(),
{
    if events.len() > 0 {
        lemma_count_events_fit(m, events.drop_last(), n + 1);
        let before = count_events(m, events.drop_last());
        assert forall|k: u32| #[trigger] count_events(m, events).contains_key(k) implies count_events(
            m,
            events,
        )[k] + n <= usize::MAX by {
            if before.contains_key(k) {
                assert(before[k] + n + 1 <= usize::MAX);
            }
        }
    }
}

/// Playing a run of cycles in two parts, one after the other, ends where
/// playing it at once does, and touches the same addresses in the same
/// order: how many cycles each frame shows does not matter.
pub proof fn lemma_run_cycles_split(
    counts: Map<u32, usize>,
    cells: Seq<CellState>,
    cycle: u64,
    first: Seq<Seq<CycleEvent>>,
    second: Seq<Seq<CycleEvent>>,
)
    ensures
        ({
            let (c, s, y) = run_cycles(counts, cells, cycle, first);
            run_cycles(c, s, y, second) == run_cycles(counts, cells, cycle, first + second)
        }),
        touched_in(first, cells.len()) + touched_in(second, cells.len()) == touched_in(
            first + second,
            cells.len(),
        ),
    decreases second.len(),
{
    if second.len() == 0 {
        assert(first + second =~= first);
        assert(touched_in(first, cells.len()) + Seq::<usize>::empty() =~= touched_in(
            first,
            cells.len(),
        ));
    } else {
        lemma_run_cycles_split(counts, cells, cycle, first, second.drop_last());
        assert((first + second).drop_last() =~= first + second.drop_last());
        assert((first + second).last() == second.last());
        assert(touched_in(first, cells.len()) + touched_in(second, cells.len()) =~= touched_in(
            first,
            cells.len(),
        ) + touched_in(second.drop_last(), cells.len()) + touched(second.last(), cells.len()));
    }
}

// ---------------------------------------------------------------------------
// The viewer
// ---------------------------------------------------------------------------

/// `cells` with every owner cleared; access cycles are kept.
pub open spec fn unowned(cells: Seq<CellState>) -> Seq<CellState> {
    Seq::new(cells.len(), |i: int| CellState { owner: None, ..cells[i] })
}

/// `n` empty instruction listings.
pub open spec fn no_details(n: nat) -> Seq<Seq<char>> {
    Seq::new(n, |i: int| Seq::<char>::empty())
}

/// `details` with the listings a snapshot gives, later entries winning;
/// addresses outside the grid are skipped.
pub open spec fn with_listings(details: Seq<Seq<char>>, snapshot: Seq<CellInfo>) -> Seq<Seq<char>>
    decreases snapshot.len(),
{
    if snapshot.len() == 0 {
        details
    } else {
        let before = with_listings(details, snapshot.drop_last());
        let c = snapshot.last();
        if c.address < before.len() {
            before.update(c.address as int, c.instruction_summary@)
        } else {
            before
        }
    }
}

/// The warriors that own at least one cell.
pub open spec fn cell_owners(cells: Seq<CellState>) -> Set<u32> {
    Set::new(|o: u32| exists|i: int| 0 <= i < cells.len() && cells[i].owner == Some(o))
}

/// What the selection panel shows for `address`: its address, its listing
/// (or "Unknown instruction" when there is none) and its owner; nothing
/// when no cell, or a cell outside the grid, is selected.
pub open spec fn cell_info(
    cells: Seq<CellState>,
    details: Seq<Seq<char>>,
    address: Option<usize>,
) -> Option<(usize, Seq<char>, Option<u32>)> {
    match address {
        None => None,
        Some(a) => if a < cells.len() {
            Some(
                (
                    a,
                    if a < details.len() && details[a as int].len() > 0 {
                        details[a as int]
                    } else {
                        "Unknown instruction"@
                    },
                    cells[a as int].owner,
                ),
            )
        } else {
            None
        },
    }
}

/// The view of a [`SelectedCellInfo`].
pub open spec fn selected_view(i: SelectedCellInfo) -> (usize, Seq<char>, Option<u32>) {
    (i.address, i.instruction@, i.owner)
}

/// The number of events in a run of cycles.
pub open spec fn events_in(batches: Seq<Seq<CycleEvent>>) -> int
    decreases batches.len(),
{
    if batches.len() == 0 {
        0
    } else {
        events_in(batches.drop_last()) + batches.last().len()
    }
}

/// Counts, cells and cycle counter after replaying a run of cycles.
pub open spec fn run_cycles(
    counts: Map<u32, usize>,
    cells: Seq<CellState>,
    cycle: u64,
    batches: Seq<Seq<CycleEvent>>,
) -> (Map<u32, usize>, Seq<CellState>, u64)
    decreases batches.len(),
{
    if batches.len() == 0 {
        (counts, cells, cycle)
    } else {
        let (c, s, y) = run_cycles(counts, cells, cycle, batches.drop_last());
        let e = batches.last();
        (count_events(c, e), replay(s, e, next_cycle(y)), next_cycle(y))
    }
}

/// The addresses a run of cycles touches, cycle by cycle.
pub open spec fn touched_in(batches: Seq<Seq<CycleEvent>>, size: nat) -> Seq<usize>
    decreases batches.len(),
{
    if batches.len() == 0 {
        Seq::empty()
    } else {
        touched_in(batches.drop_last(), size) + touched(batches.last(), size)
    }
}

/// The least of `a` and `b`.
pub open spec fn min_nat(a: nat, b: nat) -> nat {
    if a <= b {
        a
    } else {
        b
    }
}

/// The visualization's state apart from drawing: the core model, playback,
/// the cycles waiting to be shown, the selection, each cell's listing and
/// each warrior's process count.
pub struct Viewer {
    core: CoreState,
    is_paused: bool,
    playback_speed: PlaybackSpeed,
    pending_cycles: VecDeque<Vec<CycleEvent>>,
    selected_address: Option<usize>,
    cell_details: Vec<String>,
    process_counts: BTreeMap<u32, usize>,
}

impl Viewer {
    /// The core model.
    pub closed spec fn core_state(&self) -> CoreState {
        self.core
    }

    /// Whether playback is paused.
    pub closed spec fn paused(&self) -> bool {
        self.is_paused
    }

    /// The playback speed.
    pub closed spec fn speed(&self) -> PlaybackSpeed {
        self.playback_speed
    }

    /// The cycles waiting to be shown, oldest first.
    pub closed spec fn pending(&self) -> Seq<Seq<CycleEvent>> {
        self.pending_cycles@.map_values(|b: Vec<CycleEvent>| b@)
    }

    /// The selected address, if any.
    pub closed spec fn selected(&self) -> Option<usize> {
        self.selected_address
    }

    /// The instruction listing kept for each address.
    pub closed spec fn details(&self) -> Seq<Seq<char>> {
        self.cell_details@.map_values(|d: String| d@)
    }

    /// The live process count of each warrior.
    pub closed spec fn counts(&self) -> Map<u32, usize> {
        self.process_counts@
    }

    /// A viewer of `core`, playing at normal speed, with nothing selected,
    /// queued or counted.
    pub fn new(core: CoreState) -> (r: Self)
        ensures
            r.core_state() == core,
            !r.paused(),
            r.speed() == PlaybackSpeed::X1,
            r.pending() == Seq::<Seq<CycleEvent>>::empty(),
            r.selected() is None,
            r.details() == no_details(core.cells@.len()),
            r.counts() == Map::<u32, usize>::empty(),
    {
        let details = blank_listings(core.cells.len());
        let r = Viewer {
            core,
            is_paused: false,
            playback_speed: PlaybackSpeed::X1,
            pending_cycles: VecDeque::new(),
            selected_address: None,
            cell_details: details,
            process_counts: BTreeMap::new(),
        };
        assert(r.pending() =~= Seq::<Seq<CycleEvent>>::empty());
        r
    }

    /// The core model.
    pub fn core_model(&self) -> (r: &CoreState)
        ensures
            *r == self.core_state(),
    {
        &self.core
    }

    pub fn is_paused(&self) -> (r: bool)
        ensures
            r == self.paused(),
    {
        self.is_paused
    }

    pub fn playback_speed(&self) -> (r: PlaybackSpeed)
        ensures
            r == self.speed(),
    {
        self.playback_speed
    }

    /// The selected address, if any.
    pub fn selected_address(&self) -> (r: Option<usize>)
        ensures
            r == self.selected(),
    {
        self.selected_address
    }

    /// How many cycles wait to be shown.
    pub fn pending_len(&self) -> (r: usize)
        ensures
            r == self.pending().len(),
    {
        self.pending_cycles.len()
    }

    /// Queues cycles to be shown after those already waiting.
    pub fn queue_cycle_events(&mut self, batches: Vec<Vec<CycleEvent>>)
        ensures
            final(self).pending() == old(self).pending() + batches@.map_values(
                |b: Vec<CycleEvent>| b@,
            ),
            final(self).core_state() == old(self).core_state(),
            final(self).paused() == old(self).paused(),
            final(self).speed() == old(self).speed(),
            final(self).selected() == old(self).selected(),
            final(self).details() == old(self).details(),
            final(self).counts() == old(self).counts(),
    {
        let ghost start = self.pending();
        let ghost added = batches@.map_values(|b: Vec<CycleEvent>| b@);
        let mut batches = batches;
        let mut rest: Vec<Vec<CycleEvent>> = Vec::new();
        // Take the batches in order: reverse once, then pop from the back.
        while batches.len() > 0
            invariant
                rest@.map_values(|b: Vec<CycleEvent>| b@) + batches@.map_values(
                    |b: Vec<CycleEvent>| b@,
                ).reverse() == added.reverse(),
            decreases batches@.len(),
        {
            let ghost before = batches@;
            let b = batches.pop().unwrap();
            rest.push(b);
            proof {
                assert(before =~= batches@.push(b));
                assert(batches@.push(b).map_values(|v: Vec<CycleEvent>| v@) =~= batches@.map_values(
                    |v: Vec<CycleEvent>| v@,
                ).push(b@));
                assert(batches@.map_values(|v: Vec<CycleEvent>| v@).push(b@).reverse()
                    =~= seq![b@] + batches@.map_values(|v: Vec<CycleEvent>| v@).reverse());
            }
            assert(rest@.map_values(|v: Vec<CycleEvent>| v@) + batches@.map_values(
                |v: Vec<CycleEvent>| v@,
            ).reverse() =~= added.reverse());
        }
        assert(rest@.map_values(|b: Vec<CycleEvent>| b@) =~= added.reverse());
        while rest.len() > 0
            invariant
                self.pending() + rest@.map_values(|b: Vec<CycleEvent>| b@).reverse() == start
                    + added,
                self.core == old(self).core,
                self.is_paused == old(self).is_paused,
                self.playback_speed == old(self).playback_speed,
                self.selected() == old(self).selected(),
                self.details() == old(self).details(),
                self.counts() == old(self).counts(),
            decreases rest@.len(),
        {
            let ghost before = rest@;
            let ghost queued = self.pending();
            let b = rest.pop().unwrap();
            self.pending_cycles.push_back(b);
            proof {
                assert(before =~= rest@.push(b));
                assert(self.pending() =~= queued.push(b@));
                assert(before.map_values(|v: Vec<CycleEvent>| v@) =~= rest@.map_values(
                    |v: Vec<CycleEvent>| v@,
                ).push(b@));
                assert(rest@.map_values(|v: Vec<CycleEvent>| v@).push(b@).reverse()
                    =~= seq![b@] + rest@.map_values(|v: Vec<CycleEvent>| v@).reverse());
            }
            assert(self.pending() + rest@.map_values(|v: Vec<CycleEvent>| v@).reverse() =~= start
                + added);
        }
        assert(self.pending() =~= start + added);
    }

    /// Shows a server snapshot: every owner and listing is cleared, then
    /// each listed cell takes the snapshot's owner and listing.
    pub fn apply_snapshot(&mut self, cells: &[CellInfo])
        ensures
            final(self).core_state().cells@ == with_owners(
                unowned(old(self).core_state().cells@),
                cells@,
            ),
            final(self).core_state().current_cycle == old(self).core_state().current_cycle,
            final(self).core_state().width == old(self).core_state().width,
            final(self).core_state().height == old(self).core_state().height,
            final(self).details() == with_listings(
                no_details(old(self).core_state().cells@.len()),
                cells@,
            ),
            final(self).paused() == old(self).paused(),
            final(self).speed() == old(self).speed(),
            final(self).pending() == old(self).pending(),
            final(self).selected() == old(self).selected(),
            final(self).counts() == old(self).counts(),
    {
        let n = self.core.cells.len();
        if self.cell_details.len() != n {
            self.cell_details = blank_listings(n);
            assert(self.cell_details@.map_values(|d: String| d@).len() == n);
        }
        let mut i: usize = 0;
        while i < n
            invariant
                i <= n,
                n == self.core.cells@.len(),
                n == self.cell_details@.len(),
                self.core.width == old(self).core.width,
                self.core.height == old(self).core.height,
                self.core.current_cycle == old(self).core.current_cycle,
                self.is_paused == old(self).is_paused,
                self.playback_speed == old(self).playback_speed,
                self.pending_cycles == old(self).pending_cycles,
                self.selected_address == old(self).selected_address,
                self.process_counts == old(self).process_counts,
                forall|k: int| 0 <= k < n ==> #[trigger] self.core.cells@[k] == if k < i {
                    CellState { owner: None, ..old(self).core.cells@[k] }
                } else {
                    old(self).core.cells@[k]
                },
                forall|k: int| 0 <= k < i ==> (#[trigger] self.cell_details@[k])@
                    == Seq::<char>::empty(),
            decreases n - i,
        {
            let cell = self.core.cells[i];
            self.core.cells.set(i, CellState { owner: None, last_access_cycle: cell.last_access_cycle });
            self.cell_details.set(i, String::new());
            i = i + 1;
        }
        assert(self.core.cells@ =~= unowned(old(self).core.cells@));
        assert(self.details() =~= no_details(n as nat));
        let ghost cleared = self.core.cells@;
        let ghost empty = self.details();
        let mut j: usize = 0;
        while j < cells.len()
            invariant
                j <= cells@.len(),
                n == self.cell_details@.len(),
                cleared.len() == n,
                self.core.width == old(self).core.width,
                self.core.height == old(self).core.height,
                self.core.current_cycle == old(self).core.current_cycle,
                self.is_paused == old(self).is_paused,
                self.playback_speed == old(self).playback_speed,
                self.pending_cycles == old(self).pending_cycles,
                self.selected_address == old(self).selected_address,
                self.process_counts == old(self).process_counts,
                self.core.cells@ == with_owners(cleared, cells@.take(j as int)),
                self.details() == with_listings(empty, cells@.take(j as int)),
                empty.len() == n,
            decreases cells@.len() - j,
        {
            proof {
                lemma_with_owners_len(cleared, cells@.take(j as int));
                lemma_with_listings_len(empty, cells@.take(j as int));
                assert(cells@.take(j + 1 as int).drop_last() =~= cells@.take(j as int));
                assert(cells@.take(j + 1 as int).last() == cells@[j as int]);
            }
            let address = cells[j].address;
            if address < self.core.cells.len() {
                let old_cell = self.core.cells[address];
                self.core.cells.set(
                    address,
                    CellState { owner: cells[j].owner, last_access_cycle: old_cell.last_access_cycle },
                );
            }
            if address < self.cell_details.len() {
                let ghost before = self.details();
                self.cell_details.set(address, cells[j].instruction_summary.clone());
                assert(self.details() =~= before.update(
                    address as int,
                    cells@[j as int].instruction_summary@,
                ));
            }
            j = j + 1;
        }
        assert(cells@.take(cells@.len() as int) =~= cells@);
    }

    /// Takes the process counts a roster announces, forgetting earlier ones.
    pub fn set_warriors(&mut self, warriors: &[WarriorInfo])
        ensures
            final(self).counts() == roster_counts(warriors@),
            final(self).core_state() == old(self).core_state(),
            final(self).paused() == old(self).paused(),
            final(self).speed() == old(self).speed(),
            final(self).pending() == old(self).pending(),
            final(self).selected() == old(self).selected(),
            final(self).details() == old(self).details(),
    {
        self.process_counts = roster(warriors);
    }

    /// Whether every process count can take `n` more processes.
    pub fn has_room_for(&self, n: usize) -> (r: bool)
        ensures
            r == counts_fit(self.counts(), n as int),
    {
        counts_have_room(&self.process_counts, n)
    }

    /// Shows one cycle: counts the processes born and killed, then replays
    /// the events on the core model; returns the addresses touched.
    pub fn apply_cycle_events(&mut self, events: &[CycleEvent]) -> (lit: Vec<usize>)
        requires
            counts_fit(old(self).counts(), events@.len() as int),
        ensures
            final(self).counts() == count_events(old(self).counts(), events@),
            final(self).core_state().current_cycle == next_cycle(
                old(self).core_state().current_cycle,
            ),
            final(self).core_state().cells@ == replay(
                old(self).core_state().cells@,
                events@,
                final(self).core_state().current_cycle,
            ),
            final(self).core_state().width == old(self).core_state().width,
            final(self).core_state().height == old(self).core_state().height,
            lit@ == touched(events@, old(self).core_state().cells@.len()),
            final(self).paused() == old(self).paused(),
            final(self).speed() == old(self).speed(),
            final(self).pending() == old(self).pending(),
            final(self).selected() == old(self).selected(),
            final(self).details() == old(self).details(),
    {
        count_cycle_events(&mut self.process_counts, events);
        self.core.apply_events(events)
    }

    /// Carries out an input action. Resetting and fitting the view are
    /// camera work left to the frontend, and change nothing here.
    pub fn apply_input_action(&mut self, action: InputAction)
        ensures
            final(self).paused() == (old(self).paused() != (action == InputAction::TogglePause)),
            final(self).speed() == match action {
                InputAction::IncreaseSpeed => spec_faster(old(self).speed()),
                InputAction::DecreaseSpeed => spec_slower(old(self).speed()),
                _ => old(self).speed(),
            },
            final(self).selected() == match action {
                InputAction::SelectAddress(a) => Some(a),
                _ => old(self).selected(),
            },
            final(self).core_state() == old(self).core_state(),
            final(self).pending() == old(self).pending(),
            final(self).details() == old(self).details(),
            final(self).counts() == old(self).counts(),
    {
        match action {
            InputAction::TogglePause => self.is_paused = !self.is_paused,
            InputAction::IncreaseSpeed => self.playback_speed = self.playback_speed.faster(),
            InputAction::DecreaseSpeed => self.playback_speed = self.playback_speed.slower(),
            InputAction::ResetView => {},
            InputAction::FitAll => {},
            InputAction::SelectAddress(address) => self.selected_address = Some(address),
        }
    }

    /// What the selection panel shows for `address` (see [`cell_info`]).
    pub fn selected_cell_info(&self, address: Option<usize>) -> (r: Option<SelectedCellInfo>)
        ensures
            match r {
                Some(info) => cell_info(self.core_state().cells@, self.details(), address)
                    == Some(selected_view(info)),
                None => cell_info(self.core_state().cells@, self.details(), address) is None,
            },
    {
        let a = match address {
            Some(a) => a,
            None => return None,
        };
        if a >= self.core.cells.len() {
            return None;
        }
        let owner = self.core.cells[a].owner;
        let instruction = if a < self.cell_details.len() && !self.cell_details[a].as_str().is_empty() {
            self.cell_details[a].clone()
        } else {
            "Unknown instruction".to_owned()
        };
        Some(SelectedCellInfo { address: a, instruction, owner })
    }

    /// Whether showing up to `cycles` waiting cycles keeps every process
    /// count within `usize`.
    pub fn can_advance(&self, cycles: usize) -> (r: bool)
        ensures
            r == counts_fit(
                self.counts(),
                events_in(self.pending().take(min_nat(cycles as nat, self.pending().len()) as int)),
            ),
    {
        let ghost q = self.pending();
        let k = if cycles < self.pending_cycles.len() {
            cycles
        } else {
            self.pending_cycles.len()
        };
        let mut total: usize = 0;
        let mut i: usize = 0;
        while i < k
            invariant
                i <= k,
                k <= q.len(),
                q == self.pending(),
                k == min_nat(cycles as nat, q.len()),
                total == events_in(q.take(i as int)),
            decreases k - i,
        {
            proof {
                assert(q.take(i + 1 as int).drop_last() =~= q.take(i as int));
                assert(q.take(i + 1 as int).last() == q[i as int]);
                assert(q[i as int] == self.pending_cycles@[i as int]@);
            }
            let size = self.pending_cycles[i].len();
            if size > usize::MAX - total {
                proof {
                    lemma_events_in_take_grows(q, i + 1, k as int);
                }
                return false;
            }
            total = total + size;
            i = i + 1;
        }
        self.has_room_for(total)
    }

    /// Shows up to `cycles` waiting cycles, oldest first (see
    /// [`Viewer::apply_cycle_events`]); returns the addresses touched.
    pub fn advance(&mut self, cycles: usize) -> (lit: Vec<usize>)
        requires
            counts_fit(
                old(self).counts(),
                events_in(
                    old(self).pending().take(
                        min_nat(cycles as nat, old(self).pending().len()) as int,
                    ),
                ),
            ),
        ensures
            ({
                let k = min_nat(cycles as nat, old(self).pending().len()) as int;
                let done = old(self).pending().take(k);
                &&& final(self).pending() == old(self).pending().skip(k)
                &&& (
                    final(self).counts(),
                    final(self).core_state().cells@,
                    final(self).core_state().current_cycle,
                ) == run_cycles(
                    old(self).counts(),
                    old(self).core_state().cells@,
                    old(self).core_state().current_cycle,
                    done,
                )
                &&& lit@ == touched_in(done, old(self).core_state().cells@.len())
            }),
            final(self).core_state().width == old(self).core_state().width,
            final(self).core_state().height == old(self).core_state().height,
            final(self).paused() == old(self).paused(),
            final(self).speed() == old(self).speed(),
            final(self).selected() == old(self).selected(),
            final(self).details() == old(self).details(),
    {
        let ghost start = old(self).pending();
        let ghost k = min_nat(cycles as nat, start.len()) as int;
        let ghost size = old(self).core.cells@.len();
        let mut lit: Vec<usize> = Vec::new();
        let mut done: usize = 0;
        assert(start.skip(0) =~= start);
        assert(start.take(0) =~= Seq::<Seq<CycleEvent>>::empty());
        while done < cycles && self.pending_cycles.len() > 0
            invariant
                done <= k,
                k == min_nat(cycles as nat, start.len()),
                start == old(self).pending(),
                self.pending() == start.skip(done as int),
                (self.counts(), self.core.cells@, self.core.current_cycle) == run_cycles(
                    old(self).counts(),
                    old(self).core.cells@,
                    old(self).core.current_cycle,
                    start.take(done as int),
                ),
                self.core.cells@.len() == size,
                size == old(self).core.cells@.len(),
                lit@ == touched_in(start.take(done as int), size),
                counts_fit(
                    self.counts(),
                    events_in(start.take(k)) - events_in(start.take(done as int)),
                ),
                self.core.width == old(self).core.width,
                self.core.height == old(self).core.height,
                self.is_paused == old(self).is_paused,
                self.playback_speed == old(self).playback_speed,
                self.selected_address == old(self).selected_address,
                self.details() == old(self).details(),
            decreases cycles - done,
        {
            let ghost queued = self.pending_cycles@;
            let events = self.pending_cycles.pop_front().unwrap();
            proof {
                let qv = queued.map_values(|b: Vec<CycleEvent>| b@);
                assert(qv == start.skip(done as int));
                assert(queued.len() > 0);
                assert(qv.len() == queued.len());
                assert(start.skip(done as int).len() > 0);
                assert(qv[0] == queued[0]@);
                assert(start.skip(done as int)[0] == start[done as int]);
                assert(events@ == start[done as int]);
                assert(self.pending_cycles@ =~= queued.subrange(1, queued.len() as int));
                assert(self.pending() =~= qv.subrange(1, qv.len() as int));
                assert(self.pending() =~= start.skip(done + 1 as int));
                assert(start.take(done + 1 as int).drop_last() =~= start.take(done as int));
                assert(start.take(done + 1 as int).last() == start[done as int]);
                lemma_events_in_take_grows(start, done + 1, k);
                lemma_count_events_fit(
                    self.counts(),
                    events@,
                    events_in(start.take(k)) - events_in(start.take(done + 1 as int)),
                );
            }
            let mut l = self.apply_cycle_events(events.as_slice());
            proof {
                lemma_replay_len(
                    run_cycles(
                        old(self).counts(),
                        old(self).core.cells@,
                        old(self).core.current_cycle,
                        start.take(done as int),
                    ).1,
                    events@,
                    self.core.current_cycle,
                );
            }
            lit.append(&mut l);
            done = done + 1;
        }
        proof {
            if done < k {
                assert(self.pending().len() == 0);
            }
        }
        lit
    }

    /// The number of warriors that own at least one cell.
    pub fn infer_alive_warriors(&self) -> (r: usize)
        ensures
            r == cell_owners(self.core_state().cells@).len(),
    {
        let cells = &self.core.cells;
        let mut seen: Vec<u32> = Vec::new();
        let mut i: usize = 0;
        while i < cells.len()
            invariant
                i <= cells@.len(),
                seen@.no_duplicates(),
                forall|x: u32| seen@.contains(x) <==> exists|j: int|
                    0 <= j < i && cells@[j].owner == Some(x),
            decreases cells@.len() - i,
        {
            let ghost before = seen@;
            if let Some(o) = cells[i].owner {
                if !contains_id(&seen, o) {
                    seen.push(o);
                }
            }
            proof {
                assert forall|x: u32| seen@.contains(x) implies exists|j: int|
                    0 <= j < i + 1 && cells@[j].owner == Some(x) by {
                    if before.contains(x) {
                        let j = choose|j: int| 0 <= j < i && cells@[j].owner == Some(x);
                        assert(0 <= j < i + 1 && cells@[j].owner == Some(x));
                    } else {
                        assert(cells@[i as int].owner == Some(x));
                    }
                }
                assert forall|x: u32| (exists|j: int| 0 <= j < i + 1 && cells@[j].owner == Some(x))
                    implies seen@.contains(x) by {
                    let j = choose|j: int| 0 <= j < i + 1 && cells@[j].owner == Some(x);
                    if j < i {
                        assert(before.contains(x));
                        let a = choose|a: int| 0 <= a < before.len() && before[a] == x;
                        assert(seen@[a] == x);
                    } else if !before.contains(x) {
                        assert(seen@.last() == x);
                    } else {
                        let a = choose|a: int| 0 <= a < before.len() && before[a] == x;
                        assert(seen@[a] == x);
                    }
                }
            }
            i = i + 1;
        }
        proof {
            assert(seen@.to_set() =~= cell_owners(cells@));
            seen@.unique_seq_to_set();
        }
        seen.len()
    }

    /// The process count of each warrior, in id order.
    pub fn process_overlay_entries(&self) -> (r: Vec<(u32, usize)>)
        ensures
            ascending_entries(r@, self.counts()),
    {
        entries_of(&self.process_counts)
    }

    /// How many warriors are alive: those with a live process, or, before
    /// any process count is known, those owning a cell.
    pub fn warriors_alive(&self) -> (r: usize)
        ensures
            r == if self.counts().is_empty() {
                cell_owners(self.core_state().cells@).len()
            } else {
                live_ids(self.counts()).len()
            },
    {
        if self.process_counts.is_empty() {
            self.infer_alive_warriors()
        } else {
            live_count(&self.process_counts)
        }
    }
}

/// Whether `id` occurs in `v`.
fn contains_id(v: &Vec<u32>, id: u32) -> (r: bool)
    ensures
        r == v@.contains(id),
{
    let mut i: usize = 0;
    while i < v.len()
        invariant
            i <= v@.len(),
            forall|j: int| 0 <= j < i ==> v@[j] != id,
        decreases v@.len() - i,
    {
        if v[i] == id {
            return true;
        }
        i = i + 1;
    }
    false
}

/// `n` empty listings.
fn blank_listings(n: usize) -> (r: Vec<String>)
    ensures
        r@.map_values(|d: String| d@) == no_details(n as nat),
{
    let mut r: Vec<String> = Vec::new();
    let mut i: usize = 0;
    while i < n
        invariant
            i <= n,
            r@.map_values(|d: String| d@) == no_details(i as nat),
        decreases n - i,
    {
        let ghost before = r@;
        let e = String::new();
        r.push(e);
        assert(r@.map_values(|d: String| d@) =~= before.map_values(|d: String| d@).push(e@));
        assert(r@.map_values(|d: String| d@) =~= no_details(i as nat + 1));
        i = i + 1;
    }
    r
}

} // verus!
