//! Events emitted by the core during execution, filters over their kinds, and
//! the bus that collects them tagged with the cycle on which they occurred.
use vstd::prelude::*;

use crate::instruction::Instruction;

verus! {

/// Events emitted by the core during execution.
#[derive(Debug, Clone, Copy, PartialEq, Eq, Structural)]
pub enum CoreEvent {
    /// An instruction is about to be executed.
    Execute { address: usize, warrior_id: u32 },
    /// A memory cell was read while resolving an address.
    Read { address: usize, warrior_id: u32 },
    /// A memory cell was written to.
    MemoryWrite { address: usize, warrior_id: u32, instruction: Instruction },
    /// A new process was spawned.
    ProcessCreated { warrior_id: u32, address: usize },
    /// A process was killed (executed DAT or similar).
    ProcessKilled { warrior_id: u32, address: usize },
    /// A warrior has been eliminated (no remaining processes).
    WarriorEliminated { warrior_id: u32 },
    /// A complete cycle has finished.
    CycleComplete,
}

/// Event type identifiers used by [`EventFilter`].
#[derive(Debug, Clone, Copy, PartialEq, Eq, Structural)]
pub enum CoreEventKind {
    Execute,
    Read,
    MemoryWrite,
    ProcessCreated,
    ProcessKilled,
    WarriorEliminated,
    CycleComplete,
}

pub open spec fn spec_kind_bit(kind: CoreEventKind) -> u32 {
    match kind {
        CoreEventKind::Execute => 1,
        CoreEventKind::Read => 2,
        CoreEventKind::MemoryWrite => 4,
        CoreEventKind::ProcessCreated => 8,
        CoreEventKind::ProcessKilled => 16,
        CoreEventKind::WarriorEliminated => 32,
        CoreEventKind::CycleComplete => 64,
    }
}

pub open spec fn spec_event_kind(event: CoreEvent) -> CoreEventKind {
    match event {
        CoreEvent::Execute { .. } => CoreEventKind::Execute,
        CoreEvent::Read { .. } => CoreEventKind::Read,
        CoreEvent::MemoryWrite { .. } => CoreEventKind::MemoryWrite,
        CoreEvent::ProcessCreated { .. } => CoreEventKind::ProcessCreated,
        CoreEvent::ProcessKilled { .. } => CoreEventKind::ProcessKilled,
        CoreEvent::WarriorEliminated { .. } => CoreEventKind::WarriorEliminated,
        CoreEvent::CycleComplete => CoreEventKind::CycleComplete,
    }
}

pub open spec fn spec_event_warrior(event: CoreEvent) -> Option<u32> {
    match event {
        CoreEvent::Execute { warrior_id, .. } => Some(warrior_id),
        CoreEvent::Read { warrior_id, .. } => Some(warrior_id),
        CoreEvent::MemoryWrite { warrior_id, .. } => Some(warrior_id),
        CoreEvent::ProcessCreated { warrior_id, .. } => Some(warrior_id),
        CoreEvent::ProcessKilled { warrior_id, .. } => Some(warrior_id),
        CoreEvent::WarriorEliminated { warrior_id } => Some(warrior_id),
        CoreEvent::CycleComplete => None,
    }
}

impl CoreEventKind {
    fn bit(self) -> (b: u32)
        ensures
            b == spec_kind_bit(self),
    {
        match self {
            Self::Execute => 1,
            Self::Read => 2,
            Self::MemoryWrite => 4,
            Self::ProcessCreated => 8,
            Self::ProcessKilled => 16,
            Self::WarriorEliminated => 32,
            Self::CycleComplete => 64,
        }
    }
}

impl CoreEvent {
    pub fn kind(&self) -> (k: CoreEventKind)
        ensures
            k == spec_event_kind(*self),
    {
        match self {
            Self::Execute { .. } => CoreEventKind::Execute,
            Self::Read { .. } => CoreEventKind::Read,
            Self::MemoryWrite { .. } => CoreEventKind::MemoryWrite,
            Self::ProcessCreated { .. } => CoreEventKind::ProcessCreated,
            Self::ProcessKilled { .. } => CoreEventKind::ProcessKilled,
            Self::WarriorEliminated { .. } => CoreEventKind::WarriorEliminated,
            Self::CycleComplete => CoreEventKind::CycleComplete,
        }
    }

    pub fn warrior_id(&self) -> (w: Option<u32>)
        ensures
            w == spec_event_warrior(*self),
    {
        match *self {
            Self::Execute { warrior_id, .. } => Some(warrior_id),
            Self::Read { warrior_id, .. } => Some(warrior_id),
            Self::MemoryWrite { warrior_id, .. } => Some(warrior_id),
            Self::ProcessCreated { warrior_id, .. } => Some(warrior_id),
            Self::ProcessKilled { warrior_id, .. } => Some(warrior_id),
            Self::WarriorEliminated { warrior_id } => Some(warrior_id),
            Self::CycleComplete => None,
        }
    }
}

/// An execution event tagged with the cycle on which it occurred.
#[derive(Debug, Clone, Copy, PartialEq, Eq, Structural)]
pub struct TimedEvent {
    pub cycle: u64,
    pub event: CoreEvent,
}

/// Filter for subscribing to a subset of event kinds.
#[derive(Debug, Clone, Copy, PartialEq, Eq, Structural)]
pub struct EventFilter {
    mask: u32,
}

impl EventFilter {
    /// Whether the filter lets events of `kind` through.
    pub closed spec fn admits(self, kind: CoreEventKind) -> bool {
        self.mask & spec_kind_bit(kind) != 0
    }

    /// The filter stores no bit besides those of the seven kinds.
    pub closed spec fn wf(self) -> bool {
        self.mask < 128
    }

    /// The filter widened by `kind`.
    pub closed spec fn added(self, kind: CoreEventKind) -> EventFilter {
        EventFilter { mask: self.mask | spec_kind_bit(kind) }
    }

    pub fn all() -> (f: Self)
        ensures
            f.wf(),
            forall|k: CoreEventKind| f.admits(k),
    {
        let f = Self { mask: 127 };
        assert forall|k: CoreEventKind| f.admits(k) by {
            let b = spec_kind_bit(k);
            assert(127u32 & b != 0) by (bit_vector)
                requires
                    b == 1 || b == 2 || b == 4 || b == 8 || b == 16 || b == 32 || b == 64,
            ;
        }
        f
    }

    pub fn none() -> (f: Self)
        ensures
            f.wf(),
            forall|k: CoreEventKind| !f.admits(k),
    {
        let f = Self { mask: 0 };
        assert forall|k: CoreEventKind| !f.admits(k) by {
            let b = spec_kind_bit(k);
            assert(0u32 & b == 0) by (bit_vector);
            assert(f.mask == 0);
        }
        f
    }

    pub fn only(kind: CoreEventKind) -> (f: Self)
        ensures
            f.wf(),
            forall|k: CoreEventKind| f.admits(k) <==> k == kind,
    {
        let f = Self { mask: kind.bit() };
        assert(f.mask < 128);
        assert forall|k: CoreEventKind| f.admits(k) <==> k == kind by {
            lemma_bits_distinct(kind, k);
        }
        f
    }

    pub fn with_kind(self, kind: CoreEventKind) -> (f: Self)
        ensures
            f == self.added(kind),
            self.wf() ==> f.wf(),
            forall|k: CoreEventKind| f.admits(k) <==> (self.admits(k) || k == kind),
    {
        let f = Self { mask: self.mask | kind.bit() };
        proof {
            lemma_added_admits(self, kind);
        }
        f
    }

    pub fn matches_event(&self, event: &CoreEvent) -> (b: bool)
        ensures
            b == self.admits(spec_event_kind(*event)),
    {
        self.matches_kind(event.kind())
    }

    pub fn matches(&self, event: &TimedEvent) -> (b: bool)
        ensures
            b == self.admits(spec_event_kind(event.event)),
    {
        self.matches_event(&event.event)
    }

    pub fn matches_kind(&self, kind: CoreEventKind) -> (b: bool)
        ensures
            b == self.admits(kind),
    {
        self.mask & kind.bit() != 0
    }
}

/// Two kinds share a bit exactly when they are the same kind.
proof fn lemma_bits_distinct(k: CoreEventKind, j: CoreEventKind)
    ensures
        (spec_kind_bit(k) & spec_kind_bit(j) != 0) <==> k == j,
{
    let a = spec_kind_bit(k);
    let b = spec_kind_bit(j);
    assert(a & a != 0) by (bit_vector)
        requires
            a == 1 || a == 2 || a == 4 || a == 8 || a == 16 || a == 32 || a == 64,
    ;
    if k != j {
        assert(a != b);
        assert(a & b == 0) by (bit_vector)
            requires
                a == 1 || a == 2 || a == 4 || a == 8 || a == 16 || a == 32 || a == 64,
                b == 1 || b == 2 || b == 4 || b == 8 || b == 16 || b == 32 || b == 64,
                a != b,
        ;
    }
}

impl Default for EventFilter {
    fn default() -> (f: Self)
        ensures
            f.wf(),
            forall|k: CoreEventKind| f.admits(k),
    {
        Self::all()
    }
}

/// Simple event bus for collecting timed events during execution.
pub struct EventBus {
    cycle: u64,
    events: Vec<TimedEvent>,
}

impl EventBus {
    /// The cycle that newly emitted events are tagged with.
    pub closed spec fn current_cycle(&self) -> u64 {
        self.cycle
    }

    /// The events recorded and not yet drained, oldest first.
    pub closed spec fn recorded(&self) -> Seq<TimedEvent> {
        self.events@
    }

    pub fn new() -> (b: Self)
        ensures
            b.current_cycle() == 0,
            b.recorded() == Seq::<TimedEvent>::empty(),
    {
        Self { cycle: 0, events: Vec::new() }
    }

    pub fn cycle(&self) -> (c: u64)
        ensures
            c == self.current_cycle(),
    {
        self.cycle
    }

    pub fn set_cycle(&mut self, cycle: u64)
        ensures
            final(self).current_cycle() == cycle,
            final(self).recorded() == old(self).recorded(),
    {
        self.cycle = cycle;
    }

    pub fn emit(&mut self, event: CoreEvent)
        ensures
            final(self).current_cycle() == old(self).current_cycle(),
            final(self).recorded() == old(self).recorded().push(
                TimedEvent { cycle: old(self).current_cycle(), event },
            ),
    {
        let cycle = self.cycle();
        self.emit_timed(TimedEvent { cycle, event });
    }

    pub fn emit_timed(&mut self, event: TimedEvent)
        ensures
            final(self).current_cycle() == old(self).current_cycle(),
            final(self).recorded() == old(self).recorded().push(event),
    {
        self.events.push(event);
    }

    pub fn drain(&mut self) -> (drained: Vec<TimedEvent>)
        ensures
            drained@ == old(self).recorded(),
            final(self).recorded() == Seq::<TimedEvent>::empty(),
            final(self).current_cycle() == old(self).current_cycle(),
    {
        let mut taken: Vec<TimedEvent> = Vec::new();
        std::mem::swap(&mut taken, &mut self.events);
        taken
    }

    pub fn is_empty(&self) -> (b: bool)
        ensures
            b == (self.recorded().len() == 0),
    {
        self.events.len() == 0
    }

    pub fn len(&self) -> (n: usize)
        ensures
            n == self.recorded().len(),
    {
        self.events.len()
    }
}

impl Default for EventBus {
    fn default() -> (b: Self)
        ensures
            b.current_cycle() == 0,
            b.recorded() == Seq::<TimedEvent>::empty(),
    {
        Self::new()
    }
}

/// Draining gives back every event emitted since the last drain, in the
/// order emitted, each tagged with the cycle current when it was emitted.
pub proof fn lemma_emit_then_drain(
    b0: EventBus,
    b1: EventBus,
    b2: EventBus,
    e1: CoreEvent,
    e2: CoreEvent,
    drained: Seq<TimedEvent>,
)
    requires
        b0.recorded() == Seq::<TimedEvent>::empty(),
        b1.current_cycle() == b0.current_cycle(),
        b1.recorded() == b0.recorded().push(TimedEvent { cycle: b0.current_cycle(), event: e1 }),
        b2.current_cycle() == b1.current_cycle(),
        b2.recorded() == b1.recorded().push(TimedEvent { cycle: b1.current_cycle(), event: e2 }),
        drained == b2.recorded(),
    ensures
        drained == seq![
            TimedEvent { cycle: b0.current_cycle(), event: e1 },
            TimedEvent { cycle: b0.current_cycle(), event: e2 },
        ],
{
    assert(drained =~= seq![
        TimedEvent { cycle: b0.current_cycle(), event: e1 },
        TimedEvent { cycle: b0.current_cycle(), event: e2 },
    ]);
}

/// A filter made of `only(a)` widened by `b` admits exactly `a` and `b`.
pub proof fn lemma_filter_union(f0: EventFilter, f1: EventFilter, a: CoreEventKind, b: CoreEventKind)
    requires
        forall|k: CoreEventKind| f0.admits(k) <==> k == a,
        forall|k: CoreEventKind| f1.admits(k) <==> (f0.admits(k) || k == b),
    ensures
        forall|k: CoreEventKind| f1.admits(k) <==> (k == a || k == b),
{
}

/// A widened filter admits what the filter did and the added kind, and
/// stores no stray bit when the filter stores none.
pub proof fn lemma_added_admits(f: EventFilter, kind: CoreEventKind)
    ensures
        forall|k: CoreEventKind| #[trigger]
            f.added(kind).admits(k) <==> (f.admits(k) || k == kind),
        f.wf() ==> f.added(kind).wf(),
{
    let m = f.mask;
    let b = spec_kind_bit(kind);
    assert forall|k: CoreEventKind| #[trigger]
        f.added(kind).admits(k) <==> (f.admits(k) || k == kind) by {
        lemma_bits_distinct(kind, k);
        let a = spec_kind_bit(k);
        assert((m | b) & a != 0 <==> (m & a != 0 || b & a != 0)) by (bit_vector);
    }
    assert(m < 128 ==> (m | b) < 128) by (bit_vector)
        requires
            b == 1 || b == 2 || b == 4 || b == 8 || b == 16 || b == 32 || b == 64,
    ;
}

/// Two filters that store no stray bit are equal exactly when they admit
/// the same kinds.
pub proof fn lemma_filter_equality(f: EventFilter, g: EventFilter)
    requires
        f.wf(),
        g.wf(),
    ensures
        (f == g) <==> forall|k: CoreEventKind| #[trigger] f.admits(k) == g.admits(k),
{
    if forall|k: CoreEventKind| #[trigger] f.admits(k) == g.admits(k) {
        let a = f.mask;
        let b = g.mask;
        assert(f.admits(CoreEventKind::Execute) == g.admits(CoreEventKind::Execute));
        assert(f.admits(CoreEventKind::Read) == g.admits(CoreEventKind::Read));
        assert(f.admits(CoreEventKind::MemoryWrite) == g.admits(CoreEventKind::MemoryWrite));
        assert(f.admits(CoreEventKind::ProcessCreated) == g.admits(CoreEventKind::ProcessCreated));
        assert(f.admits(CoreEventKind::ProcessKilled) == g.admits(CoreEventKind::ProcessKilled));
        assert(f.admits(CoreEventKind::WarriorEliminated) == g.admits(
            CoreEventKind::WarriorEliminated,
        ));
        assert(f.admits(CoreEventKind::CycleComplete) == g.admits(CoreEventKind::CycleComplete));
        assert(a == b) by (bit_vector)
            requires
                a < 128,
                b < 128,
                (a & 1 != 0) == (b & 1 != 0),
                (a & 2 != 0) == (b & 2 != 0),
                (a & 4 != 0) == (b & 4 != 0),
                (a & 8 != 0) == (b & 8 != 0),
                (a & 16 != 0) == (b & 16 != 0),
                (a & 32 != 0) == (b & 32 != 0),
                (a & 64 != 0) == (b & 64 != 0),
        ;
    }
}

/// Adding a kind twice is adding it once.
pub proof fn lemma_added_twice(f: EventFilter, kind: CoreEventKind)
    ensures
        f.added(kind).added(kind) == f.added(kind),
{
    let m = f.mask;
    let b = spec_kind_bit(kind);
    assert((m | b) | b == m | b) by (bit_vector);
}

/// The order in which kinds are added does not matter.
pub proof fn lemma_added_commutes(f: EventFilter, a: CoreEventKind, b: CoreEventKind)
    ensures
        f.added(a).added(b) == f.added(b).added(a),
{
    let m = f.mask;
    let x = spec_kind_bit(a);
    let y = spec_kind_bit(b);
    assert((m | x) | y == (m | y) | x) by (bit_vector);
}

/// Adding a kind to a filter that admits every kind (such as
/// [`EventFilter::all`]) changes nothing.
pub proof fn lemma_added_to_all(f: EventFilter, kind: CoreEventKind)
    requires
        f.wf(),
        forall|k: CoreEventKind| #[trigger] f.admits(k),
    ensures
        f.added(kind) == f,
{
    lemma_added_admits(f, kind);
    lemma_filter_equality(f.added(kind), f);
}

} // verus!
