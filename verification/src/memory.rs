//! The core memory array — the battlefield where warriors fight.
use vstd::prelude::*;

use crate::event::{CoreEvent, EventBus, TimedEvent};
use crate::instruction::{spec_default_dat, Instruction};

verus! {

/// The core memory array. Addresses wrap around modulo the core size.
pub struct Core {
    memory: Vec<Instruction>,
    size: usize,
}

impl Core {
    #[verifier::type_invariant]
    spec fn inv(self) -> bool {
        self.memory@.len() == self.size
    }

    /// The cells of the core, address 0 first.
    pub closed spec fn cells(self) -> Seq<Instruction> {
        self.memory@
    }

    pub closed spec fn spec_size(self) -> usize {
        self.size
    }

    /// Create a new core of the given size, initialized to DAT 0, 0.
    pub fn new(size: usize) -> (c: Self)
        ensures
            c.spec_size() == size,
            c.cells() == Seq::new(size as nat, |i: int| spec_default_dat()),
    {
        let mut memory: Vec<Instruction> = Vec::new();
        let mut i: usize = 0;
        while i < size
            invariant
                i <= size,
                memory@ == Seq::new(i as nat, |k: int| spec_default_dat()),
            decreases size - i,
        {
            memory.push(Instruction::default_dat());
            i = i + 1;
            assert(memory@ =~= Seq::new(i as nat, |k: int| spec_default_dat()));
        }
        Self { memory, size }
    }

    /// Returns the core size.
    pub fn size(&self) -> (n: usize)
        ensures
            n == self.spec_size(),
            n == self.cells().len(),
    {
        proof {
            use_type_invariant(self);
        }
        self.size
    }

    /// Read an instruction at the given address (wraps around).
    pub fn read(&self, addr: usize) -> (r: &Instruction)
        requires
            self.spec_size() > 0,
        ensures
            *r == self.cells()[(addr % self.spec_size()) as int],
    {
        proof {
            use_type_invariant(self);
        }
        &self.memory[addr % self.size]
    }

    /// Write an instruction at the given address, emitting an event.
    pub fn write(&mut self, addr: usize, instr: Instruction, warrior_id: u32, event_bus: &mut EventBus)
        requires
            old(self).spec_size() > 0,
        ensures
            final(self).spec_size() == old(self).spec_size(),
            final(self).cells() == old(self).cells().update(
                (addr % old(self).spec_size()) as int,
                instr,
            ),
            final(event_bus).current_cycle() == old(event_bus).current_cycle(),
            final(event_bus).recorded() == old(event_bus).recorded().push(
                TimedEvent {
                    cycle: old(event_bus).current_cycle(),
                    event: CoreEvent::MemoryWrite {
                        address: (addr % old(self).spec_size()) as usize,
                        warrior_id,
                        instruction: instr,
                    },
                },
            ),
    {
        proof {
            use_type_invariant(&*self);
        }
        let normalized = addr % self.size;
        self.store(normalized, instr);
        event_bus.emit(CoreEvent::MemoryWrite { address: normalized, warrior_id, instruction: instr });
    }

    /// Direct mutable access without events (for loading warriors).
    pub fn load(&mut self, addr: usize, instr: Instruction)
        requires
            old(self).spec_size() > 0,
        ensures
            final(self).spec_size() == old(self).spec_size(),
            final(self).cells() == old(self).cells().update(
                (addr % old(self).spec_size()) as int,
                instr,
            ),
    {
        proof {
            use_type_invariant(&*self);
        }
        let normalized = addr % self.size;
        self.store(normalized, instr);
    }

    fn store(&mut self, index: usize, instr: Instruction)
        requires
            index < old(self).spec_size(),
        ensures
            final(self).spec_size() == old(self).spec_size(),
            final(self).cells() == old(self).cells().update(index as int, instr),
    {
        let mut taken = Core { memory: Vec::new(), size: 0 };
        std::mem::swap(self, &mut taken);
        proof {
            use_type_invariant(&taken);
        }
        let Core { mut memory, size } = taken;
        memory.set(index, instr);
        *self = Core { memory, size };
    }

    /// Get a slice of the entire memory (for visualization snapshots).
    pub fn as_slice(&self) -> (s: &[Instruction])
        ensures
            s@ == self.cells(),
    {
        self.memory.as_slice()
    }
}

/// Reading an address after writing it gives back what was written, and
/// every address that does not wrap onto the same cell keeps its contents.
pub proof fn lemma_read_after_write(
    before: Core,
    after: Core,
    addr: usize,
    instr: Instruction,
    other: usize,
)
    requires
        before.spec_size() > 0,
        after.spec_size() == before.spec_size(),
        after.cells() == before.cells().update((addr % before.spec_size()) as int, instr),
        before.cells().len() == before.spec_size(),
    ensures
        after.cells()[(addr % after.spec_size()) as int] == instr,
        other % after.spec_size() != addr % after.spec_size() ==> after.cells()[(other
            % after.spec_size()) as int] == before.cells()[(other % before.spec_size()) as int],
{
}

} // verus!
