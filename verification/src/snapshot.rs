//! Text listings of instructions and the core snapshot a newly loaded
//! battle shows: every cell, with the instructions the warriors were loaded
//! with in place.
use vstd::prelude::*;

use crate::instruction::{spec_default_dat, AddressingMode, Instruction, Modifier, Opcode};
use crate::protocol::CellInfo;
use crate::text::{chars_of, decimal, decimal_chars, string_of};

verus! {

pub open spec fn opcode_name(op: Opcode) -> Seq<char> {
    match op {
        Opcode::DAT => "DAT"@,
        Opcode::MOV => "MOV"@,
        Opcode::ADD => "ADD"@,
        Opcode::SUB => "SUB"@,
        Opcode::MUL => "MUL"@,
        Opcode::DIV => "DIV"@,
        Opcode::MOD => "MOD"@,
        Opcode::JMP => "JMP"@,
        Opcode::JMZ => "JMZ"@,
        Opcode::JMN => "JMN"@,
        Opcode::DJN => "DJN"@,
        Opcode::SEQ => "SEQ"@,
        Opcode::SNE => "SNE"@,
        Opcode::SLT => "SLT"@,
        Opcode::SPL => "SPL"@,
        Opcode::NOP => "NOP"@,
    }
}

pub open spec fn modifier_name(m: Modifier) -> Seq<char> {
    match m {
        Modifier::A => "A"@,
        Modifier::B => "B"@,
        Modifier::AB => "AB"@,
        Modifier::BA => "BA"@,
        Modifier::F => "F"@,
        Modifier::X => "X"@,
        Modifier::I => "I"@,
    }
}

pub open spec fn mode_symbol(m: AddressingMode) -> Seq<char> {
    match m {
        AddressingMode::Immediate => "#"@,
        AddressingMode::Direct => "$"@,
        AddressingMode::IndirectA => "*"@,
        AddressingMode::IndirectB => "@"@,
        AddressingMode::PreDecIndirectB => "<"@,
        AddressingMode::PostIncIndirectB => ">"@,
        AddressingMode::PreDecIndirectA => "{"@,
        AddressingMode::PostIncIndirectA => "}"@,
    }
}

/// The decimal representation of a signed value.
pub open spec fn signed_decimal(v: i32) -> Seq<char> {
    if v < 0 {
        "-"@ + decimal((-v) as nat)
    } else {
        decimal(v as nat)
    }
}

/// An instruction in Redcode: `MOV.I $0, $1`.
pub open spec fn listing(i: Instruction) -> Seq<char> {
    opcode_name(i.opcode) + "."@ + modifier_name(i.modifier) + " "@ + mode_symbol(i.a_mode)
        + signed_decimal(i.a_value) + ", "@ + mode_symbol(i.b_mode) + signed_decimal(i.b_value)
}

fn opcode_text(op: Opcode) -> (r: &'static str)
    ensures
        r@ == opcode_name(op),
{
    match op {
        Opcode::DAT => "DAT",
        Opcode::MOV => "MOV",
        Opcode::ADD => "ADD",
        Opcode::SUB => "SUB",
        Opcode::MUL => "MUL",
        Opcode::DIV => "DIV",
        Opcode::MOD => "MOD",
        Opcode::JMP => "JMP",
        Opcode::JMZ => "JMZ",
        Opcode::JMN => "JMN",
        Opcode::DJN => "DJN",
        Opcode::SEQ => "SEQ",
        Opcode::SNE => "SNE",
        Opcode::SLT => "SLT",
        Opcode::SPL => "SPL",
        Opcode::NOP => "NOP",
    }
}

fn modifier_text(m: Modifier) -> (r: &'static str)
    ensures
        r@ == modifier_name(m),
{
    match m {
        Modifier::A => "A",
        Modifier::B => "B",
        Modifier::AB => "AB",
        Modifier::BA => "BA",
        Modifier::F => "F",
        Modifier::X => "X",
        Modifier::I => "I",
    }
}

fn mode_text(m: AddressingMode) -> (r: &'static str)
    ensures
        r@ == mode_symbol(m),
{
    match m {
        AddressingMode::Immediate => "#",
        AddressingMode::Direct => "$",
        AddressingMode::IndirectA => "*",
        AddressingMode::IndirectB => "@",
        AddressingMode::PreDecIndirectB => "<",
        AddressingMode::PostIncIndirectB => ">",
        AddressingMode::PreDecIndirectA => "{",
        AddressingMode::PostIncIndirectA => "}",
    }
}

fn signed_chars(v: i32) -> (r: Vec<char>)
    ensures
        r@ == signed_decimal(v),
{
    if v < 0 {
        let magnitude: u64 = if v == i32::MIN {
            2147483648
        } else {
            (-v) as u64
        };
        let mut r = chars_of("-");
        let mut digits = decimal_chars(magnitude);
        r.append(&mut digits);
        r
    } else {
        decimal_chars(v as u64)
    }
}

/// The Redcode listing of `instruction` (see [`listing`]).
pub fn instruction_listing(instruction: &Instruction) -> (r: String)
    ensures
        r@ == listing(*instruction),
{
    let mut r = chars_of(opcode_text(instruction.opcode));
    let mut dot = chars_of(".");
    let mut m = chars_of(modifier_text(instruction.modifier));
    let mut space = chars_of(" ");
    let mut am = chars_of(mode_text(instruction.a_mode));
    let mut av = signed_chars(instruction.a_value);
    let mut comma = chars_of(", ");
    let mut bm = chars_of(mode_text(instruction.b_mode));
    let mut bv = signed_chars(instruction.b_value);
    r.append(&mut dot);
    r.append(&mut m);
    r.append(&mut space);
    r.append(&mut am);
    r.append(&mut av);
    r.append(&mut comma);
    r.append(&mut bm);
    r.append(&mut bv);
    string_of(r.as_slice())
}

/// A warrior as loaded into a battle.
#[derive(Debug, Clone)]
pub struct LoadedWarrior {
    pub warrior_id: u32,
    pub start: usize,
    pub instructions: Vec<Instruction>,
}

/// The layout of a battle when it is loaded.
#[derive(Debug, Clone)]
pub struct BattleSetup {
    pub core_size: usize,
    pub warriors: Vec<LoadedWarrior>,
}

/// A snapshot cell as (address, owner, listing).
pub type CellView = (nat, Option<u32>, Seq<char>);

pub open spec fn cell_view(c: CellInfo) -> CellView {
    (c.address as nat, c.owner, c.instruction_summary@)
}

/// One cell write: the address, the owner and the instruction.
pub type CellWrite = (nat, u32, Instruction);

/// The cells warrior `w` occupies, in order.
pub open spec fn warrior_writes(w: LoadedWarrior, core_size: nat) -> Seq<CellWrite> {
    w.instructions@.map(|offset: int, i: Instruction| (((w.start + offset) % (core_size as int)) as nat, w.warrior_id, i))
}

/// The cells all of `ws` occupy, warrior by warrior.
pub open spec fn all_writes(ws: Seq<LoadedWarrior>, core_size: nat) -> Seq<CellWrite>
    decreases ws.len(),
{
    if ws.len() == 0 {
        Seq::empty()
    } else {
        all_writes(ws.drop_last(), core_size) + warrior_writes(ws.last(), core_size)
    }
}

/// `cells` after the writes, later writes winning.
pub open spec fn apply_writes(cells: Seq<CellView>, writes: Seq<CellWrite>) -> Seq<CellView>
    decreases writes.len(),
{
    if writes.len() == 0 {
        cells
    } else {
        let w = writes.last();
        apply_writes(cells, writes.drop_last()).update(w.0 as int, (w.0, Some(w.1), listing(w.2)))
    }
}

/// An empty core of `n` cells: each `DAT.F $0, $0` with no owner.
pub open spec fn empty_cells(n: nat) -> Seq<CellView> {
    Seq::new(n, |a: int| (a as nat, None::<u32>, listing(spec_default_dat())))
}

pub open spec fn setup_fits(setup: BattleSetup) -> bool {
    &&& setup.core_size > 0
    &&& forall|k: int|
        0 <= k < setup.warriors@.len() ==> (#[trigger] setup.warriors@[k]).start
            + setup.warriors@[k].instructions@.len() <= usize::MAX
}

/// The snapshot of a loaded battle: an empty core with each warrior's
/// instructions written from its start, wrapping around the core.
pub fn snapshot_from_setup(setup: &BattleSetup) -> (r: Vec<CellInfo>)
    requires
        setup_fits(*setup),
    ensures
        r@.map_values(|c: CellInfo| cell_view(c)) == apply_writes(
            empty_cells(setup.core_size as nat),
            all_writes(setup.warriors@, setup.core_size as nat),
        ),
{
    let n = setup.core_size;
    let ghost core = n as nat;
    let blank = instruction_listing(&Instruction::default_dat());
    let mut cells: Vec<CellInfo> = Vec::new();
    let mut address: usize = 0;
    while address < n
        invariant
            address <= n,
            blank@ == listing(spec_default_dat()),
            cells@.map_values(|c: CellInfo| cell_view(c)) == empty_cells(address as nat),
        decreases n - address,
    {
        let ghost before = cells@.map_values(|c: CellInfo| cell_view(c));
        let cell = CellInfo { address, owner: None, instruction_summary: blank.clone() };
        assert(cell_view(cell) == (address as nat, None::<u32>, listing(spec_default_dat())));
        cells.push(cell);
        assert(cells@.map_values(|c: CellInfo| cell_view(c)) =~= before.push(cell_view(cell)));
        assert(empty_cells(address as nat + 1) =~= empty_cells(address as nat).push(cell_view(cell)));
        address = address + 1;
    }
    let ghost initial = empty_cells(core);
    let mut w: usize = 0;
    assert(all_writes(setup.warriors@.take(0), core) =~= Seq::<CellWrite>::empty()) by {
        assert(setup.warriors@.take(0) =~= Seq::<LoadedWarrior>::empty());
    }
    while w < setup.warriors.len()
        invariant
            w <= setup.warriors@.len(),
            n == setup.core_size,
            core == n as nat,
            n > 0,
            setup_fits(*setup),
            initial == empty_cells(core),
            cells@.len() == n,
            cells@.map_values(|c: CellInfo| cell_view(c)) == apply_writes(
                initial,
                all_writes(setup.warriors@.take(w as int), core),
            ),
        decreases setup.warriors@.len() - w,
    {
        let warrior = &setup.warriors[w];
        let ghost done = all_writes(setup.warriors@.take(w as int), core);
        let ghost mine = warrior_writes(*warrior, core);
        assert(setup.warriors@.take(w + 1 as int).drop_last() =~= setup.warriors@.take(w as int));
        assert(all_writes(setup.warriors@.take(w + 1 as int), core) == done + mine);
        let mut o: usize = 0;
        assert(done + mine.take(0) =~= done);
        while o < warrior.instructions.len()
            invariant
                o <= warrior.instructions@.len(),
                w < setup.warriors@.len(),
                *warrior == setup.warriors@[w as int],
                warrior.start + warrior.instructions@.len() <= usize::MAX,
                n == setup.core_size,
                core == n as nat,
                n > 0,
                mine == warrior_writes(*warrior, core),
                cells@.len() == n,
                cells@.map_values(|c: CellInfo| cell_view(c)) == apply_writes(
                    initial,
                    done + mine.take(o as int),
                ),
            decreases warrior.instructions@.len() - o,
        {
            let instruction = warrior.instructions[o];
            let address = (warrior.start + o) % n;
            let summary = instruction_listing(&instruction);
            let ghost before = cells@.map_values(|c: CellInfo| cell_view(c));
            cells.set(address, CellInfo { address, owner: Some(warrior.warrior_id), instruction_summary: summary });
            assert(mine[o as int] == (address as nat, warrior.warrior_id, instruction));
            assert((done + mine.take(o + 1 as int)).drop_last() =~= done + mine.take(o as int));
            assert((done + mine.take(o + 1 as int)).last() == mine[o as int]);
            assert(cells@.map_values(|c: CellInfo| cell_view(c)) =~= before.update(
                address as int,
                (address as nat, Some(warrior.warrior_id), listing(instruction)),
            ));
            o = o + 1;
        }
        assert(mine.take(warrior.instructions@.len() as int) =~= mine);
        w = w + 1;
    }
    assert(setup.warriors@.take(setup.warriors@.len() as int) =~= setup.warriors@);
    cells
}

} // verus!
