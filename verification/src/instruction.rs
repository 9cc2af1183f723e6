//! The Redcode instruction set: opcodes, addressing modes, modifiers and
//! instructions, with the case-insensitive name tables the assembler uses.
use vstd::prelude::*;

use crate::text::{chars_equal, to_upper, upper_seq};

verus! {

/// The 16 ICWS'94 opcodes plus NOP.
#[derive(Debug, Clone, Copy, PartialEq, Eq, Structural, Hash)]
pub enum Opcode {
    DAT,
    MOV,
    ADD,
    SUB,
    MUL,
    DIV,
    MOD,
    JMP,
    JMZ,
    JMN,
    DJN,
    SEQ,
    SNE,
    SLT,
    SPL,
    NOP,
}

/// Addressing modes as defined in ICWS'94 + pMARS extensions.
#[derive(Debug, Clone, Copy, PartialEq, Eq, Structural, Hash)]
pub enum AddressingMode {
    /// `#` — Immediate
    Immediate,
    /// `$` — Direct
    Direct,
    /// `*` — A-field indirect
    IndirectA,
    /// `@` — B-field indirect
    IndirectB,
    /// `<` — B-field indirect with pre-decrement
    PreDecIndirectB,
    /// `>` — B-field indirect with post-increment
    PostIncIndirectB,
    /// `{` — A-field indirect with pre-decrement
    PreDecIndirectA,
    /// `}` — A-field indirect with post-increment
    PostIncIndirectA,
}

/// Instruction modifiers.
#[derive(Debug, Clone, Copy, PartialEq, Eq, Structural, Hash)]
pub enum Modifier {
    A,
    B,
    AB,
    BA,
    F,
    X,
    I,
}

/// A single CoreWar instruction.
#[derive(Debug, Clone, Copy, PartialEq, Eq, Structural)]
pub struct Instruction {
    pub opcode: Opcode,
    pub modifier: Modifier,
    pub a_mode: AddressingMode,
    pub a_value: i32,
    pub b_mode: AddressingMode,
    pub b_value: i32,
}

pub open spec fn spec_instruction(
    opcode: Opcode,
    modifier: Modifier,
    a_mode: AddressingMode,
    a_value: i32,
    b_mode: AddressingMode,
    b_value: i32,
) -> Instruction {
    Instruction { opcode, modifier, a_mode, a_value, b_mode, b_value }
}

/// `DAT.F $0, $0`, the content of an empty core cell.
pub open spec fn spec_default_dat() -> Instruction {
    spec_instruction(
        Opcode::DAT,
        Modifier::F,
        AddressingMode::Direct,
        0,
        AddressingMode::Direct,
        0,
    )
}

impl Instruction {
    pub fn new(
        opcode: Opcode,
        modifier: Modifier,
        a_mode: AddressingMode,
        a_value: i32,
        b_mode: AddressingMode,
        b_value: i32,
    ) -> (r: Self)
        ensures
            r == spec_instruction(opcode, modifier, a_mode, a_value, b_mode, b_value),
    {
        Instruction { opcode, modifier, a_mode, a_value, b_mode, b_value }
    }

    pub fn default_dat() -> (r: Self)
        ensures
            r == spec_default_dat(),
    {
        Instruction {
            opcode: Opcode::DAT,
            modifier: Modifier::F,
            a_mode: AddressingMode::Direct,
            a_value: 0,
            b_mode: AddressingMode::Direct,
            b_value: 0,
        }
    }
}

impl Default for Instruction {
    fn default() -> (r: Self)
        ensures
            r == spec_default_dat(),
    {
        Self::default_dat()
    }
}

/// The opcode a name denotes, compared without regard to ASCII case.
pub open spec fn spec_opcode_named(name: Seq<char>) -> Option<Opcode> {
    let u = upper_seq(name);
    if u == seq!['D', 'A', 'T'] {
        Some(Opcode::DAT)
    } else if u == seq!['M', 'O', 'V'] {
        Some(Opcode::MOV)
    } else if u == seq!['A', 'D', 'D'] {
        Some(Opcode::ADD)
    } else if u == seq!['S', 'U', 'B'] {
        Some(Opcode::SUB)
    } else if u == seq!['M', 'U', 'L'] {
        Some(Opcode::MUL)
    } else if u == seq!['D', 'I', 'V'] {
        Some(Opcode::DIV)
    } else if u == seq!['M', 'O', 'D'] {
        Some(Opcode::MOD)
    } else if u == seq!['J', 'M', 'P'] {
        Some(Opcode::JMP)
    } else if u == seq!['J', 'M', 'Z'] {
        Some(Opcode::JMZ)
    } else if u == seq!['J', 'M', 'N'] {
        Some(Opcode::JMN)
    } else if u == seq!['D', 'J', 'N'] {
        Some(Opcode::DJN)
    } else if u == seq!['S', 'E', 'Q'] {
        Some(Opcode::SEQ)
    } else if u == seq!['S', 'N', 'E'] {
        Some(Opcode::SNE)
    } else if u == seq!['S', 'L', 'T'] {
        Some(Opcode::SLT)
    } else if u == seq!['S', 'P', 'L'] {
        Some(Opcode::SPL)
    } else if u == seq!['N', 'O', 'P'] {
        Some(Opcode::NOP)
    } else {
        None
    }
}

/// The modifier a name denotes, compared without regard to ASCII case.
pub open spec fn spec_modifier_named(name: Seq<char>) -> Option<Modifier> {
    let u = upper_seq(name);
    if u == seq!['A'] {
        Some(Modifier::A)
    } else if u == seq!['B'] {
        Some(Modifier::B)
    } else if u == seq!['A', 'B'] {
        Some(Modifier::AB)
    } else if u == seq!['B', 'A'] {
        Some(Modifier::BA)
    } else if u == seq!['F'] {
        Some(Modifier::F)
    } else if u == seq!['X'] {
        Some(Modifier::X)
    } else if u == seq!['I'] {
        Some(Modifier::I)
    } else {
        None
    }
}

/// The addressing mode a prefix character selects, if it is one.
pub open spec fn spec_mode_of(c: char) -> Option<AddressingMode> {
    if c == '#' {
        Some(AddressingMode::Immediate)
    } else if c == '$' {
        Some(AddressingMode::Direct)
    } else if c == '*' {
        Some(AddressingMode::IndirectA)
    } else if c == '@' {
        Some(AddressingMode::IndirectB)
    } else if c == '<' {
        Some(AddressingMode::PreDecIndirectB)
    } else if c == '>' {
        Some(AddressingMode::PostIncIndirectB)
    } else if c == '{' {
        Some(AddressingMode::PreDecIndirectA)
    } else if c == '}' {
        Some(AddressingMode::PostIncIndirectA)
    } else {
        None
    }
}

fn upper_is(u: &Vec<char>, t: &[char]) -> (b: bool)
    ensures
        b == (u@ == t@),
{
    chars_equal(u.as_slice(), t)
}

impl Opcode {
    /// Parses an opcode name, ignoring ASCII case.
    pub fn from_name(name: &[char]) -> (r: Option<Opcode>)
        ensures
            r == spec_opcode_named(name@),
    {
        let u = to_upper(name);
        if upper_is(&u, &['D', 'A', 'T']) {
            Some(Opcode::DAT)
        } else if upper_is(&u, &['M', 'O', 'V']) {
            Some(Opcode::MOV)
        } else if upper_is(&u, &['A', 'D', 'D']) {
            Some(Opcode::ADD)
        } else if upper_is(&u, &['S', 'U', 'B']) {
            Some(Opcode::SUB)
        } else if upper_is(&u, &['M', 'U', 'L']) {
            Some(Opcode::MUL)
        } else if upper_is(&u, &['D', 'I', 'V']) {
            Some(Opcode::DIV)
        } else if upper_is(&u, &['M', 'O', 'D']) {
            Some(Opcode::MOD)
        } else if upper_is(&u, &['J', 'M', 'P']) {
            Some(Opcode::JMP)
        } else if upper_is(&u, &['J', 'M', 'Z']) {
            Some(Opcode::JMZ)
        } else if upper_is(&u, &['J', 'M', 'N']) {
            Some(Opcode::JMN)
        } else if upper_is(&u, &['D', 'J', 'N']) {
            Some(Opcode::DJN)
        } else if upper_is(&u, &['S', 'E', 'Q']) {
            Some(Opcode::SEQ)
        } else if upper_is(&u, &['S', 'N', 'E']) {
            Some(Opcode::SNE)
        } else if upper_is(&u, &['S', 'L', 'T']) {
            Some(Opcode::SLT)
        } else if upper_is(&u, &['S', 'P', 'L']) {
            Some(Opcode::SPL)
        } else if upper_is(&u, &['N', 'O', 'P']) {
            Some(Opcode::NOP)
        } else {
            None
        }
    }
}

impl Modifier {
    /// Parses a modifier name, ignoring ASCII case.
    pub fn from_name(name: &[char]) -> (r: Option<Modifier>)
        ensures
            r == spec_modifier_named(name@),
    {
        let u = to_upper(name);
        let r = if u.len() == 1 {
            if u[0] == 'A' {
                Some(Modifier::A)
            } else if u[0] == 'B' {
                Some(Modifier::B)
            } else if u[0] == 'F' {
                Some(Modifier::F)
            } else if u[0] == 'X' {
                Some(Modifier::X)
            } else if u[0] == 'I' {
                Some(Modifier::I)
            } else {
                None
            }
        } else if u.len() == 2 && u[0] == 'A' && u[1] == 'B' {
            Some(Modifier::AB)
        } else if u.len() == 2 && u[0] == 'B' && u[1] == 'A' {
            Some(Modifier::BA)
        } else {
            None
        };
        proof {
            let ghost v = u@;
            assert((v.len() == 1 && v[0] == 'A') ==> v =~= seq!['A']);
            assert((v.len() == 1 && v[0] == 'B') ==> v =~= seq!['B']);
            assert((v.len() == 1 && v[0] == 'F') ==> v =~= seq!['F']);
            assert((v.len() == 1 && v[0] == 'X') ==> v =~= seq!['X']);
            assert((v.len() == 1 && v[0] == 'I') ==> v =~= seq!['I']);
            assert((v.len() == 2 && v[0] == 'A' && v[1] == 'B') ==> v =~= seq!['A', 'B']);
            assert((v.len() == 2 && v[0] == 'B' && v[1] == 'A') ==> v =~= seq!['B', 'A']);
        }
        r
    }
}

impl AddressingMode {
    /// The addressing mode a prefix character selects, if it is one.
    pub fn from_prefix(c: char) -> (r: Option<AddressingMode>)
        ensures
            r == spec_mode_of(c),
    {
        if c == '#' {
            Some(AddressingMode::Immediate)
        } else if c == '$' {
            Some(AddressingMode::Direct)
        } else if c == '*' {
            Some(AddressingMode::IndirectA)
        } else if c == '@' {
            Some(AddressingMode::IndirectB)
        } else if c == '<' {
            Some(AddressingMode::PreDecIndirectB)
        } else if c == '>' {
            Some(AddressingMode::PostIncIndirectB)
        } else if c == '{' {
            Some(AddressingMode::PreDecIndirectA)
        } else if c == '}' {
            Some(AddressingMode::PostIncIndirectA)
        } else {
            None
        }
    }
}

/// The modifier ICWS'94 implies when an instruction names none.
pub open spec fn spec_infer_modifier(
    opcode: Opcode,
    a_mode: AddressingMode,
    b_mode: AddressingMode,
) -> Modifier {
    match opcode {
        Opcode::DAT => Modifier::F,
        Opcode::MOV | Opcode::SEQ | Opcode::SNE => {
            if a_mode == AddressingMode::Immediate {
                Modifier::AB
            } else if b_mode == AddressingMode::Immediate {
                Modifier::B
            } else {
                Modifier::I
            }
        },
        Opcode::ADD | Opcode::SUB | Opcode::MUL | Opcode::DIV | Opcode::MOD => {
            if a_mode == AddressingMode::Immediate {
                Modifier::AB
            } else if b_mode == AddressingMode::Immediate {
                Modifier::B
            } else {
                Modifier::F
            }
        },
        Opcode::SLT => {
            if a_mode == AddressingMode::Immediate {
                Modifier::AB
            } else {
                Modifier::B
            }
        },
        Opcode::JMP | Opcode::JMZ | Opcode::JMN | Opcode::DJN | Opcode::SPL | Opcode::NOP => {
            Modifier::B
        },
    }
}

/// The modifier ICWS'94 implies when an instruction names none.
pub fn infer_modifier(opcode: Opcode, a_mode: AddressingMode, b_mode: AddressingMode) -> (m:
    Modifier)
    ensures
        m == spec_infer_modifier(opcode, a_mode, b_mode),
        (opcode == Opcode::MOV || opcode == Opcode::SEQ || opcode == Opcode::SNE) && a_mode
            != AddressingMode::Immediate && b_mode != AddressingMode::Immediate ==> m == Modifier::I,
{
    let a_imm = matches!(a_mode, AddressingMode::Immediate);
    let b_imm = matches!(b_mode, AddressingMode::Immediate);
    match opcode {
        Opcode::DAT => Modifier::F,
        Opcode::MOV | Opcode::SEQ | Opcode::SNE => {
            if a_imm {
                Modifier::AB
            } else if b_imm {
                Modifier::B
            } else {
                Modifier::I
            }
        },
        Opcode::ADD | Opcode::SUB | Opcode::MUL | Opcode::DIV | Opcode::MOD => {
            if a_imm {
                Modifier::AB
            } else if b_imm {
                Modifier::B
            } else {
                Modifier::F
            }
        },
        Opcode::SLT => {
            if a_imm {
                Modifier::AB
            } else {
                Modifier::B
            }
        },
        Opcode::JMP | Opcode::JMZ | Opcode::JMN | Opcode::DJN | Opcode::SPL | Opcode::NOP => {
            Modifier::B
        },
    }
}

/// The ICWS'94 defaults for the instructions that move or compare: `SEQ`
/// and `SNE` take the modifier `MOV` does, for every pair of modes; an
/// immediate A operand gives `AB`, else an immediate B operand gives `B`,
/// else the whole instruction (`I`) is moved or compared. Arithmetic on
/// two addressed operands works on both fields (`F`).
pub proof fn lemma_compare_defaults(a_mode: AddressingMode, b_mode: AddressingMode)
    ensures
        spec_infer_modifier(Opcode::SEQ, a_mode, b_mode) == spec_infer_modifier(
            Opcode::MOV,
            a_mode,
            b_mode,
        ),
        spec_infer_modifier(Opcode::SNE, a_mode, b_mode) == spec_infer_modifier(
            Opcode::MOV,
            a_mode,
            b_mode,
        ),
        a_mode == AddressingMode::Immediate ==> spec_infer_modifier(Opcode::MOV, a_mode, b_mode)
            == Modifier::AB,
        a_mode != AddressingMode::Immediate && b_mode == AddressingMode::Immediate
            ==> spec_infer_modifier(Opcode::MOV, a_mode, b_mode) == Modifier::B,
        a_mode != AddressingMode::Immediate && b_mode != AddressingMode::Immediate ==> {
            &&& spec_infer_modifier(Opcode::SEQ, a_mode, b_mode) == Modifier::I
            &&& spec_infer_modifier(Opcode::SNE, a_mode, b_mode) == Modifier::I
            &&& spec_infer_modifier(Opcode::MOV, a_mode, b_mode) == Modifier::I
            &&& spec_infer_modifier(Opcode::ADD, a_mode, b_mode) == Modifier::F
        },
{
}

/// The rest of the ICWS'94 defaults: `DAT` takes `F`; jumps, `SPL` and
/// `NOP` take `B`; `SLT` takes `AB` after an immediate A operand and `B`
/// otherwise; the arithmetic opcodes all take the same modifier, which
/// is `MOV`'s except that two addressed operands give `F`.
pub proof fn lemma_other_defaults(a_mode: AddressingMode, b_mode: AddressingMode)
    ensures
        spec_infer_modifier(Opcode::DAT, a_mode, b_mode) == Modifier::F,
        spec_infer_modifier(Opcode::JMP, a_mode, b_mode) == Modifier::B,
        spec_infer_modifier(Opcode::JMZ, a_mode, b_mode) == Modifier::B,
        spec_infer_modifier(Opcode::JMN, a_mode, b_mode) == Modifier::B,
        spec_infer_modifier(Opcode::DJN, a_mode, b_mode) == Modifier::B,
        spec_infer_modifier(Opcode::SPL, a_mode, b_mode) == Modifier::B,
        spec_infer_modifier(Opcode::NOP, a_mode, b_mode) == Modifier::B,
        spec_infer_modifier(Opcode::SLT, a_mode, b_mode) == if a_mode == AddressingMode::Immediate {
            Modifier::AB
        } else {
            Modifier::B
        },
        spec_infer_modifier(Opcode::SUB, a_mode, b_mode) == spec_infer_modifier(
            Opcode::ADD,
            a_mode,
            b_mode,
        ),
        spec_infer_modifier(Opcode::MUL, a_mode, b_mode) == spec_infer_modifier(
            Opcode::ADD,
            a_mode,
            b_mode,
        ),
        spec_infer_modifier(Opcode::DIV, a_mode, b_mode) == spec_infer_modifier(
            Opcode::ADD,
            a_mode,
            b_mode,
        ),
        spec_infer_modifier(Opcode::MOD, a_mode, b_mode) == spec_infer_modifier(
            Opcode::ADD,
            a_mode,
            b_mode,
        ),
        a_mode == AddressingMode::Immediate || b_mode == AddressingMode::Immediate
            ==> spec_infer_modifier(Opcode::ADD, a_mode, b_mode) == spec_infer_modifier(
            Opcode::MOV,
            a_mode,
            b_mode,
        ),
{
}

} // verus!
