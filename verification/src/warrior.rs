//! Metadata and loaded instructions for a warrior program.
use vstd::prelude::*;

use crate::instruction::Instruction;

verus! {

/// Metadata and loaded instructions for a warrior program.
#[derive(Debug, Clone)]
pub struct Warrior {
    /// Warrior name (from ;name directive).
    pub name: String,
    /// Author (from ;author directive).
    pub author: String,
    /// Strategy description (from ;strategy directive).
    pub strategy: Option<String>,
    /// Assembled instructions.
    pub instructions: Vec<Instruction>,
    /// Entry point offset (ORG/START).
    pub start_offset: usize,
    /// Unique identifier assigned during battle.
    pub id: u32,
}

/// The mathematical value of an assembled [`Warrior`].
pub ghost struct SpecWarrior {
    pub name: Seq<char>,
    pub author: Seq<char>,
    pub strategy: Option<Seq<char>>,
    pub instructions: Seq<Instruction>,
    pub start_offset: nat,
}

pub open spec fn warrior_view(w: Warrior) -> SpecWarrior {
    SpecWarrior {
        name: w.name@,
        author: w.author@,
        strategy: match w.strategy {
            Some(s) => Some(s@),
            None => None,
        },
        instructions: w.instructions@,
        start_offset: w.start_offset as nat,
    }
}

impl Warrior {
    pub fn new(name: &str, instructions: Vec<Instruction>) -> (w: Self)
        ensures
            w.name@ == name@,
            w.author@ == Seq::<char>::empty(),
            w.strategy is None,
            w.instructions@ == instructions@,
            w.start_offset == 0,
            w.id == 0,
    {
        Self {
            name: name.to_owned(),
            author: String::new(),
            strategy: None,
            instructions,
            start_offset: 0,
            id: 0,
        }
    }

    pub fn len(&self) -> (n: usize)
        ensures
            n == self.instructions@.len(),
    {
        self.instructions.len()
    }

    pub fn is_empty(&self) -> (b: bool)
        ensures
            b == (self.instructions@.len() == 0),
    {
        self.instructions.len() == 0
    }
}

} // verus!
