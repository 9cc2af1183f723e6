//! CoreWar: the Redcode assembler, the core data model, and the bookkeeping
//! around battles, tournaments and the server, specified and verified.
use vstd::prelude::*;

pub mod battle;
pub mod constants;
pub mod counts;
pub mod event;
pub mod expr;
pub mod instances;
pub mod instruction;
pub mod leaderboard;
pub mod link;
pub mod lexer;
pub mod memory;
pub mod parse_error;
pub mod parser;
pub mod process;
pub mod registry;
pub mod rounds;
pub mod server;
pub mod snapshot;
pub mod standings;
pub mod protocol;
pub mod symbols;
pub mod sync;
pub mod text;
pub mod tournament;
pub mod viewer;
pub mod viz;
pub mod warrior;

pub use constants::{CORESIZE, MAXCYCLES, MAXLENGTH, MAXPROCESSES, MAXWARRIORS, MINDISTANCE};
pub use event::{CoreEvent, CoreEventKind, EventBus, EventFilter, TimedEvent};
pub use instruction::{AddressingMode, Instruction, Modifier, Opcode};
pub use memory::Core;
pub use parse_error::ParseError;
pub use parser::parse_warrior;
pub use process::ProcessQueue;
pub use warrior::Warrior;

verus! {

} // verus!
