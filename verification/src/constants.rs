//! Default ICWS'94 runtime constants.
use vstd::prelude::*;

verus! {

/// Default core size.
pub const CORESIZE: usize = 8000;

/// Default maximum cycle count before a tie is declared.
pub const MAXCYCLES: usize = 80000;

/// Default maximum processes per warrior.
pub const MAXPROCESSES: usize = 8000;

/// Default maximum warrior length in instructions.
pub const MAXLENGTH: usize = 100;

/// Default minimum load distance between warriors.
pub const MINDISTANCE: usize = 100;

/// Default warrior count for a standard match.
pub const MAXWARRIORS: usize = 2;

} // verus!
