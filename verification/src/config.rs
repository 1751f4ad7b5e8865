//! The settings of a compilation, as the command line gives them.

use vstd::prelude::*;

verus! {

/// The tape size where none is given, in bytes.
pub const DEFAULT_HEAP_SIZE: u64 = 30000;

/// The optimization level where none is given.
pub const DEFAULT_OPT_LEVEL: u8 = 2;

/// How hard the backend should try. The level is passed on unchanged.
#[derive(Clone, Copy, Debug, PartialEq, Eq, Structural)]
pub enum OptLevel {
    /// Level 0: no optimization.
    O0,
    /// Level 1: less than the usual.
    O1,
    /// Level 2: the usual.
    O2,
    /// Level 3: aggressive.
    O3,
}

impl OptLevel {
    /// The number of the level.
    pub open spec fn number(self) -> int {
        match self {
            OptLevel::O0 => 0,
            OptLevel::O1 => 1,
            OptLevel::O2 => 2,
            OptLevel::O3 => 3,
        }
    }
}

/// The optimization level with number `level`; there is one for 0, 1, 2 and 3
/// and for no other number.
pub fn opt_level(level: u8) -> (r: Option<OptLevel>)
    ensures
        r is Some <==> level <= 3,
        r matches Some(chosen) ==> chosen.number() == level,
{
    match level {
        0 => Some(OptLevel::O0),
        1 => Some(OptLevel::O1),
        2 => Some(OptLevel::O2),
        3 => Some(OptLevel::O3),
        _ => None,
    }
}

} // verus!
