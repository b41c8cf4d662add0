//! Canonicalization policies.
use vstd::prelude::*;

verus! {

/// Most literals a string node may have and still become an enum.
pub const STRING_ENUM_MAX: usize = 8;

/// Standard setting: literals inside a finite interval are dropped.
pub const KEEP_NUM_ATOMS_OUTSIDE_INTERVAL: bool = false;

/// Standard setting: no regex synthesis.
pub const ENABLE_GREX: bool = false;

/// Standard setting: no string enums.
pub const ENABLE_STRING_ENUMS: bool = false;

/// The switches of normalization.
#[derive(Clone, Copy, Debug, PartialEq, Eq, Structural)]
pub struct Policy {
    pub enable_string_enums: bool,
    pub enable_grex: bool,
    pub keep_num_atoms_outside_interval: bool,
}

impl Policy {
    /// The standard settings.
    pub fn standard() -> (r: Policy)
        ensures
            r == (Policy {
                enable_string_enums: ENABLE_STRING_ENUMS,
                enable_grex: ENABLE_GREX,
                keep_num_atoms_outside_interval: KEEP_NUM_ATOMS_OUTSIDE_INTERVAL,
            }),
    {
        Policy {
            enable_string_enums: ENABLE_STRING_ENUMS,
            enable_grex: ENABLE_GREX,
            keep_num_atoms_outside_interval: KEEP_NUM_ATOMS_OUTSIDE_INTERVAL,
        }
    }
}

} // verus!
