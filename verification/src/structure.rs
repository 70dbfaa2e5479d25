//! Structure management: the durable buildings a player owns.

use vstd::prelude::*;

verus! {

/// A standing structure: its hit points and armor.
#[derive(Debug, Clone, Copy, PartialEq, Eq, Structural)]
pub struct Structure {
    pub max_hp: u16,
    pub hp: u16,
    pub attackable: bool,
    pub ar: u8,
}

impl Default for Structure {
    fn default() -> (r: Structure)
        ensures
            r == (Structure { max_hp: 0u16, hp: 0u16, attackable: false, ar: 0u8 }),
    {
        Structure { max_hp: 0, hp: 0, attackable: false, ar: 0 }
    }
}

impl Structure {
    /// The structure every player starts with: the base.
    pub fn player_base() -> (r: Structure)
        ensures
            r == (Structure { max_hp: 1000u16, hp: 1000u16, attackable: true, ar: 125u8 }),
    {
        Structure { max_hp: 1000, hp: 1000, attackable: true, ar: 125 }
    }
}

} // verus!
