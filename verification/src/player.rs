//! Player identity and score.

use vstd::prelude::*;

verus! {

/// A player in the shard: its id and the key of its decision unit.
#[derive(Debug, Clone, PartialEq)]
pub struct Player {
    pub actor_key: String,
    pub id: String,
}

impl Default for Player {
    fn default() -> (r: Player)
        ensures
            r.actor_key@.len() == 0,
            r.id@.len() == 0,
    {
        Player { actor_key: String::new(), id: String::new() }
    }
}

/// A player's score. Every player starts at zero.
#[derive(Debug, Clone, Copy, PartialEq, Eq, Structural)]
pub struct Score {
    pub value: usize,
}

impl Default for Score {
    fn default() -> (r: Score)
        ensures
            r.value == 0,
    {
        Score { value: 0 }
    }
}

} // verus!
