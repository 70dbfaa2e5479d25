//! Data-driven game parameters. The parameter file itself is read and parsed
//! outside the library; the library receives the plain table of construction
//! durations and answers lookups against it.

use vstd::prelude::*;
use crate::protocol::UnitType;

verus! {

/// Construction duration, in ticks, used for a unit type that the parameter
/// table does not configure.
pub const DEFAULT_CONSTRUCTION_TICKS: u64 = 1000;

/// Game parameters loaded at startup: how many ticks it takes to construct
/// each unit type. The first entry for a unit type wins.
#[derive(Debug, Clone)]
pub struct GameParameters {
    pub construction_times: Vec<(UnitType, u16)>,
}

impl Default for GameParameters {
    fn default() -> (r: GameParameters)
        ensures
            r.construction_times@.len() == 0,
    {
        GameParameters { construction_times: Vec::new() }
    }
}

/// First duration recorded for `ut` in `table`, if any.
pub open spec fn lookup_duration(table: Seq<(UnitType, u16)>, ut: UnitType) -> Option<u16>
    decreases table.len(),
{
    if table.len() == 0 {
        None
    } else if table[0].0 == ut {
        Some(table[0].1)
    } else {
        lookup_duration(table.drop_first(), ut)
    }
}

/// The construction duration the engine uses for `ut`: the configured value,
/// or [`DEFAULT_CONSTRUCTION_TICKS`] when the table does not mention `ut`.
pub open spec fn spec_configured_duration(p: GameParameters, ut: UnitType) -> u64 {
    match lookup_duration(p.construction_times@, ut) {
        Some(d) => d as u64,
        None => DEFAULT_CONSTRUCTION_TICKS,
    }
}

impl GameParameters {
    /// The configured construction duration for `ut`, if the table has one.
    pub fn duration_of(&self, ut: UnitType) -> (r: Option<u16>)
        ensures
            r == lookup_duration(self.construction_times@, ut),
    {
        let n: usize = self.construction_times.len();
        let mut i: usize = 0;
        proof {
            assert(self.construction_times@.skip(0) =~= self.construction_times@);
        }
        while i < n
            invariant
                i <= n,
                n == self.construction_times@.len(),
                lookup_duration(self.construction_times@, ut) == lookup_duration(self.construction_times@.skip(i as int), ut),
            decreases n - i,
        {
            let (key, value) = self.construction_times[i];
            proof {
                assert(self.construction_times@.skip(i as int)[0] == self.construction_times@[i as int]);
                assert(self.construction_times@.skip(i as int).drop_first() =~= self.construction_times@.skip(i as int + 1));
            }
            if key == ut {
                proof {
                    assert(self.construction_times@.skip(i as int).len() > 0);
                    assert(self.construction_times@.skip(i as int)[0] == (key, value));
                    assert(lookup_duration(self.construction_times@.skip(i as int), ut) == Some(value));
                    assert(lookup_duration(self.construction_times@, ut) == Some(value));
                }
                return Some(value);
            }
            i = i + 1;
        }
        proof {
            assert(self.construction_times@.skip(n as int) =~= Seq::<(UnitType, u16)>::empty());
        }
        None
    }

    /// The duration the engine will use for `ut`: configured, or the default.
    pub fn configured_duration(&self, ut: UnitType) -> (r: u64)
        ensures
            r == spec_configured_duration(*self, ut),
    {
        match self.duration_of(ut) {
            Some(d) => d as u64,
            None => DEFAULT_CONSTRUCTION_TICKS,
        }
    }
}

} // verus!
