//! Mines and the resources they extract: the per-tick yield update of a
//! completed mine.

use vstd::prelude::*;
use crate::construction::ConstructionSite;

verus! {

/// The kind of resource in a deposit.
#[derive(Debug, Clone, Copy, PartialEq, Eq, Structural)]
pub enum ResourceType {
    Wasmium,
}

/// A mine draws from a finite underlying deposit and stores what it
/// extracts, up to its own capacity, once its construction has finished.
#[derive(Debug, Clone, Copy, PartialEq, Eq, Structural)]
pub struct Mine {
    pub resource_type: ResourceType,
    pub deposit_qty: u32,
    pub max_qty: u32,
    pub current_qty: u32,
    pub yield_rate_ups: u32,
}

impl Mine {
    /// A fresh mine over a deposit; it starts empty.
    pub fn new(resource_type: ResourceType, max_qty: u32, deposit_qty: u32, yield_rate_ups: u32)
        -> (r: Mine)
        ensures
            r == (Mine { resource_type, deposit_qty, max_qty, current_qty: 0u32, yield_rate_ups }),
    {
        Mine { deposit_qty, resource_type, max_qty, current_qty: 0, yield_rate_ups }
    }
}

/// One tick of yield. A mine under construction, or one already at
/// capacity, is unchanged; otherwise the stored amount grows by the yield
/// rate, saturating and capped at capacity, and the deposit shrinks by the
/// yield rate, floored at zero.
pub open spec fn spec_mine_step(m: Mine, progress: u8) -> Mine {
    if progress < 100 {
        m
    } else if m.current_qty < m.max_qty {
        Mine {
            current_qty: {
                let summed: u32 = if m.current_qty + m.yield_rate_ups > 0xffffffff {
                    0xffffffffu32
                } else {
                    (m.current_qty + m.yield_rate_ups) as u32
                };
                if summed > m.max_qty {
                    m.max_qty
                } else {
                    summed
                }
            },
            deposit_qty: if m.deposit_qty >= m.yield_rate_ups {
                (m.deposit_qty - m.yield_rate_ups) as u32
            } else {
                0u32
            },
            ..m
        }
    } else {
        m
    }
}

/// Advance every (mine, construction site) pair by one tick of yield, in
/// place; the sites themselves are left untouched.
pub fn mines(units: &mut Vec<(Mine, ConstructionSite)>)
    ensures
        final(units)@.len() == old(units)@.len(),
        forall|i: int|
            0 <= i < old(units)@.len() ==> #[trigger] final(units)@[i] == (
                spec_mine_step(old(units)@[i].0, old(units)@[i].1.progress),
                old(units)@[i].1,
            ),
{
    let n: usize = units.len();
    let mut out: Vec<(Mine, ConstructionSite)> = Vec::new();
    let mut i: usize = 0;
    while i < n
        invariant
            i <= n,
            n == units@.len(),
            units@ == old(units)@,
            out@.len() == i,
            forall|k: int|
                0 <= k < i ==> #[trigger] out@[k] == (
                    spec_mine_step(old(units)@[k].0, old(units)@[k].1.progress),
                    old(units)@[k].1,
                ),
        decreases n - i,
    {
        let (m, site) = units[i];
        let stepped: Mine = if site.progress < 100 {
            m
        } else if m.current_qty < m.max_qty {
            let summed: u32 = if m.current_qty as u64 + m.yield_rate_ups as u64 > 0xffffffff {
                0xffffffff
            } else {
                m.current_qty + m.yield_rate_ups
            };
            Mine {
                current_qty: if summed > m.max_qty {
                    m.max_qty
                } else {
                    summed
                },
                deposit_qty: if m.deposit_qty >= m.yield_rate_ups {
                    m.deposit_qty - m.yield_rate_ups
                } else {
                    0
                },
                ..m
            }
        } else {
            m
        };
        out.push((stepped, site));
        i = i + 1;
    }
    *units = out;
}

} // verus!
