//! Construction-site progress: the per-tick numeric update a shard applies
//! to every site under construction.

use vstd::prelude::*;

verus! {

/// A structure being built: its completion percentage and how many points
/// of progress it gains per tick.
#[derive(Debug, Clone, Copy, PartialEq, Eq, Structural)]
pub struct ConstructionSite {
    pub progress: u8,
    pub progress_rate_pct: u8,
}

/// One tick of progress: the rate is added, saturating, and the result is
/// capped at 100.
pub open spec fn step_progress(progress: u8, rate: u8) -> u8 {
    let summed: u8 = if progress + rate > 255 {
        255u8
    } else {
        (progress + rate) as u8
    };
    if summed > 100 {
        100u8
    } else {
        summed
    }
}

/// Advance one site by one tick.
pub fn site_step(site: &mut ConstructionSite)
    ensures
        final(site).progress == step_progress(old(site).progress, old(site).progress_rate_pct),
        final(site).progress_rate_pct == old(site).progress_rate_pct,
{
    let summed: u8 = if site.progress as u16 + site.progress_rate_pct as u16 > 255 {
        255
    } else {
        site.progress + site.progress_rate_pct
    };
    site.progress = if summed > 100 {
        100
    } else {
        summed
    };
}

/// Advance every site by one tick, in place.
pub fn construction(sites: &mut Vec<ConstructionSite>)
    ensures
        final(sites)@.len() == old(sites)@.len(),
        forall|i: int|
            0 <= i < old(sites)@.len() ==> #[trigger] final(sites)@[i] == (ConstructionSite {
                progress: step_progress(old(sites)@[i].progress, old(sites)@[i].progress_rate_pct),
                progress_rate_pct: old(sites)@[i].progress_rate_pct,
            }),
{
    let n: usize = sites.len();
    let mut out: Vec<ConstructionSite> = Vec::new();
    let mut i: usize = 0;
    while i < n
        invariant
            i <= n,
            n == sites@.len(),
            sites@ == old(sites)@,
            out@.len() == i,
            forall|k: int|
                0 <= k < i ==> #[trigger] out@[k] == (ConstructionSite {
                    progress: step_progress(
                        old(sites)@[k].progress,
                        old(sites)@[k].progress_rate_pct,
                    ),
                    progress_rate_pct: old(sites)@[k].progress_rate_pct,
                }),
        decreases n - i,
    {
        let mut site = sites[i];
        site_step(&mut site);
        out.push(site);
        i = i + 1;
    }
    *sites = out;
}

} // verus!
