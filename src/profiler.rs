use vstd::prelude::*;
use crate::driver::Strategy;

verus! {

/// Number of profiled regions.
pub const NUM_REGIONS: usize = 5;

/// The named regions whose cycles are accumulated: building the work, and
/// one per strategy.
#[derive(Debug, Clone, Copy, PartialEq, Eq, Structural)]
pub enum ProfileBlock {
    CreateWork,
    First,
    FilterSwapRemove,
    Fold,
    ForLoop,
}

/// Position of a region in the order CreateWork, First, FilterSwapRemove,
/// Fold, ForLoop.
pub open spec fn block_index(b: ProfileBlock) -> int {
    match b {
        ProfileBlock::CreateWork => 0,
        ProfileBlock::First => 1,
        ProfileBlock::FilterSwapRemove => 2,
        ProfileBlock::Fold => 3,
        ProfileBlock::ForLoop => 4,
    }
}

impl ProfileBlock {
    /// Position of the region, as `block_index` gives it.
    pub fn index(self) -> (r: usize)
        ensures
            r == block_index(self),
    {
        match self {
            ProfileBlock::CreateWork => 0,
            ProfileBlock::First => 1,
            ProfileBlock::FilterSwapRemove => 2,
            ProfileBlock::Fold => 3,
            ProfileBlock::ForLoop => 4,
        }
    }

    /// The region's name as it appears in the report.
    pub fn name(self) -> (r: &'static str)
        ensures
            self is CreateWork ==> r@ == "CreateWork"@,
            self is First ==> r@ == "First"@,
            self is FilterSwapRemove ==> r@ == "FilterSwapRemove"@,
            self is Fold ==> r@ == "Fold"@,
            self is ForLoop ==> r@ == "ForLoop"@,
    {
        match self {
            ProfileBlock::CreateWork => "CreateWork",
            ProfileBlock::First => "First",
            ProfileBlock::FilterSwapRemove => "FilterSwapRemove",
            ProfileBlock::Fold => "Fold",
            ProfileBlock::ForLoop => "ForLoop",
        }
    }

    /// The region in which a strategy is timed.
    pub fn of_strategy(st: Strategy) -> (r: ProfileBlock)
        ensures
            block_index(r) == crate::driver::strategy_index(st) + 1,
    {
        match st {
            Strategy::First => ProfileBlock::First,
            Strategy::FilterSwapRemove => ProfileBlock::FilterSwapRemove,
            Strategy::Fold => ProfileBlock::Fold,
            Strategy::ForLoop => ProfileBlock::ForLoop,
        }
    }
}

/// `a + b`, or `u64::MAX` where the sum does not fit.
pub open spec fn saturating_sum(a: u64, b: u64) -> u64 {
    if a + b > u64::MAX { u64::MAX } else { (a + b) as u64 }
}

/// Cycle totals and sample counts per region, indexed by `block_index`.
pub struct Profiler {
    pub totals: Vec<u64>,
    pub counts: Vec<u64>,
}

impl Profiler {
    /// One total and one count per region.
    pub open spec fn wf(&self) -> bool {
        self.totals@.len() == NUM_REGIONS && self.counts@.len() == NUM_REGIONS
    }

    /// An accumulator with every total and count at zero.
    pub fn new() -> (r: Profiler)
        ensures
            r.wf(),
            forall|k: int| 0 <= k < NUM_REGIONS ==> r.totals@[k] == 0 && r.counts@[k] == 0,
    {
        Profiler { totals: vec![0u64; NUM_REGIONS], counts: vec![0u64; NUM_REGIONS] }
    }

    /// Adds the cycles between two counter reads to `block`'s total and counts
    /// one more sample. A second read below the first counts as no cycles;
    /// totals and counts stop at `u64::MAX`.
    pub fn record(&mut self, block: ProfileBlock, start: u64, end: u64)
        requires
            old(self).wf(),
        ensures
            final(self).wf(),
            ({
                let k = block_index(block);
                let elapsed: u64 = if end >= start { (end - start) as u64 } else { 0 };
                &&& final(self).totals@ == old(self).totals@.update(k, saturating_sum(old(self).totals@[k], elapsed))
                &&& final(self).counts@ == old(self).counts@.update(k, saturating_sum(old(self).counts@[k], 1))
            }),
    {
        let k = block.index();
        let elapsed: u64 = if end >= start { end - start } else { 0 };
        let total = self.totals[k].saturating_add(elapsed);
        let count = self.counts[k].saturating_add(1);
        self.totals[k] = total;
        self.counts[k] = count;
    }

    /// Cycles accumulated in `block`.
    pub fn total(&self, block: ProfileBlock) -> (r: u64)
        requires
            self.wf(),
        ensures
            r == self.totals@[block_index(block)],
    {
        self.totals[block.index()]
    }

    /// Samples recorded in `block`.
    pub fn count(&self, block: ProfileBlock) -> (r: u64)
        requires
            self.wf(),
        ensures
            r == self.counts@[block_index(block)],
    {
        self.counts[block.index()]
    }

    /// Mean cycles per sample of `block`, rounded down; zero without samples.
    pub fn average(&self, block: ProfileBlock) -> (r: u64)
        requires
            self.wf(),
        ensures
            ({
                let k = block_index(block);
                &&& self.counts@[k] == 0 ==> r == 0
                &&& self.counts@[k] > 0 ==> r == self.totals@[k] / self.counts@[k]
            }),
    {
        let k = block.index();
        if self.counts[k] == 0 {
            0
        } else {
            self.totals[k] / self.counts[k]
        }
    }
}

} // verus!
