//! The capital ledger of a run.

use vstd::prelude::*;

verus! {

/// Capital that is free to trade with (`holding`) and capital that is tied up in open
/// positions (`inmarket`).
#[derive(Debug)]
pub struct Portfolio {
    pub holding: i32,
    pub inmarket: i32,
}

impl Portfolio {
    /// All the capital of the run, wherever it currently is.
    pub open spec fn total(self) -> int {
        self.holding + self.inmarket
    }

    /// Neither side is in debt, and the total can be held on one side.
    pub open spec fn wf(self) -> bool {
        &&& 0 <= self.holding
        &&& 0 <= self.inmarket
        &&& self.total() <= i32::MAX
    }

    /// Whether a trade of size `amt` may be opened: strictly more than `amt` must be free, so
    /// a ledger that holds exactly `amt` does not trade.
    pub open spec fn affords(self, amt: i32) -> bool {
        self.holding > amt
    }

    /// The ledger once `amt` has moved from the free side into the market.
    pub open spec fn committing(self, amt: i32) -> Portfolio {
        Portfolio { holding: (self.holding - amt) as i32, inmarket: (self.inmarket + amt) as i32 }
    }

    /// The ledger once `amt` has come back from the market to the free side.
    pub open spec fn releasing(self, amt: i32) -> Portfolio {
        Portfolio { holding: (self.holding + amt) as i32, inmarket: (self.inmarket - amt) as i32 }
    }

    /// A ledger with `holding` free and nothing in the market.
    pub fn new(holding: i32) -> (p: Portfolio)
        ensures
            p.holding == holding,
            p.inmarket == 0,
    {
        Portfolio { holding, inmarket: 0 }
    }

    /// Tells whether a trade of size `amt` may be opened.
    pub fn have_money(&self, amt: i32) -> (b: bool)
        ensures
            b == self.affords(amt),
    {
        self.holding > amt
    }

    /// Moves `amt` from the free side into the market.
    pub fn commit(&mut self, amt: i32)
        requires
            old(self).wf(),
            0 <= amt <= old(self).holding,
        ensures
            *final(self) == old(self).committing(amt),
            final(self).holding == old(self).holding - amt,
            final(self).inmarket == old(self).inmarket + amt,
            final(self).wf(),
            final(self).total() == old(self).total(),
    {
        self.holding = self.holding - amt;
        self.inmarket = self.inmarket + amt;
    }

    /// Moves `amt` back from the market to the free side.
    pub fn release(&mut self, amt: i32)
        requires
            old(self).wf(),
            0 <= amt <= old(self).inmarket,
        ensures
            *final(self) == old(self).releasing(amt),
            final(self).holding == old(self).holding + amt,
            final(self).inmarket == old(self).inmarket - amt,
            final(self).wf(),
            final(self).total() == old(self).total(),
    {
        self.holding = self.holding + amt;
        self.inmarket = self.inmarket - amt;
    }
}

} // verus!
