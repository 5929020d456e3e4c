use vstd::prelude::*;

verus! {

/// A counting semaphore without the waiting: a fixed number of permits, of
/// which each fetch in flight holds one.
#[derive(Debug)]
pub struct ConcurrencyBudget {
    limit: usize,
    in_use: usize,
}

impl ConcurrencyBudget {
    /// How many permits there are.
    pub closed spec fn spec_limit(&self) -> nat {
        self.limit as nat
    }

    /// How many permits are held.
    pub closed spec fn spec_in_use(&self) -> nat {
        self.in_use as nat
    }

    /// Never more permits are held than there are.
    pub open spec fn wf(&self) -> bool {
        self.spec_in_use() <= self.spec_limit()
    }

    /// A budget of `limit` permits, none of them held.
    pub fn new(limit: usize) -> (budget: Self)
        ensures
            budget.wf(),
            budget.spec_limit() == limit,
            budget.spec_in_use() == 0,
    {
        ConcurrencyBudget { limit, in_use: 0 }
    }

    /// How many permits there are.
    pub fn limit(&self) -> (n: usize)
        ensures
            n == self.spec_limit(),
    {
        self.limit
    }

    /// How many permits are held.
    pub fn in_use(&self) -> (n: usize)
        ensures
            n == self.spec_in_use(),
    {
        self.in_use
    }

    /// How many permits are free.
    pub fn available(&self) -> (n: usize)
        requires
            self.wf(),
        ensures
            n == self.spec_limit() - self.spec_in_use(),
    {
        self.limit - self.in_use
    }

    /// Takes a permit if one is free, and says whether it did.
    pub fn try_acquire(&mut self) -> (acquired: bool)
        requires
            old(self).wf(),
        ensures
            final(self).wf(),
            final(self).spec_limit() == old(self).spec_limit(),
            acquired == (old(self).spec_in_use() < old(self).spec_limit()),
            final(self).spec_in_use() == old(self).spec_in_use() + if acquired {
                1nat
            } else {
                0nat
            },
    {
        if self.in_use < self.limit {
            self.in_use = self.in_use + 1;
            true
        } else {
            false
        }
    }

    /// Gives a permit back if one is held, and says whether it did.
    pub fn release(&mut self) -> (released: bool)
        requires
            old(self).wf(),
        ensures
            final(self).wf(),
            final(self).spec_limit() == old(self).spec_limit(),
            released == (old(self).spec_in_use() > 0),
            final(self).spec_in_use() == old(self).spec_in_use() - if released {
                1nat
            } else {
                0nat
            },
    {
        if self.in_use > 0 {
            self.in_use = self.in_use - 1;
            true
        } else {
            false
        }
    }
}

} // verus!
