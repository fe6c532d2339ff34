use vstd::prelude::*;

verus! {

/// The kinds of resource that the economy knows.
#[derive(Debug, Clone, Copy, PartialEq, Eq, Structural)]
pub enum ResourceKind {
    Gold,
}

/// An amount of every resource kind.
#[derive(Debug, Clone, Copy, PartialEq, Eq, Structural)]
pub struct ResourceBag {
    pub gold: u32,
}

/// Returned when a bag cannot pay a cost.
#[derive(Debug, Clone, Copy, PartialEq, Eq, Structural)]
pub struct InsufficientFunds;

impl ResourceBag {
    /// A bag holding `amount` gold.
    pub fn gold(amount: u32) -> (r: Self)
        ensures
            r.gold == amount,
    {
        Self { gold: amount }
    }

    /// Adds `other` to this bag.
    pub fn add(&mut self, other: &ResourceBag)
        requires
            old(self).gold + other.gold <= u32::MAX,
        ensures
            final(self).gold == old(self).gold + other.gold,
    {
        self.gold = self.gold + other.gold;
    }

    /// Pays `other` out of this bag, or leaves the bag as it is when it holds too little.
    pub fn subtract(&mut self, other: &ResourceBag) -> (r: Result<(), InsufficientFunds>)
        ensures
            r is Ok <==> old(self).can_pay(*other),
            r is Ok ==> final(self).gold == old(self).gold - other.gold,
            r is Err ==> *final(self) == *old(self),
    {
        if self.gold < other.gold {
            return Err(InsufficientFunds);
        }
        self.gold = self.gold - other.gold;
        Ok(())
    }

    /// Whether this bag holds at least `cost`.
    pub open spec fn can_pay(self, cost: ResourceBag) -> bool {
        self.gold >= cost.gold
    }

    /// Whether this bag holds at least `cost`.
    pub fn can_afford(&self, cost: &ResourceBag) -> (r: bool)
        ensures
            r == self.can_pay(*cost),
    {
        self.gold >= cost.gold
    }
}

impl Default for ResourceBag {
    fn default() -> (r: Self)
        ensures
            r.gold == 0,
    {
        ResourceBag { gold: 0 }
    }
}

} // verus!
