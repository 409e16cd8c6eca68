use vstd::prelude::*;

verus! {

/// Identity of an entity of the simulation. Two entities never share one.
#[derive(Debug, Clone, Copy, PartialEq, Eq, Hash, Structural)]
pub struct Id(pub usize);

impl Id {
    /// The number behind the identifier.
    pub fn raw(&self) -> (r: usize)
        ensures
            r == self.0,
    {
        self.0
    }
}

/// Hands out identifiers in increasing order, starting from zero.
pub struct IdGenerator {
    next_id: usize,
}

impl IdGenerator {
    /// How many identifiers were handed out so far. Every one of them is below
    /// this number, and every later one is at or above it.
    pub closed spec fn issued(&self) -> nat {
        self.next_id as nat
    }

    /// A generator that has handed out nothing yet.
    pub fn new() -> (r: Self)
        ensures
            r.issued() == 0,
    {
        Self { next_id: 0 }
    }

    /// Whether another identifier can be handed out.
    pub fn has_next(&self) -> (r: bool)
        ensures
            r == (self.issued() < usize::MAX),
    {
        self.next_id < usize::MAX
    }

    /// How many identifiers can still be handed out.
    pub fn remaining(&self) -> (r: usize)
        ensures
            r == usize::MAX - self.issued(),
    {
        usize::MAX - self.next_id
    }

    /// The next identifier: one that no earlier call returned.
    pub fn gen(&mut self) -> (id: Id)
        requires
            old(self).issued() < usize::MAX,
        ensures
            id.0 == old(self).issued(),
            final(self).issued() == old(self).issued() + 1,
    {
        let id = Id(self.next_id);
        self.next_id += 1;
        id
    }
}

} // verus!
