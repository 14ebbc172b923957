//! Player identifiers: handed out in rising order, none of them twice.

use vstd::prelude::*;

verus! {

/// The source of player identifiers.
#[derive(Debug)]
pub struct PlayerIds {
    next: u64,
}

impl PlayerIds {
    /// How many identifiers have been handed out: they are the numbers below this.
    pub closed spec fn issued(&self) -> nat {
        self.next as nat
    }

    /// A source that has handed out nothing yet.
    pub fn new() -> (ids: PlayerIds)
        ensures
            ids.issued() == 0,
    {
        PlayerIds { next: 0 }
    }

    /// A source that goes on after `issued` identifiers have been handed out.
    pub fn starting_at(issued: u64) -> (ids: PlayerIds)
        ensures
            ids.issued() == issued,
    {
        PlayerIds { next: issued }
    }

    /// Hands out the next identifier: the smallest number not handed out
    /// before. `None` once `u64::MAX` identifiers are out.
    pub fn allocate(&mut self) -> (id: Option<u64>)
        ensures
            match id {
                Some(i) => i == old(self).issued() && final(self).issued() == old(self).issued()
                    + 1,
                None => old(self).issued() == u64::MAX && final(self).issued() == old(
                    self,
                ).issued(),
            },
    {
        if self.next == u64::MAX {
            None
        } else {
            let id = self.next;
            self.next = id + 1;
            Some(id)
        }
    }
}

} // verus!
