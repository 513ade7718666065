//! The wood inventory carried by an agent: a current count and a
//! capacity.

use vstd::prelude::*;

verus! {

/// A wood inventory: how much is held and how much fits.
#[derive(Debug, Clone, Copy, PartialEq, Eq, Structural)]
pub struct InventoryComponent {
    pub wood: u32,
    pub max_wood: u32,
}

impl InventoryComponent {
    /// Adds gathered wood to the inventory.
    pub fn add_wood(&mut self, amount: u32)
        requires
            old(self).wood + amount <= u32::MAX,
        ensures
            final(self).wood == old(self).wood + amount,
            final(self).max_wood == old(self).max_wood,
    {
        self.wood += amount;
    }

    /// Takes wood out of the inventory.
    pub fn remove_wood(&mut self, amount: u32)
        requires
            amount <= old(self).wood,
        ensures
            final(self).wood == old(self).wood - amount,
            final(self).max_wood == old(self).max_wood,
    {
        self.wood -= amount;
    }

    /// The amount of wood held.
    pub fn get_wood(&self) -> (r: u32)
        ensures
            r == self.wood,
    {
        self.wood
    }

    /// Whether the inventory is at (or beyond) capacity.
    pub fn is_full(&self) -> (r: bool)
        ensures
            r == (self.wood >= self.max_wood),
    {
        self.wood >= self.max_wood
    }
}

} // verus!
