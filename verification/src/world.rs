//! The world that the agents share: the grid, the time, and every entity, each
//! known to the others by its index only.

pub use crate::clock::{Time, TICKS_PER_MINUTE};
use crate::geography::{Geography, Position};
use crate::human::{Human, Job};
use crate::item::{Inventory, Item};
use crate::plant::Crop;
use crate::weather::Weather;
use vstd::prelude::*;

verus! {

/// A place where resources are kept, with the id of its store.
#[derive(Copy, Clone, Debug, PartialEq, Eq)]
pub struct Container {
    pub location: Position,
    pub inventory_id: usize,
}

/// Everything that exists. Entities are added and never removed, so an index, once
/// given, stays good.
pub struct World {
    pub geography: Geography,
    pub humans: Vec<Human>,
    pub containers: Vec<Container>,
    pub time: Time,
    pub weather: Weather,
    pub crops: Vec<Crop>,
    pub inventories: Vec<Inventory>,
}

impl World {
    /// Whether every index that `human` holds names something that exists.
    pub open spec fn hosts(&self, human: &Human) -> bool {
        &&& human.inventory_id < self.inventories.len()
        &&& forall|j: int|
            0 <= j < human.owned_container_indeces.len() ==> (
            #[trigger] human.owned_container_indeces[j]) < self.containers.len()
        &&& match human.job {
            Job::Farmer(crop_id) => crop_id < self.crops.len(),
        }
    }

    /// The grid is a rectangle, the time is in range, and every index held anywhere
    /// names something that exists.
    pub open spec fn wf(&self) -> bool {
        &&& self.geography.wf()
        &&& self.time.wf()
        &&& forall|i: int|
            0 <= i < self.containers.len() ==> (#[trigger] self.containers[i]).inventory_id
                < self.inventories.len()
        &&& forall|i: int|
            0 <= i < self.crops.len() ==> (#[trigger] self.crops[i]).inventory_id
                < self.inventories.len()
        &&& forall|i: int| 0 <= i < self.humans.len() ==> self.hosts(#[trigger] &self.humans[i])
    }

    /// How much of `item` the store `inventory_id` holds.
    pub open spec fn stock_of(&self, inventory_id: int, item: Item) -> nat {
        self.inventories[inventory_id]@.count(item)
    }

    /// Whether every index that `human` holds names something that exists.
    pub fn is_host_of(&self, human: &Human) -> (ok: bool)
        ensures
            ok == self.hosts(human),
    {
        if human.inventory_id >= self.inventories.len() {
            return false;
        }
        match human.job {
            Job::Farmer(crop_id) => {
                if crop_id >= self.crops.len() {
                    return false;
                }
            },
        }
        let mut j: usize = 0;
        while j < human.owned_container_indeces.len()
            invariant
                j <= human.owned_container_indeces.len(),
                forall|k: int|
                    0 <= k < j ==> (#[trigger] human.owned_container_indeces[k])
                        < self.containers.len(),
            decreases human.owned_container_indeces.len() - j,
        {
            if human.owned_container_indeces[j] >= self.containers.len() {
                return false;
            }
            j = j + 1;
        }
        true
    }

    /// Whether the world is well formed.
    pub fn is_well_formed(&self) -> (ok: bool)
        ensures
            ok == self.wf(),
    {
        if !self.geography.is_well_formed() || !self.time.is_well_formed() {
            return false;
        }
        let mut i: usize = 0;
        while i < self.containers.len()
            invariant
                i <= self.containers.len(),
                forall|k: int|
                    0 <= k < i ==> (#[trigger] self.containers[k]).inventory_id
                        < self.inventories.len(),
            decreases self.containers.len() - i,
        {
            if self.containers[i].inventory_id >= self.inventories.len() {
                return false;
            }
            i = i + 1;
        }
        let mut i: usize = 0;
        while i < self.crops.len()
            invariant
                i <= self.crops.len(),
                forall|k: int|
                    0 <= k < i ==> (#[trigger] self.crops[k]).inventory_id < self.inventories.len(),
            decreases self.crops.len() - i,
        {
            if self.crops[i].inventory_id >= self.inventories.len() {
                return false;
            }
            i = i + 1;
        }
        let mut i: usize = 0;
        while i < self.humans.len()
            invariant
                i <= self.humans.len(),
                forall|k: int| 0 <= k < i ==> self.hosts(#[trigger] &self.humans[k]),
            decreases self.humans.len() - i,
        {
            if !self.is_host_of(&self.humans[i]) {
                return false;
            }
            i = i + 1;
        }
        true
    }
}

} // verus!
