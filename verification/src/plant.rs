//! Crops: stores that turn water into food when the sun shines.

use crate::geography::Position;
use crate::item::{Envelope, Item, ItemMessage};
use vstd::prelude::*;

verus! {

/// A crop at a place, with the id of the store that holds its water and food.
#[derive(Copy, Clone, Debug, PartialEq, Eq)]
pub struct Crop {
    pub location: Position,
    pub inventory_id: usize,
}

/// What a crop with the store `inventory_id` sends on a day with the given sun and
/// rain: first the rain as water, then one trade of a unit of water for a unit of
/// food for each unit of sun. All of it goes to the crop's own store, and so do the
/// answers to the trades.
pub open spec fn growth(inventory_id: usize, sun: u32, rain: u32) -> Seq<Envelope> {
    Seq::new(
        (sun + 1) as nat,
        |i: int|
            if i == 0 {
                Envelope { to: inventory_id, message: ItemMessage::GiveOrDrop(Item::Water, rain) }
            } else {
                Envelope {
                    to: inventory_id,
                    message: ItemMessage::Trade((Item::Food, 1), (Item::Water, 1), inventory_id),
                }
            },
    )
}

impl Crop {
    pub fn new(location: Position, inventory_id: usize) -> (crop: Crop)
        ensures
            crop == (Crop { location, inventory_id }),
    {
        Crop { location, inventory_id }
    }

    /// Returns the messages by which the crop grows on a day with the given sun and
    /// rain.
    pub fn grow(&self, sun: u32, rain: u32) -> (sent: Vec<Envelope>)
        ensures
            sent@ == growth(self.inventory_id, sun, rain),
    {
        let mut sent: Vec<Envelope> = Vec::new();
        sent.push(
            Envelope { to: self.inventory_id, message: ItemMessage::GiveOrDrop(Item::Water, rain) },
        );
        let mut i: u32 = 0;
        while i < sun
            invariant
                i <= sun,
                sent@ == growth(self.inventory_id, i, rain),
            decreases sun - i,
        {
            sent.push(
                Envelope {
                    to: self.inventory_id,
                    message: ItemMessage::Trade(
                        (Item::Food, 1),
                        (Item::Water, 1),
                        self.inventory_id,
                    ),
                },
            );
            i = i + 1;
        }
        sent
    }
}

} // verus!
