//! The weather of the day: how much sun and how much rain the crops get.

use vstd::prelude::*;

verus! {

/// Sun and rain of the current day. At most one of the two is above zero.
#[derive(Copy, Clone, Debug, PartialEq, Eq, Structural)]
pub struct Weather {
    pub sun: u32,
    pub rain: u32,
}

/// The amount that a weather level gives: the level itself, held at `u32::MAX`,
/// and nothing for a level below zero.
pub open spec fn amount(level: int) -> u32 {
    if level <= 0 {
        0
    } else if level > u32::MAX {
        u32::MAX
    } else {
        level as u32
    }
}

fn amount_of(level: i64) -> (n: u32)
    ensures
        n == amount(level as int),
{
    if level <= 0 {
        0
    } else if level > u32::MAX as i64 {
        u32::MAX
    } else {
        level as u32
    }
}

impl Weather {
    /// A day without sun or rain.
    pub fn new() -> (weather: Weather)
        ensures
            weather == (Weather { sun: 0, rain: 0 }),
    {
        Weather { sun: 0, rain: 0 }
    }

    /// Sets the weather of a new day from its level: a level above zero is that
    /// much sun, a level below zero that much rain.
    pub fn update(&mut self, level: i64)
        ensures
            final(self).sun == amount(level as int),
            final(self).rain == amount(-level),
    {
        if level > 0 {
            self.sun = amount_of(level);
            self.rain = 0;
        } else {
            self.rain = if level == i64::MIN {
                u32::MAX
            } else {
                amount_of(-level)
            };
            self.sun = 0;
        }
    }

    pub fn sun(&self) -> (sun: u32)
        ensures
            sun == self.sun,
    {
        self.sun
    }

    pub fn rain(&self) -> (rain: u32)
        ensures
            rain == self.rain,
    {
        self.rain
    }
}

} // verus!
