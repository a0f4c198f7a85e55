//! Simulated time: counters that roll over at fixed sizes, and the date as text.

use vstd::prelude::*;
use vstd::string::StringExecFns;

verus! {

pub const TICKS_PER_MINUTE: u8 = 3;

pub const MINUTES_PER_HOUR: u8 = 60;

pub const HOURS_PER_DAY: u8 = 24;

pub const DAYS_PER_MONTH: u8 = 30;

pub const DAYS_PER_WEEK: u8 = 7;

pub const MONTHS_PER_YEAR: u8 = 12;

/// A point in simulated time. Every counter starts at zero.
#[derive(Copy, Clone, Debug, PartialEq, Eq, Structural)]
pub struct Time {
    pub tick: u8,
    pub minute: u8,
    pub hour: u8,
    pub day: u8,
    pub weekday: u8,
    pub month: u8,
    pub year: u16,
}

/// The text of one decimal digit.
pub open spec fn digit_text(d: int) -> Seq<char> {
    if d == 0 {
        "0"@
    } else if d == 1 {
        "1"@
    } else if d == 2 {
        "2"@
    } else if d == 3 {
        "3"@
    } else if d == 4 {
        "4"@
    } else if d == 5 {
        "5"@
    } else if d == 6 {
        "6"@
    } else if d == 7 {
        "7"@
    } else if d == 8 {
        "8"@
    } else {
        "9"@
    }
}

/// The decimal text of `n`, with zeros in front where it has fewer than `width`
/// digits.
pub open spec fn decimal_text(n: nat, width: nat) -> Seq<char>
    decreases n + width,
{
    if n < 10 && width <= 1 {
        digit_text(n as int)
    } else {
        decimal_text(n / 10, (if width >= 1 {
            width - 1
        } else {
            0
        }) as nat) + digit_text((n % 10) as int)
    }
}

/// The short name of a weekday; the week begins on Monday.
pub open spec fn weekday_text(weekday: u8) -> Seq<char> {
    if weekday == 0 {
        "Mon"@
    } else if weekday == 1 {
        "Tue"@
    } else if weekday == 2 {
        "Wed"@
    } else if weekday == 3 {
        "Thu"@
    } else if weekday == 4 {
        "Fri"@
    } else if weekday == 5 {
        "Sat"@
    } else {
        "Sun"@
    }
}

/// The short name of a month.
pub open spec fn month_text(month: u8) -> Seq<char> {
    if month == 0 {
        "Jan"@
    } else if month == 1 {
        "Feb"@
    } else if month == 2 {
        "Mar"@
    } else if month == 3 {
        "Apr"@
    } else if month == 4 {
        "May"@
    } else if month == 5 {
        "Jun"@
    } else if month == 6 {
        "Jul"@
    } else if month == 7 {
        "Aug"@
    } else if month == 8 {
        "Sep"@
    } else if month == 9 {
        "Oct"@
    } else if month == 10 {
        "Nov"@
    } else {
        "Dec"@
    }
}

fn digit_str(d: u64) -> (s: &'static str)
    requires
        d < 10,
    ensures
        s@ == digit_text(d as int),
{
    if d == 0 {
        "0"
    } else if d == 1 {
        "1"
    } else if d == 2 {
        "2"
    } else if d == 3 {
        "3"
    } else if d == 4 {
        "4"
    } else if d == 5 {
        "5"
    } else if d == 6 {
        "6"
    } else if d == 7 {
        "7"
    } else if d == 8 {
        "8"
    } else {
        "9"
    }
}

/// Writes `n` in decimal, with zeros in front where it has fewer than `width`
/// digits.
pub fn decimal(n: u64, width: u32) -> (s: String)
    ensures
        s@ == decimal_text(n as nat, width as nat),
    decreases n + width,
{
    if n < 10 && width <= 1 {
        String::from_str(digit_str(n))
    } else {
        let rest = if width >= 1 {
            width - 1
        } else {
            0
        };
        decimal(n / 10, rest).concat(digit_str(n % 10))
    }
}

fn weekday_str(weekday: u8) -> (s: &'static str)
    ensures
        s@ == weekday_text(weekday),
{
    if weekday == 0 {
        "Mon"
    } else if weekday == 1 {
        "Tue"
    } else if weekday == 2 {
        "Wed"
    } else if weekday == 3 {
        "Thu"
    } else if weekday == 4 {
        "Fri"
    } else if weekday == 5 {
        "Sat"
    } else {
        "Sun"
    }
}

fn month_str(month: u8) -> (s: &'static str)
    ensures
        s@ == month_text(month),
{
    if month == 0 {
        "Jan"
    } else if month == 1 {
        "Feb"
    } else if month == 2 {
        "Mar"
    } else if month == 3 {
        "Apr"
    } else if month == 4 {
        "May"
    } else if month == 5 {
        "Jun"
    } else if month == 6 {
        "Jul"
    } else if month == 7 {
        "Aug"
    } else if month == 8 {
        "Sep"
    } else if month == 9 {
        "Oct"
    } else if month == 10 {
        "Nov"
    } else {
        "Dec"
    }
}

impl Time {
    /// Every counter is below the size at which it rolls over.
    pub open spec fn wf(&self) -> bool {
        &&& self.tick < TICKS_PER_MINUTE
        &&& self.minute < MINUTES_PER_HOUR
        &&& self.hour < HOURS_PER_DAY
        &&& self.day < DAYS_PER_MONTH
        &&& self.weekday < DAYS_PER_WEEK
        &&& self.month < MONTHS_PER_YEAR
    }

    /// Whether the moment is the first of a day: midnight, at the first tick.
    pub open spec fn begins_day(&self) -> bool {
        self.tick == 0 && self.minute == 0 && self.hour == 0
    }

    /// How many ticks lie between the first moment and this one.
    pub open spec fn ticks(&self) -> int {
        (((((self.year * MONTHS_PER_YEAR + self.month) * DAYS_PER_MONTH + self.day)
            * HOURS_PER_DAY + self.hour) * MINUTES_PER_HOUR + self.minute) * TICKS_PER_MINUTE)
            + self.tick
    }

    /// How many days lie between the first day and this one.
    pub open spec fn days(&self) -> int {
        (self.year * MONTHS_PER_YEAR + self.month) * DAYS_PER_MONTH + self.day
    }

    /// The moment one tick later. A counter that reaches its size goes back to zero
    /// and the next larger one counts up; the weekday moves on with the day. The
    /// year, the largest counter, stays at its greatest value once it is there.
    pub open spec fn next(self) -> Time {
        if self.tick + 1 < TICKS_PER_MINUTE {
            Time { tick: (self.tick + 1) as u8, ..self }
        } else if self.minute + 1 < MINUTES_PER_HOUR {
            Time { tick: 0, minute: (self.minute + 1) as u8, ..self }
        } else if self.hour + 1 < HOURS_PER_DAY {
            Time { tick: 0, minute: 0, hour: (self.hour + 1) as u8, ..self }
        } else {
            let weekday = ((self.weekday + 1) % (DAYS_PER_WEEK as int)) as u8;
            if self.day + 1 < DAYS_PER_MONTH {
                Time { tick: 0, minute: 0, hour: 0, day: (self.day + 1) as u8, weekday, ..self }
            } else if self.month + 1 < MONTHS_PER_YEAR {
                Time {
                    tick: 0,
                    minute: 0,
                    hour: 0,
                    day: 0,
                    weekday,
                    month: (self.month + 1) as u8,
                    ..self
                }
            } else {
                Time {
                    tick: 0,
                    minute: 0,
                    hour: 0,
                    day: 0,
                    weekday,
                    month: 0,
                    year: if self.year < u16::MAX {
                        (self.year + 1) as u16
                    } else {
                        self.year
                    },
                }
            }
        }
    }

    /// The date as text: weekday, month, day of the month, year and time of day,
    /// such as `Mon, Jan 01, 0001 00:00`. Days and years are counted from one.
    pub open spec fn date_text(&self) -> Seq<char> {
        weekday_text(self.weekday) + ", "@ + month_text(self.month) + " "@ + decimal_text(
            (self.day + 1) as nat,
            2,
        ) + ", "@ + decimal_text((self.year + 1) as nat, 4) + " "@ + decimal_text(
            self.hour as nat,
            2,
        ) + ":"@ + decimal_text(self.minute as nat, 2)
    }

    /// Whether every counter is below the size at which it rolls over.
    pub fn is_well_formed(&self) -> (ok: bool)
        ensures
            ok == self.wf(),
    {
        self.tick < TICKS_PER_MINUTE && self.minute < MINUTES_PER_HOUR && self.hour < HOURS_PER_DAY
            && self.day < DAYS_PER_MONTH && self.weekday < DAYS_PER_WEEK && self.month
            < MONTHS_PER_YEAR
    }

    /// The first moment.
    pub fn new() -> (time: Time)
        ensures
            time == (Time { tick: 0, minute: 0, hour: 0, day: 0, weekday: 0, month: 0, year: 0 }),
            time.wf(),
    {
        Time { tick: 0, minute: 0, hour: 0, day: 0, weekday: 0, month: 0, year: 0 }
    }

    /// Moves on by one tick.
    pub fn tick(&mut self)
        requires
            old(self).wf(),
        ensures
            *final(self) == old(self).next(),
            final(self).wf(),
    {
        self.tick += 1;
        if self.tick % TICKS_PER_MINUTE == 0 {
            self.tick = 0;
            self.minute += 1;
            if self.minute % MINUTES_PER_HOUR == 0 {
                self.minute = 0;
                self.hour += 1;
                if self.hour % HOURS_PER_DAY == 0 {
                    self.hour = 0;
                    self.day += 1;
                    if self.day % DAYS_PER_MONTH == 0 {
                        self.day = 0;
                        self.month += 1;
                        if self.month % MONTHS_PER_YEAR == 0 {
                            self.month = 0;
                            if self.year < u16::MAX {
                                self.year += 1;
                            }
                        }
                    }
                    self.weekday = (self.weekday + 1) % DAYS_PER_WEEK;
                }
            }
        }
    }

    /// Whether the moment is the first of a day.
    pub fn is_new_day(&self) -> (new_day: bool)
        ensures
            new_day == self.begins_day(),
    {
        self.tick == 0 && self.minute == 0 && self.hour == 0
    }

    /// The date as text.
    pub fn date_string(&self) -> (text: String)
        ensures
            text@ == self.date_text(),
    {
        let mut text = String::from_str(weekday_str(self.weekday));
        text.append(", ");
        text.append(month_str(self.month));
        text.append(" ");
        text.append(decimal(self.day as u64 + 1, 2).as_str());
        text.append(", ");
        text.append(decimal(self.year as u64 + 1, 4).as_str());
        text.append(" ");
        text.append(decimal(self.hour as u64, 2).as_str());
        text.append(":");
        text.append(decimal(self.minute as u64, 2).as_str());
        text
    }
}

/// One tick later is one tick later: the count of ticks since the first moment
/// grows by exactly one, the weekday moves on exactly when the day does, and the
/// counters stay below their sizes.
pub proof fn lemma_tick_counts_one(time: Time)
    requires
        time.wf(),
        time.year < u16::MAX,
    ensures
        time.next().wf(),
        time.next().ticks() == time.ticks() + 1,
        time.next().weekday == (time.weekday + (time.next().days() - time.days())) % 7,
        0 <= time.next().days() - time.days() <= 1,
{
}

} // verus!
