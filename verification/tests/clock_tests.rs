use esytheism::clock::decimal;
use esytheism::world::{Time, TICKS_PER_MINUTE};

fn ticks(time: &mut Time, n: u32) {
    for _ in 0..n {
        time.tick();
    }
}

#[test]
fn time_begins_at_zero() {
    let time = Time::new();
    assert_eq!(
        time,
        Time { tick: 0, minute: 0, hour: 0, day: 0, weekday: 0, month: 0, year: 0 }
    );
    assert!(time.is_new_day());
}

#[test]
fn three_ticks_make_a_minute() {
    assert_eq!(TICKS_PER_MINUTE, 3);
    let mut time = Time::new();
    ticks(&mut time, 2);
    assert_eq!((time.tick, time.minute), (2, 0));
    time.tick();
    assert_eq!((time.tick, time.minute), (0, 1));
}

#[test]
fn counters_roll_over_at_their_sizes() {
    let mut time = Time::new();
    ticks(&mut time, 3 * 60);
    assert_eq!((time.tick, time.minute, time.hour), (0, 0, 1));
    ticks(&mut time, 3 * 60 * 23);
    assert_eq!((time.hour, time.day, time.weekday), (0, 1, 1));
    ticks(&mut time, 3 * 60 * 24 * 6);
    assert_eq!((time.day, time.weekday), (7, 0));
    ticks(&mut time, 3 * 60 * 24 * 23);
    assert_eq!((time.day, time.month, time.weekday), (0, 1, 2));
}

#[test]
fn last_tick_of_a_year_begins_the_next() {
    let mut time = Time { tick: 2, minute: 59, hour: 23, day: 29, weekday: 6, month: 11, year: 7 };
    time.tick();
    assert_eq!(
        time,
        Time { tick: 0, minute: 0, hour: 0, day: 0, weekday: 0, month: 0, year: 8 }
    );
}

#[test]
fn year_stays_at_its_greatest_value() {
    let mut time =
        Time { tick: 2, minute: 59, hour: 23, day: 29, weekday: 3, month: 11, year: u16::MAX };
    time.tick();
    assert_eq!(
        time,
        Time { tick: 0, minute: 0, hour: 0, day: 0, weekday: 4, month: 0, year: u16::MAX }
    );
}

#[test]
fn new_day_is_midnight_at_the_first_tick() {
    let mut time = Time::new();
    assert!(time.is_new_day());
    time.tick();
    assert!(!time.is_new_day());
    ticks(&mut time, 2);
    assert_eq!((time.hour, time.minute, time.tick), (0, 1, 0));
    assert!(!time.is_new_day());
    let half_past = Time { tick: 0, minute: 30, hour: 0, day: 0, weekday: 0, month: 0, year: 0 };
    assert!(!half_past.is_new_day());
    ticks(&mut time, 3 * 60 * 24 - 4);
    assert_eq!((time.day, time.hour, time.minute, time.tick), (0, 23, 59, 2));
    assert!(!time.is_new_day());
    time.tick();
    assert_eq!((time.day, time.hour, time.minute, time.tick), (1, 0, 0, 0));
    assert!(time.is_new_day());
    let mut days = 0;
    for _ in 0..(3 * 60 * 24) {
        time.tick();
        if time.is_new_day() {
            days += 1;
        }
    }
    assert_eq!(days, 1);
}

#[test]
fn date_of_the_first_moment() {
    assert_eq!(Time::new().date_string(), "Mon, Jan 01, 0001 00:00");
}

#[test]
fn date_counts_days_and_years_from_one() {
    let time = Time { tick: 1, minute: 59, hour: 23, day: 29, weekday: 6, month: 11, year: 1999 };
    assert_eq!(time.date_string(), "Sun, Dec 30, 2000 23:59");
    let other = Time { tick: 0, minute: 5, hour: 7, day: 8, weekday: 2, month: 5, year: 41 };
    assert_eq!(other.date_string(), "Wed, Jun 09, 0042 07:05");
    let late = Time { tick: 0, minute: 0, hour: 0, day: 0, weekday: 4, month: 8, year: u16::MAX };
    assert_eq!(late.date_string(), "Fri, Sep 01, 65536 00:00");
}

#[test]
fn decimal_pads_with_zeros() {
    assert_eq!(decimal(7, 2), "07");
    assert_eq!(decimal(0, 1), "0");
    assert_eq!(decimal(0, 0), "0");
    assert_eq!(decimal(0, 4), "0000");
    assert_eq!(decimal(42, 4), "0042");
    assert_eq!(decimal(12345, 4), "12345");
    assert_eq!(decimal(u64::MAX, 2), "18446744073709551615");
}
