use esytheism::geography::Position;
use esytheism::item::{Envelope, Item, ItemMessage};
use esytheism::plant::Crop;
use esytheism::weather::Weather;

#[test]
fn crop_keeps_what_it_was_made_with() {
    let crop = Crop::new(Position::new(3, 4), 5);
    assert_eq!(crop.location, Position { x: 3, y: 4 });
    assert_eq!(crop.inventory_id, 5);
}

#[test]
fn crop_asks_for_rain_and_one_trade_per_unit_of_sun() {
    let crop = Crop::new(Position::new(3, 4), 5);
    let sent = crop.grow(2, 7);
    let trade = Envelope {
        to: 5,
        message: ItemMessage::Trade((Item::Food, 1), (Item::Water, 1), 5),
    };
    assert_eq!(
        sent,
        vec![
            Envelope { to: 5, message: ItemMessage::GiveOrDrop(Item::Water, 7) },
            trade,
            trade,
        ]
    );
}

#[test]
fn crop_without_sun_only_takes_rain() {
    let crop = Crop::new(Position::new(0, 0), 1);
    assert_eq!(
        crop.grow(0, 0),
        vec![Envelope { to: 1, message: ItemMessage::GiveOrDrop(Item::Water, 0) }]
    );
}

#[test]
fn weather_begins_without_sun_or_rain() {
    let weather = Weather::new();
    assert_eq!(weather.sun(), 0);
    assert_eq!(weather.rain(), 0);
}

#[test]
fn level_above_zero_is_sun() {
    let mut weather = Weather::new();
    weather.update(3);
    assert_eq!((weather.sun(), weather.rain()), (3, 0));
    weather.update(i64::MAX);
    assert_eq!((weather.sun(), weather.rain()), (u32::MAX, 0));
}

#[test]
fn level_below_zero_is_rain() {
    let mut weather = Weather::new();
    weather.update(3);
    weather.update(-2);
    assert_eq!((weather.sun(), weather.rain()), (0, 2));
    weather.update(i64::MIN);
    assert_eq!((weather.sun(), weather.rain()), (0, u32::MAX));
    weather.update(0);
    assert_eq!((weather.sun(), weather.rain()), (0, 0));
}
