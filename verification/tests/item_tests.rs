use esytheism::item::{Envelope, Inventory, Item, ItemMessage, WEIGHT_SCALE};

fn store_with(capacity_units: u64, food: u32, money: u32, water: u32) -> Inventory {
    let mut store = Inventory::new(capacity_units * WEIGHT_SCALE);
    assert_eq!(store.do_give_up_to(Item::Food, food), food);
    assert_eq!(store.do_give_up_to(Item::Money, money), money);
    assert_eq!(store.do_give_up_to(Item::Water, water), water);
    store
}

#[test]
fn unit_weights_are_in_tenths() {
    assert_eq!(Item::Food.weight(), 10);
    assert_eq!(Item::Water.weight(), 10);
    assert_eq!(Item::Money.weight(), 1);
    assert_eq!(WEIGHT_SCALE, 10);
}

#[test]
fn new_store_is_empty() {
    let store = Inventory::new(123);
    assert_eq!(store.capacity(), 123);
    assert_eq!(store.weight(), 0);
    assert_eq!(store.count(Item::Food), 0);
    assert_eq!(store.count(Item::Money), 0);
    assert_eq!(store.count(Item::Water), 0);
}

#[test]
fn give_fifteen_into_capacity_ten_gives_ten() {
    let mut store = Inventory::new(10 * WEIGHT_SCALE);
    assert_eq!(store.do_give_up_to(Item::Food, 15), 10);
    assert_eq!(store.count(Item::Food), 10);
    assert_eq!(store.weight(), 10 * WEIGHT_SCALE);
    assert_eq!(store.weight(), store.capacity());
}

#[test]
fn give_up_to_into_full_store_gives_nothing() {
    let mut store = store_with(10, 10, 0, 0);
    assert_eq!(store.do_give_up_to(Item::Water, 1), 0);
    assert_eq!(store.do_give_up_to(Item::Money, 1), 0);
    assert_eq!(store.count(Item::Water), 0);
    assert_eq!(store.weight(), 100);
}

#[test]
fn money_weighs_a_tenth_of_food() {
    let mut store = Inventory::new(10);
    assert_eq!(store.do_give_up_to(Item::Money, 15), 10);
    assert_eq!(store.weight(), 10);
    let mut small = Inventory::new(9);
    assert_eq!(small.do_give_up_to(Item::Food, 1), 0);
    assert_eq!(small.do_give_up_to(Item::Money, 20), 9);
    let mut mixed = Inventory::new(25);
    assert_eq!(mixed.do_give_up_to(Item::Food, 5), 2);
    assert_eq!(mixed.room(Item::Food), 0);
    assert_eq!(mixed.room(Item::Money), 5);
    assert_eq!(mixed.do_give_up_to(Item::Money, 7), 5);
    assert_eq!(mixed.weight(), 25);
}

#[test]
fn weight_stays_within_capacity_after_every_give() {
    let mut store = Inventory::new(137);
    let gives = [
        (Item::Food, 3u32),
        (Item::Money, 40),
        (Item::Water, 9),
        (Item::Food, 1),
        (Item::Money, 1000),
        (Item::Water, 0),
        (Item::Food, u32::MAX),
    ];
    let mut total: u64 = 0;
    for (item, quantity) in gives.iter() {
        let before = store.count(*item);
        let given = store.do_give_up_to(*item, *quantity);
        assert!(given <= *quantity);
        assert_eq!(store.count(*item), before + given as u64);
        total += given as u64 * item.weight();
        assert_eq!(store.weight(), total);
        assert!(store.weight() <= store.capacity());
    }
    assert_eq!(store.count(Item::Food), 3);
    assert_eq!(store.count(Item::Money), 47);
    assert_eq!(store.count(Item::Water), 6);
    assert_eq!(store.weight(), 137);
}

#[test]
fn only_weight_limits_what_a_store_holds() {
    let mut store = Inventory::new(u64::MAX);
    assert_eq!(store.do_give_up_to(Item::Food, u32::MAX), u32::MAX);
    assert_eq!(store.do_give_up_to(Item::Food, u32::MAX), u32::MAX);
    assert!(store.do_give_exact(Item::Food, 2));
    assert_eq!(store.count(Item::Food), 8_589_934_592);
    assert_eq!(store.weight(), 85_899_345_920);
    assert_eq!(store.room(Item::Food), (u64::MAX - 85_899_345_920) / 10);
    assert_eq!(store.do_take_up_to(Item::Food, u32::MAX), u32::MAX);
    assert_eq!(store.count(Item::Food), 4_294_967_297);
    let mut full = Inventory::new(u64::MAX);
    for _ in 0..3 {
        full.do_give_up_to(Item::Money, u32::MAX);
    }
    assert_eq!(full.count(Item::Money), 3 * (u32::MAX as u64));
    assert_eq!(full.weight(), 3 * (u32::MAX as u64));
}

#[test]
fn give_exact_is_all_or_nothing() {
    let mut store = Inventory::new(10 * WEIGHT_SCALE);
    assert!(!store.do_give_exact(Item::Food, 11));
    assert_eq!(store.count(Item::Food), 0);
    assert!(store.do_give_exact(Item::Food, 10));
    assert_eq!(store.count(Item::Food), 10);
    assert!(!store.do_give_exact(Item::Money, 1));
    assert!(store.do_give_exact(Item::Money, 0));
    assert_eq!(store.weight(), 100);
}

#[test]
fn take_up_to_returns_what_was_held_at_most() {
    let mut store = store_with(10, 3, 0, 0);
    assert_eq!(store.do_take_up_to(Item::Food, 5), 3);
    assert_eq!(store.count(Item::Food), 0);
    assert_eq!(store.do_take_up_to(Item::Food, 5), 0);
    assert_eq!(store.do_take_up_to(Item::Water, 1), 0);
    let mut other = store_with(10, 7, 0, 0);
    assert_eq!(other.do_take_up_to(Item::Food, 0), 0);
    assert_eq!(other.count(Item::Food), 7);
    assert_eq!(other.do_take_up_to(Item::Food, 4), 4);
    assert_eq!(other.count(Item::Food), 3);
    assert_eq!(other.weight(), 30);
}

#[test]
fn take_exact_is_all_or_nothing() {
    let mut store = store_with(10, 3, 0, 0);
    assert!(!store.do_take_exact(Item::Food, 4));
    assert_eq!(store.count(Item::Food), 3);
    assert!(store.do_take_exact(Item::Food, 3));
    assert_eq!(store.count(Item::Food), 0);
    assert!(!store.do_take_exact(Item::Water, 1));
    assert!(store.do_take_exact(Item::Water, 0));
}

#[test]
fn give_sends_back_what_does_not_fit() {
    let mut store = Inventory::new(10 * WEIGHT_SCALE);
    let reply = store.process_msg(ItemMessage::Give(Item::Food, 15, 7));
    assert_eq!(
        reply,
        Some(Envelope { to: 7, message: ItemMessage::GiveOrDrop(Item::Food, 5) })
    );
    assert_eq!(store.count(Item::Food), 10);
    let mut roomy = Inventory::new(20 * WEIGHT_SCALE);
    assert_eq!(roomy.process_msg(ItemMessage::Give(Item::Food, 15, 7)), None);
    assert_eq!(roomy.count(Item::Food), 15);
}

#[test]
fn give_or_drop_discards_what_does_not_fit() {
    let mut store = Inventory::new(10 * WEIGHT_SCALE);
    assert_eq!(store.process_msg(ItemMessage::GiveOrDrop(Item::Water, 15)), None);
    assert_eq!(store.count(Item::Water), 10);
    assert_eq!(store.weight(), 100);
}

#[test]
fn trade_that_goes_through_moves_both_legs() {
    let mut store = store_with(10, 0, 0, 5);
    let reply = store.process_msg(ItemMessage::Trade((Item::Food, 2), (Item::Water, 3), 4));
    assert_eq!(
        reply,
        Some(Envelope { to: 4, message: ItemMessage::GiveOrDrop(Item::Water, 3) })
    );
    assert_eq!(store.count(Item::Water), 2);
    assert_eq!(store.count(Item::Food), 2);
    assert_eq!(store.count(Item::Money), 0);
}

#[test]
fn trade_of_an_item_for_itself_nets_the_difference() {
    let mut store = store_with(10, 4, 0, 0);
    let reply = store.process_msg(ItemMessage::Trade((Item::Food, 5), (Item::Food, 3), 1));
    assert_eq!(
        reply,
        Some(Envelope { to: 1, message: ItemMessage::GiveOrDrop(Item::Food, 3) })
    );
    assert_eq!(store.count(Item::Food), 6);
}

#[test]
fn trade_without_the_wanted_items_bounces_the_offer() {
    let mut store = store_with(10, 1, 2, 2);
    let reply = store.process_msg(ItemMessage::Trade((Item::Food, 2), (Item::Water, 3), 4));
    assert_eq!(
        reply,
        Some(Envelope { to: 4, message: ItemMessage::GiveOrDrop(Item::Food, 2) })
    );
    assert_eq!(store.count(Item::Food), 1);
    assert_eq!(store.count(Item::Money), 2);
    assert_eq!(store.count(Item::Water), 2);
}

#[test]
fn trade_whose_offer_does_not_fit_is_rolled_back() {
    let mut store = store_with(5, 0, 0, 5);
    let reply = store.process_msg(ItemMessage::Trade((Item::Food, 3), (Item::Water, 1), 9));
    assert_eq!(
        reply,
        Some(Envelope { to: 9, message: ItemMessage::GiveOrDrop(Item::Food, 3) })
    );
    assert_eq!(store.count(Item::Water), 5);
    assert_eq!(store.count(Item::Food), 0);
    assert_eq!(store.weight(), 50);
}

#[test]
fn take_always_answers_with_what_it_removed() {
    let mut store = store_with(10, 3, 0, 0);
    let reply = store.process_msg(ItemMessage::Take(Item::Food, 5, 9));
    assert_eq!(
        reply,
        Some(Envelope { to: 9, message: ItemMessage::GiveOrDrop(Item::Food, 3) })
    );
    assert_eq!(store.count(Item::Food), 0);
    let again = store.process_msg(ItemMessage::Take(Item::Food, 5, 9));
    assert_eq!(
        again,
        Some(Envelope { to: 9, message: ItemMessage::GiveOrDrop(Item::Food, 0) })
    );
}

#[test]
fn remove_sends_nothing() {
    let mut store = store_with(10, 3, 0, 0);
    assert_eq!(store.process_msg(ItemMessage::Remove(Item::Food, 2)), None);
    assert_eq!(store.count(Item::Food), 1);
    assert_eq!(store.process_msg(ItemMessage::Remove(Item::Food, 2)), None);
    assert_eq!(store.count(Item::Food), 0);
}

#[test]
fn receive_all_applies_in_order_of_arrival() {
    let mut store = Inventory::new(10 * WEIGHT_SCALE);
    let inbox = vec![
        ItemMessage::Take(Item::Food, 5, 1),
        ItemMessage::GiveOrDrop(Item::Food, 3),
        ItemMessage::Take(Item::Food, 2, 4),
        ItemMessage::Give(Item::Water, 12, 6),
        ItemMessage::Remove(Item::Water, 1),
    ];
    let sent = store.receive_all(&inbox);
    assert_eq!(
        sent,
        vec![
            Envelope { to: 1, message: ItemMessage::GiveOrDrop(Item::Food, 0) },
            Envelope { to: 4, message: ItemMessage::GiveOrDrop(Item::Food, 2) },
            Envelope { to: 6, message: ItemMessage::GiveOrDrop(Item::Water, 3) },
        ]
    );
    assert_eq!(store.count(Item::Food), 1);
    assert_eq!(store.count(Item::Water), 8);
}

#[test]
fn receive_all_does_not_apply_a_reply_to_itself() {
    let mut store = store_with(10, 4, 0, 0);
    let sent = store.receive_all(&vec![ItemMessage::Take(Item::Food, 3, 0)]);
    assert_eq!(
        sent,
        vec![Envelope { to: 0, message: ItemMessage::GiveOrDrop(Item::Food, 3) }]
    );
    assert_eq!(store.count(Item::Food), 1);
}

#[test]
fn receive_all_of_nothing_changes_nothing() {
    let mut store = store_with(10, 4, 1, 2);
    let sent = store.receive_all(&Vec::new());
    assert!(sent.is_empty());
    assert_eq!(store.count(Item::Food), 4);
    assert_eq!(store.count(Item::Money), 1);
    assert_eq!(store.count(Item::Water), 2);
}
