use esytheism::gamestate::{post, post_all, Draws, GameState};
use esytheism::geography::{Geography, Position, Tile, TilePoint, TILE_SCALE};
use esytheism::human::{Activity, EatingState, Human, Job, Mind, WorkState, FATIGUE_TIRED, NEED_SCALE};
use esytheism::item::{Envelope, Item, ItemMessage, WEIGHT_SCALE};
use esytheism::plant::Crop;
use esytheism::world::{Container, Time};

fn p(x: usize, y: usize) -> TilePoint {
    TilePoint::new(x, y)
}

fn at(x: usize, y: usize) -> Position {
    Position::new(x * TILE_SCALE + TILE_SCALE / 2, y * TILE_SCALE + TILE_SCALE / 2)
}

fn grid(width: usize, height: usize) -> Geography {
    let mut tiles = Vec::new();
    for _ in 0..width {
        let mut column = Vec::new();
        for _ in 0..height {
            column.push(Tile { terrain_cost: 1, walls: [false; 4] });
        }
        tiles.push(column);
    }
    Geography { tiles, width, height }
}

fn quiet(state: &GameState) -> Draws {
    Draws { weather: 0, wander: vec![None; state.minds.len()] }
}

fn stores(capacities: &[u64]) -> GameState {
    let mut state = GameState::empty(grid(4, 4));
    for capacity in capacities.iter() {
        state.create_inventory(capacity * WEIGHT_SCALE);
    }
    state.world.time.hour = 3;
    state
}

#[test]
fn empty_world_has_nothing_in_it() {
    let state = GameState::empty(grid(2, 3));
    assert_eq!(state.world.geography.width, 2);
    assert_eq!(state.world.geography.height, 3);
    assert_eq!(state.world.time, Time::new());
    assert!(state.world.humans.is_empty());
    assert!(state.world.containers.is_empty());
    assert!(state.world.crops.is_empty());
    assert!(state.world.inventories.is_empty());
    assert!(state.minds.is_empty());
    assert!(state.inboxes.is_empty());
}

#[test]
fn starting_world_has_a_farmer_a_crop_and_a_food_box() {
    let state = GameState::new(grid(40, 30));
    assert_eq!(state.world.crops, vec![Crop { location: at(29, 16), inventory_id: 0 }]);
    assert_eq!(state.world.containers, vec![Container { location: at(29, 14), inventory_id: 2 }]);
    assert_eq!(state.world.inventories.len(), 3);
    assert_eq!(state.world.inventories[0].count(Item::Food), 10);
    assert_eq!(state.world.inventories[0].capacity(), 100);
    assert_eq!(state.world.inventories[1].count(Item::Food), 0);
    assert_eq!(state.world.inventories[1].capacity(), 1000);
    assert_eq!(state.world.inventories[2].count(Item::Food), 100);
    assert_eq!(state.world.inventories[2].capacity(), 1_000_000_000_000);
    assert_eq!(state.world.humans.len(), 1);
    let human = &state.world.humans[0];
    assert_eq!(human.location, Position::new(25 * TILE_SCALE + TILE_SCALE / 2, 15 * TILE_SCALE));
    assert_eq!(TilePoint::from_vector(&human.location), p(25, 15));
    assert_eq!(human.inventory_id, 1);
    assert_eq!(human.job, Job::Farmer(0));
    assert_eq!(human.owned_container_indeces, vec![0]);
    assert_eq!(human.fatigue, FATIGUE_TIRED);
    assert_eq!(state.minds.len(), 1);
    assert_eq!(state.minds[0], Mind::new(at(29, 14)));
    assert_eq!(state.inboxes, vec![Vec::new(), Vec::new(), Vec::new()]);
    assert_eq!(state.world.time, Time::new());
}

#[test]
fn create_inventory_numbers_stores_in_order() {
    let mut state = GameState::empty(grid(1, 1));
    assert_eq!(state.create_inventory(7), 0);
    assert_eq!(state.create_inventory(9), 1);
    assert_eq!(state.world.inventories[0].capacity(), 7);
    assert_eq!(state.world.inventories[1].capacity(), 9);
    assert_eq!(state.inboxes.len(), 2);
    assert_eq!(state.add_crop(at(0, 0), 1), 0);
    assert_eq!(state.add_container(at(0, 0), 0), 0);
    assert_eq!(state.add_container(at(0, 0), 1), 1);
    let mut human = Human::new(at(0, 0), 0, Job::Farmer(0));
    human.give_container(1);
    assert_eq!(state.add_human(human.clone(), Mind::new(at(0, 0))), 0);
    assert_eq!(state.world.humans, vec![human]);
    assert_eq!(state.minds.len(), 1);
}

#[test]
fn post_appends_to_the_addressed_queue_and_drops_the_rest() {
    let mut inboxes = vec![vec![ItemMessage::Remove(Item::Food, 1)], Vec::new()];
    post(
        &mut inboxes,
        &vec![
            Envelope { to: 1, message: ItemMessage::GiveOrDrop(Item::Food, 1) },
            Envelope { to: 0, message: ItemMessage::GiveOrDrop(Item::Food, 2) },
            Envelope { to: 2, message: ItemMessage::GiveOrDrop(Item::Food, 3) },
            Envelope { to: 1, message: ItemMessage::GiveOrDrop(Item::Food, 4) },
        ],
    );
    assert_eq!(
        inboxes,
        vec![
            vec![ItemMessage::Remove(Item::Food, 1), ItemMessage::GiveOrDrop(Item::Food, 2)],
            vec![ItemMessage::GiveOrDrop(Item::Food, 1), ItemMessage::GiveOrDrop(Item::Food, 4)],
        ]
    );
    post_all(
        &mut inboxes,
        &vec![
            vec![Envelope { to: 1, message: ItemMessage::Remove(Item::Water, 5) }],
            Vec::new(),
            vec![Envelope { to: 1, message: ItemMessage::Remove(Item::Water, 6) }],
        ],
    );
    assert_eq!(inboxes[0].len(), 2);
    assert_eq!(
        inboxes[1][2..],
        [ItemMessage::Remove(Item::Water, 5), ItemMessage::Remove(Item::Water, 6)]
    );
}

#[test]
fn take_empties_the_store_and_the_answer_is_applied_a_tick_later() {
    let mut state = stores(&[10, 10]);
    state.world.inventories[0].do_give_up_to(Item::Food, 3);
    post(
        &mut state.inboxes,
        &vec![Envelope { to: 0, message: ItemMessage::Take(Item::Food, 5, 1) }],
    );
    state.update(&quiet(&state));
    assert_eq!(state.world.inventories[0].count(Item::Food), 0);
    assert_eq!(state.world.inventories[1].count(Item::Food), 0);
    assert_eq!(
        state.inboxes,
        vec![Vec::new(), vec![ItemMessage::GiveOrDrop(Item::Food, 3)]]
    );
    state.update(&quiet(&state));
    assert_eq!(state.world.inventories[0].count(Item::Food), 0);
    assert_eq!(state.world.inventories[1].count(Item::Food), 3);
    assert_eq!(state.inboxes, vec![Vec::new(), Vec::new()]);
}

#[test]
fn drain_applies_what_was_queued_and_queues_what_it_sends() {
    let mut state = stores(&[10, 10, 10]);
    state.world.inventories[2].do_give_up_to(Item::Water, 4);
    post(
        &mut state.inboxes,
        &vec![
            Envelope { to: 2, message: ItemMessage::Take(Item::Water, 1, 0) },
            Envelope { to: 0, message: ItemMessage::Give(Item::Food, 12, 1) },
            Envelope { to: 2, message: ItemMessage::Take(Item::Water, 2, 1) },
            Envelope { to: 1, message: ItemMessage::Trade((Item::Food, 1), (Item::Water, 1), 0) },
        ],
    );
    state.drain();
    assert_eq!(state.world.inventories[0].count(Item::Food), 10);
    assert_eq!(state.world.inventories[0].count(Item::Water), 0);
    assert_eq!(state.world.inventories[1].count(Item::Food), 0);
    assert_eq!(state.world.inventories[2].count(Item::Water), 1);
    assert_eq!(
        state.inboxes,
        vec![
            vec![ItemMessage::GiveOrDrop(Item::Food, 1), ItemMessage::GiveOrDrop(Item::Water, 1)],
            vec![ItemMessage::GiveOrDrop(Item::Food, 2), ItemMessage::GiveOrDrop(Item::Water, 2)],
            Vec::new(),
        ]
    );
    state.drain();
    assert_eq!(state.world.inventories[0].count(Item::Food), 10);
    assert_eq!(state.world.inventories[0].count(Item::Water), 0);
    assert_eq!(state.world.inventories[1].count(Item::Food), 2);
    assert_eq!(state.world.inventories[1].count(Item::Water), 2);
    assert_eq!(state.inboxes, vec![Vec::new(), Vec::new(), Vec::new()]);
}

#[test]
fn message_sent_in_act_is_applied_in_the_same_tick() {
    let mut state = stores(&[10, 10]);
    state.world.inventories[0].do_give_up_to(Item::Food, 4);
    state.world.inventories[1].do_give_up_to(Item::Food, 9);
    state.add_container(at(1, 1), 1);
    let mut human = Human::new(at(1, 1), 0, Job::Farmer(0));
    human.give_container(0);
    human.fatigue = 0;
    state.add_crop(at(3, 3), 1);
    let mut mind = Mind::new(at(0, 0));
    mind.state = Activity::Working(WorkState::Storing);
    mind.had_breakfast = true;
    state.add_human(human, mind);
    state.update(&quiet(&state));
    assert_eq!(state.minds[0].target_inventory_id, None);
    assert_eq!(state.world.inventories[0].count(Item::Food), 0);
    assert_eq!(state.world.inventories[1].count(Item::Food), 9);
    assert_eq!(
        state.inboxes,
        vec![Vec::new(), vec![ItemMessage::GiveOrDrop(Item::Food, 4)]]
    );
    state.update(&quiet(&state));
    assert_eq!(state.world.inventories[1].count(Item::Food), 10);
    assert_eq!(state.minds[0].state, Activity::Idle);
    assert_eq!(state.inboxes, vec![Vec::new(), Vec::new()]);
}

#[test]
fn update_moves_time_on_by_one_tick() {
    let mut state = stores(&[]);
    state.world.time = Time { tick: 2, minute: 59, hour: 23, day: 0, weekday: 0, month: 0, year: 0 };
    state.update(&quiet(&state));
    assert_eq!(
        state.world.time,
        Time { tick: 0, minute: 0, hour: 0, day: 1, weekday: 1, month: 0, year: 0 }
    );
    state.update(&quiet(&state));
    assert_eq!(state.world.time.tick, 1);
}

#[test]
fn crops_grow_where_a_day_begins() {
    let mut state = stores(&[10]);
    state.add_crop(at(2, 2), 0);
    state.world.inventories[0].do_give_up_to(Item::Water, 2);
    state.update(&Draws { weather: 3, wander: Vec::new() });
    assert_eq!(state.world.weather.sun(), 0);
    assert_eq!(state.world.inventories[0].count(Item::Food), 0);
    assert!(state.inboxes[0].is_empty());
    state.world.time = Time::new();
    state.update(&Draws { weather: 3, wander: Vec::new() });
    assert_eq!(state.world.weather.sun(), 3);
    assert_eq!(state.world.weather.rain(), 0);
    assert_eq!(state.world.inventories[0].count(Item::Water), 0);
    assert_eq!(state.world.inventories[0].count(Item::Food), 2);
    assert_eq!(
        state.inboxes[0],
        vec![
            ItemMessage::GiveOrDrop(Item::Water, 1),
            ItemMessage::GiveOrDrop(Item::Water, 1),
            ItemMessage::GiveOrDrop(Item::Food, 1),
        ]
    );
    state.update(&Draws { weather: -4, wander: Vec::new() });
    assert_eq!(state.world.weather.sun(), 3);
    assert_eq!(state.world.inventories[0].count(Item::Water), 2);
    assert_eq!(state.world.inventories[0].count(Item::Food), 3);
    state.world.time = Time::new();
    state.update(&Draws { weather: -4, wander: Vec::new() });
    assert_eq!(state.world.weather.sun(), 0);
    assert_eq!(state.world.weather.rain(), 4);
    assert_eq!(state.world.inventories[0].count(Item::Water), 6);
}

#[test]
fn every_mind_thinks_and_acts_on_its_own_human() {
    let mut state = stores(&[10, 10]);
    state.add_crop(at(3, 3), 0);
    let mut first = Human::new(at(0, 0), 0, Job::Farmer(0));
    first.fatigue = 0;
    let mut second = Human::new(at(2, 2), 1, Job::Farmer(0));
    second.hunger = 90 * NEED_SCALE;
    let mut eater = Mind::new(at(2, 2));
    eater.had_breakfast = true;
    state.add_human(first, Mind::new(at(0, 0)));
    state.add_human(second, eater);
    state.world.inventories[1].do_give_up_to(Item::Food, 1);
    let draws = Draws { weather: 0, wander: vec![Some(p(1, 0)), Some(p(3, 2))] };
    state.update(&draws);
    assert_eq!(state.minds[0].state, Activity::Idle);
    assert_eq!(state.minds[0].current_path, vec![p(1, 0)]);
    assert_eq!(state.minds[1].state, Activity::Eating(EatingState::Finding));
    assert!(state.minds[1].current_path.is_empty());
    assert_eq!(state.world.humans[0].hunger, 12);
    assert_eq!(state.world.humans[0].fatigue, 40);
    assert_eq!(state.world.humans[1].hunger, 90 * NEED_SCALE + 9);
    assert_eq!(state.world.humans[1].fatigue, FATIGUE_TIRED + 40);
    state.update(&draws);
    assert_eq!(state.minds[1].state, Activity::Eating(EatingState::Eating));
    assert_eq!(state.world.humans[1].hunger, 89 * NEED_SCALE + 9 + 9);
    assert_eq!(state.world.inventories[1].count(Item::Food), 0);
    state.update(&draws);
    assert_eq!(state.minds[1].state, Activity::Idle);
    assert!(state.minds[1].had_dinner);
    assert_eq!(state.world.humans[1].hunger, 89 * NEED_SCALE + 27);
}

#[test]
fn enqueue_drops_a_message_to_a_store_that_does_not_exist() {
    let mut state = stores(&[10]);
    state.enqueue(0, ItemMessage::GiveOrDrop(Item::Food, 2));
    state.enqueue(1, ItemMessage::GiveOrDrop(Item::Food, 3));
    state.enqueue(0, ItemMessage::Remove(Item::Food, 1));
    assert_eq!(
        state.inboxes,
        vec![vec![ItemMessage::GiveOrDrop(Item::Food, 2), ItemMessage::Remove(Item::Food, 1)]]
    );
    state.update(&quiet(&state));
    assert_eq!(state.world.inventories[0].count(Item::Food), 1);
    assert_eq!(state.inboxes, vec![Vec::new()]);
}

#[test]
fn answer_to_a_store_that_does_not_exist_is_dropped() {
    let mut state = stores(&[10]);
    state.world.inventories[0].do_give_up_to(Item::Food, 3);
    state.enqueue(0, ItemMessage::Take(Item::Food, 2, 5));
    state.update(&quiet(&state));
    assert_eq!(state.world.inventories[0].count(Item::Food), 1);
    assert_eq!(state.inboxes, vec![Vec::new()]);
}

#[test]
fn checks_tell_a_sound_state_from_a_broken_one() {
    let mut state = GameState::new(grid(40, 30));
    assert!(state.is_well_formed());
    assert!(state.world.is_well_formed());
    assert!(state.world.is_host_of(&state.world.humans[0]));
    state.world.humans[0].owned_container_indeces.push(1);
    assert!(!state.world.is_host_of(&state.world.humans[0]));
    assert!(!state.is_well_formed());
    state.world.humans[0].owned_container_indeces.pop();
    assert!(state.is_well_formed());
    state.world.time.minute = 60;
    assert!(!state.world.time.is_well_formed());
    assert!(!state.is_well_formed());
    state.world.time.minute = 59;
    state.world.crops[0].inventory_id = 3;
    assert!(!state.is_well_formed());
    state.world.crops[0].inventory_id = 2;
    state.world.containers[0].inventory_id = 3;
    assert!(!state.is_well_formed());
    state.world.containers[0].inventory_id = 0;
    state.world.humans[0].job = Job::Farmer(1);
    assert!(!state.is_well_formed());
    state.world.humans[0].job = Job::Farmer(0);
    state.world.humans[0].inventory_id = 3;
    assert!(!state.is_well_formed());
    state.world.humans[0].inventory_id = 1;
    state.inboxes.pop();
    assert!(!state.is_well_formed());
    state.inboxes.push(Vec::new());
    state.minds.pop();
    assert!(!state.is_well_formed());
}

#[test]
fn mind_without_a_draw_is_sent_nowhere() {
    let mut state = stores(&[10, 10]);
    state.add_crop(at(3, 3), 0);
    let mut rested = Human::new(at(0, 0), 0, Job::Farmer(0));
    rested.fatigue = 0;
    state.add_human(rested.clone(), Mind::new(at(0, 0)));
    state.add_human(rested, Mind::new(at(0, 0)));
    state.update(&Draws { weather: 0, wander: vec![Some(p(2, 0))] });
    assert_eq!(state.minds[0].current_path, vec![p(2, 0), p(1, 0)]);
    assert!(state.minds[1].current_path.is_empty());
    let mut apart = stores(&[10]);
    apart.add_crop(at(3, 3), 0);
    let mut rested = Human::new(at(0, 0), 0, Job::Farmer(0));
    rested.fatigue = 0;
    apart.add_human(rested, Mind::new(at(0, 0)));
    apart.update(&Draws { weather: 0, wander: vec![None, Some(p(1, 1)), Some(p(2, 2))] });
    assert!(apart.minds[0].current_path.is_empty());
}
