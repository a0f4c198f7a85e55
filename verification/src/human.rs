//! The agents: a body with needs, and the mind that drives it.

use crate::clock::{decimal, decimal_text};
use crate::geography::{tile_of, Geography, Position, TilePoint, TILE_SCALE};
use crate::item::{Envelope, Item, ItemMessage};
use crate::pathfinding::{capped_sum, distance_squared_between, place_distance};
use crate::world::World;
use vstd::prelude::*;
use vstd::string::StringExecFns;

verus! {

/// How many parts a point of hunger or fatigue has. Needs are counted in parts, so
/// that every rate at which they change is a whole number.
pub const NEED_SCALE: u64 = 1296;

/// The fatigue that a waking tick adds, in parts: a hundred points in eighteen
/// hours.
pub const FATIGUE_PER_TICK: u64 = 40;

/// The fatigue that a tick of sleep takes away, in parts: a hundred points in six
/// hours, and what the tick itself adds.
pub const SLEEP_PER_TICK: u64 = 160;

/// The hunger that one unit of food stills, in parts.
pub const HUNGER_PER_FOOD: u64 = 1296;

/// Hunger from which an agent plans smaller meals, and above which an idle agent
/// looks for food: 80 points.
pub const HUNGER_MILD: u64 = 103680;

/// 110 points of hunger.
pub const HUNGER_STRONG: u64 = 142560;

/// 130 points of hunger.
pub const HUNGER_SEVERE: u64 = 168480;

/// Fatigue above which an idle agent goes to sleep: 80 points.
pub const FATIGUE_TIRED: u64 = 103680;

/// What an agent does for a living.
#[derive(Copy, Clone, Debug, PartialEq, Eq)]
pub enum Job {
    /// Tends the crop with the given id.
    Farmer(usize),
}

/// The body of an agent.
#[derive(Clone, Debug, PartialEq, Eq)]
pub struct Human {
    /// The place where the agent stands.
    pub location: Position,
    pub inventory_id: usize,
    /// Fatigue, in parts of a point.
    pub fatigue: u64,
    /// Hunger, in parts of a point.
    pub hunger: u64,
    pub owned_container_indeces: Vec<usize>,
    pub job: Job,
}

/// How much of `item` the containers `owned` hold together.
pub open spec fn stored_total(world: &World, owned: Seq<usize>, item: Item) -> nat
    decreases owned.len(),
{
    if owned.len() == 0 {
        0
    } else {
        stored_total(world, owned.drop_last(), item) + world.stock_of(
            world.containers[owned.last() as int].inventory_id as int,
            item,
        )
    }
}

/// How much food an agent plans to eat in a day: the hungrier it is, the less,
/// unless it owns plenty.
pub open spec fn food_plan(hunger: u64, owned_food: nat) -> u32 {
    if hunger < HUNGER_MILD {
        40
    } else if hunger < HUNGER_STRONG {
        if owned_food > 80 {
            40
        } else {
            30
        }
    } else if hunger < HUNGER_SEVERE {
        if owned_food > 60 {
            30
        } else {
            20
        }
    } else {
        if owned_food > 40 {
            20
        } else {
            10
        }
    }
}

/// A need in points, with two decimals; half a hundredth counts as a whole one.
pub open spec fn points_text(parts: u64) -> Seq<char> {
    let hundredths = ((parts * 100 + NEED_SCALE / 2) / (NEED_SCALE as int)) as nat;
    decimal_text(hundredths / 100, 1) + "."@ + decimal_text(hundredths % 100, 2)
}

/// Writes a need in points, with two decimals.
pub fn points_string(parts: u64) -> (text: String)
    ensures
        text@ == points_text(parts),
{
    let hundredths: u128 = (parts as u128 * 100 + (NEED_SCALE / 2) as u128) / (NEED_SCALE as u128);
    let whole: u64 = (hundredths / 100) as u64;
    let rest: u64 = (hundredths % 100) as u64;
    assert(hundredths == (parts * 100 + 648) / 1296);
    let mut text = decimal(whole, 1);
    text.append(".");
    text.append(decimal(rest, 2).as_str());
    assert(text@ =~= points_text(parts));
    text
}

impl Human {
    /// What there is to say of the agent, line by line: a heading, its fatigue and
    /// hunger in points, its job, and what its own store holds.
    pub fn description_lines(&self, world: &World) -> (lines: Vec<String>)
        requires
            world.hosts(self),
        ensures
            lines@.len() == 7,
            lines[0]@ == "Human: <name>"@,
            lines[1]@ == "Fatigue: "@ + points_text(self.fatigue),
            lines[2]@ == "Hunger: "@ + points_text(self.hunger),
            lines[3]@ == "Job: Farmer"@,
            lines[4]@ == "Food: "@ + decimal_text(world.stock_of(self.inventory_id as int, Item::Food), 1),
            lines[5]@ == "Money: "@ + decimal_text(
                world.stock_of(self.inventory_id as int, Item::Money),
                1,
            ),
            lines[6]@ == "Water: "@ + decimal_text(
                world.stock_of(self.inventory_id as int, Item::Water),
                1,
            ),
    {
        let mut lines: Vec<String> = Vec::new();
        lines.push(String::from_str("Human: <name>"));
        lines.push(String::from_str("Fatigue: ").concat(points_string(self.fatigue).as_str()));
        lines.push(String::from_str("Hunger: ").concat(points_string(self.hunger).as_str()));
        lines.push(
            String::from_str(
                match self.job {
                    Job::Farmer(_) => "Job: Farmer",
                },
            ),
        );
        let mut inventory_lines = world.inventories[self.inventory_id].description_lines();
        lines.append(&mut inventory_lines);
        lines
    }

    /// How much of `item` the agent owns: what its own store holds and what its
    /// containers hold.
    pub open spec fn owned_total(&self, item: Item, world: &World) -> nat {
        world.stock_of(self.inventory_id as int, item) + stored_total(
            world,
            self.owned_container_indeces@,
            item,
        )
    }

    /// A rested, sated agent without containers: 80 points of fatigue, no hunger.
    pub fn new(location: Position, inventory_id: usize, job: Job) -> (human: Human)
        ensures
            human.location == location,
            human.inventory_id == inventory_id,
            human.job == job,
            human.fatigue == FATIGUE_TIRED,
            human.hunger == 0,
            human.owned_container_indeces@ == Seq::<usize>::empty(),
    {
        Human {
            location,
            inventory_id,
            fatigue: FATIGUE_TIRED,
            hunger: 0,
            owned_container_indeces: Vec::new(),
            job,
        }
    }

    /// Makes the agent an owner of the container.
    pub fn give_container(&mut self, container_index: usize)
        ensures
            final(self).owned_container_indeces@ == old(self).owned_container_indeces@.push(
                container_index,
            ),
            final(self).location == old(self).location,
            final(self).inventory_id == old(self).inventory_id,
            final(self).fatigue == old(self).fatigue,
            final(self).hunger == old(self).hunger,
            final(self).job == old(self).job,
    {
        self.owned_container_indeces.push(container_index)
    }

    /// How much of `item` the agent owns, held at `u64::MAX`.
    pub fn owned_item_count(&self, item: Item, world: &World) -> (count: u64)
        requires
            world.wf(),
            world.hosts(self),
        ensures
            count == if self.owned_total(item, world) > u64::MAX {
                u64::MAX as nat
            } else {
                self.owned_total(item, world)
            },
    {
        let mut container_count: u64 = 0;
        let mut j: usize = 0;
        proof {
            assert(self.owned_container_indeces@.take(0) == Seq::<usize>::empty());
        }
        while j < self.owned_container_indeces.len()
            invariant
                j <= self.owned_container_indeces.len(),
                world.wf(),
                world.hosts(self),
                container_count == ({
                    let total = stored_total(
                        world,
                        self.owned_container_indeces@.take(j as int),
                        item,
                    );
                    if total > u64::MAX {
                        u64::MAX as nat
                    } else {
                        total
                    }
                }),
            decreases self.owned_container_indeces.len() - j,
        {
            let i = self.owned_container_indeces[j];
            proof {
                assert(self.owned_container_indeces@.take(j + 1).drop_last()
                    == self.owned_container_indeces@.take(j as int));
            }
            container_count = container_count.saturating_add(
                world.inventories[world.containers[i].inventory_id].count(item),
            );
            j = j + 1;
        }
        proof {
            assert(self.owned_container_indeces@.take(j as int) == self.owned_container_indeces@);
        }
        world.inventories[self.inventory_id].count(item).saturating_add(container_count)
    }

    /// How much food the agent plans to eat in a day.
    pub fn daily_food(&self, world: &World) -> (food: u32)
        requires
            world.wf(),
            world.hosts(self),
        ensures
            food == food_plan(self.hunger, self.owned_total(Item::Food, world)),
    {
        let owned_food = self.owned_item_count(Item::Food, world);
        if self.hunger < HUNGER_MILD {
            40
        } else if self.hunger < HUNGER_STRONG {
            if owned_food > 80 {
                40
            } else {
                30
            }
        } else if self.hunger < HUNGER_SEVERE {
            if owned_food > 60 {
                30
            } else {
                20
            }
        } else {
            if owned_food > 40 {
                20
            } else {
                10
            }
        }
    }
}

/// How long a farmer works on its crop in a day, in ticks: six hours.
pub const WORK_TICKS: u32 = 1080;

/// How many ticks a mind lets pass after it has asked a store for items.
pub const WAIT_AFTER_REQUEST: u32 = 2;

/// How much food a farmer asks its crop for at the end of its work.
pub const HARVEST_REQUEST: u32 = 50;

/// How much food an agent moves into a container at once.
pub const STORE_REQUEST: u32 = 100;

#[derive(Copy, Clone, Debug, PartialEq, Eq, Structural)]
pub enum EatingState {
    Eating,
    Finding,
}

#[derive(Copy, Clone, Debug, PartialEq, Eq, Structural)]
pub enum WorkState {
    Commuting,
    Working,
    Storing,
}

/// What an agent is busy with.
#[derive(Copy, Clone, Debug, PartialEq, Eq, Structural)]
pub enum Activity {
    Idle,
    Eating(EatingState),
    Sleeping,
    Working(WorkState),
}

/// Where an agent on its way heads next: the middle of one side of a tile (0 top,
/// 1 right, 2 bottom, 3 left).
#[derive(Copy, Clone, Debug, PartialEq, Eq, Structural)]
pub struct Aim {
    pub tile: TilePoint,
    pub side: usize,
}

/// A step on the plane, in parts of a tile: so far to the right and so far down.
#[derive(Copy, Clone, Debug, PartialEq, Eq, Structural)]
pub struct Offset {
    pub dx: i128,
    pub dy: i128,
}

/// How far right of the corner of the grid the point lies that `aim` names, in
/// parts: the middle of the top or bottom side of the tile, or its left or right
/// side.
pub open spec fn aim_x(aim: Aim) -> int {
    aim.tile.x * TILE_SCALE + if aim.side == 1 {
        TILE_SCALE as int
    } else if aim.side == 3 {
        0int
    } else {
        (TILE_SCALE / 2) as int
    }
}

/// How far below the corner of the grid the point lies that `aim` names, in parts.
pub open spec fn aim_y(aim: Aim) -> int {
    aim.tile.y * TILE_SCALE + if aim.side == 2 {
        TILE_SCALE as int
    } else if aim.side == 1 || aim.side == 3 {
        (TILE_SCALE / 2) as int
    } else {
        0int
    }
}

impl Aim {
    /// The step that leads from the place `from` to the point aimed for: the
    /// direction in which an agent at `from` travels.
    pub fn vector_from(&self, from: &Position) -> (step: Offset)
        ensures
            step.dx == aim_x(*self) - from.x,
            step.dy == aim_y(*self) - from.y,
    {
        let scale: i128 = TILE_SCALE as i128;
        let x: i128 = self.tile.x as i128 * scale + if self.side == 1 {
            scale
        } else if self.side == 3 {
            0
        } else {
            scale / 2
        };
        let y: i128 = self.tile.y as i128 * scale + if self.side == 2 {
            scale
        } else if self.side == 1 || self.side == 3 {
            scale / 2
        } else {
            0
        };
        Offset { dx: x - from.x as i128, dy: y - from.y as i128 }
    }
}

/// The mind of an agent: what it is doing, where it is going, and what it
/// remembers of the day.
#[derive(Clone, Debug, PartialEq, Eq)]
pub struct Mind {
    /// The tiles still to walk, the goal first and the next one last.
    pub current_path: Vec<TilePoint>,
    pub state: Activity,
    pub home: Position,
    pub had_breakfast: bool,
    pub had_dinner: bool,
    pub meal_size: u32,
    /// The store that the next request goes to. It is a guess that may be stale.
    pub target_inventory_id: Option<usize>,
    pub progress: u32,
    /// How many ticks the mind still lets pass before it decides again.
    pub wait: u32,
    pub travel_aim: Option<Aim>,
}

/// A mind as a value: the path is a sequence.
pub struct MindView {
    pub path: Seq<TilePoint>,
    pub state: Activity,
    pub home: Position,
    pub had_breakfast: bool,
    pub had_dinner: bool,
    pub meal_size: u32,
    pub target_inventory_id: Option<usize>,
    pub progress: u32,
    pub wait: u32,
    pub travel_aim: Option<Aim>,
}

impl View for Mind {
    type V = MindView;

    open spec fn view(&self) -> MindView {
        MindView {
            path: self.current_path@,
            state: self.state,
            home: self.home,
            had_breakfast: self.had_breakfast,
            had_dinner: self.had_dinner,
            meal_size: self.meal_size,
            target_inventory_id: self.target_inventory_id,
            progress: self.progress,
            wait: self.wait,
            travel_aim: self.travel_aim,
        }
    }
}

/// What a mind decides in one tick: what to do next, what it now remembers of its
/// meals, which store to ask next, and the tile to set out for, if any.
#[derive(Copy, Clone, Debug, PartialEq, Eq)]
pub struct Decision {
    pub state: Activity,
    pub had_breakfast: bool,
    pub had_dinner: bool,
    pub target_inventory_id: Option<usize>,
    pub goal: Option<TilePoint>,
}

/// What a mind does in one tick: the hunger and fatigue it leaves its body with,
/// and the messages it sends.
pub struct Deed {
    pub mind: MindView,
    pub hunger: u64,
    pub fatigue: u64,
    pub sent: Seq<Envelope>,
}

/// Whether the container `a` is to be preferred to the container `b` by an agent at
/// the place `from`: it is nearer in a straight line, or as near and of lower
/// index.
pub open spec fn nearer(world: &World, from: Position, a: usize, b: usize) -> bool {
    let da = place_distance(from, world.containers[a as int].location);
    let db = place_distance(from, world.containers[b as int].location);
    da < db || (da == db && a < b)
}

/// Whether the container `c` counts in a search: every container does, unless
/// only those with food in stock are looked for.
pub open spec fn eligible(world: &World, c: usize, with_food: bool) -> bool {
    with_food ==> world.stock_of(world.containers[c as int].inventory_id as int, Item::Food) > 0
}

/// The container among `owned` that an agent at `from` prefers, if any counts.
/// Whether the container can be reached plays no part: an agent whose nearest
/// container lies behind walls finds no way to it, stays where it is, and looks
/// again when it next decides.
pub open spec fn nearest_owned(
    world: &World,
    from: Position,
    owned: Seq<usize>,
    with_food: bool,
) -> Option<usize>
    decreases owned.len(),
{
    if owned.len() == 0 {
        None
    } else {
        let best = nearest_owned(world, from, owned.drop_last(), with_food);
        let c = owned.last();
        if eligible(world, c, with_food) && (best is None || nearer(
            world,
            from,
            c,
            best.unwrap(),
        )) {
            Some(c)
        } else {
            best
        }
    }
}

/// The side of the tile `next` through which an agent on the tile `here` enters it.
pub open spec fn entry_side(here: TilePoint, next: TilePoint) -> usize {
    if here.x > next.x {
        1
    } else if here.x < next.x {
        3
    } else if here.y > next.y {
        2
    } else {
        0
    }
}

/// The hunger that a tick adds, in parts: 40, 30, 20 or 10 points in a day of 4320
/// ticks; the hungrier, the less.
pub open spec fn hunger_rate(hunger: u64) -> u64 {
    if hunger < HUNGER_MILD {
        12
    } else if hunger < HUNGER_STRONG {
        9
    } else if hunger < HUNGER_SEVERE {
        6
    } else {
        3
    }
}

/// Whole points of a need counted in parts, held at `u32::MAX`.
pub open spec fn whole_points(parts: u64) -> u32 {
    if parts / NEED_SCALE > u32::MAX {
        u32::MAX
    } else {
        (parts / NEED_SCALE) as u32
    }
}

impl MindView {
    /// The mind after it has noticed the time: on a new day it plans half of the
    /// day's food for each meal and forgets the meals and the work of the day
    /// before.
    pub open spec fn perceived(self, human: &Human, world: &World) -> MindView {
        if world.time.begins_day() {
            MindView {
                meal_size: food_plan(human.hunger, human.owned_total(Item::Food, world)) / 2,
                had_breakfast: false,
                had_dinner: false,
                progress: 0,
                ..self
            }
        } else {
            self
        }
    }

    /// The mind after one tick of waiting; the wait is above zero.
    pub open spec fn counted_down(self) -> MindView {
        MindView { wait: (self.wait - 1) as u32, ..self }
    }

    /// What the mind decides unless it does as before.
    pub open spec fn unchanged(self) -> Decision {
        Decision {
            state: self.state,
            had_breakfast: self.had_breakfast,
            had_dinner: self.had_dinner,
            target_inventory_id: self.target_inventory_id,
            goal: None,
        }
    }

    /// What the mind decides about the container `found`, the one it prefers: to ask
    /// its store where the agent stands on its tile, and to go there where not.
    pub open spec fn approach(self, human: &Human, world: &World, found: Option<usize>) -> Decision {
        match found {
            Some(c) => {
                let container = world.containers[c as int];
                if tile_of(container.location) == tile_of(human.location) {
                    Decision { target_inventory_id: Some(container.inventory_id), ..self.unchanged() }
                } else {
                    Decision { goal: Some(tile_of(container.location)), ..self.unchanged() }
                }
            },
            None => self.unchanged(),
        }
    }

    /// What the mind decides where its wait is over.
    pub open spec fn decided(
        self,
        human: &Human,
        world: &World,
        wander: Option<TilePoint>,
    ) -> Decision {
        let own_food = world.stock_of(human.inventory_id as int, Item::Food);
        let resting = self.path.len() == 0;
        match self.state {
            Activity::Idle => {
                let hour = world.time.hour;
                if hour > 6 && !self.had_breakfast {
                    Decision { state: Activity::Eating(EatingState::Finding), ..self.unchanged() }
                } else if hour > 7 && self.progress == 0 {
                    Decision { state: Activity::Working(WorkState::Commuting), ..self.unchanged() }
                } else if hour > 17 && !self.had_dinner {
                    Decision { state: Activity::Eating(EatingState::Finding), ..self.unchanged() }
                } else if human.hunger > HUNGER_MILD {
                    Decision { state: Activity::Eating(EatingState::Finding), ..self.unchanged() }
                } else if human.fatigue > FATIGUE_TIRED {
                    Decision { state: Activity::Sleeping, ..self.unchanged() }
                } else if resting {
                    Decision { goal: wander, ..self.unchanged() }
                } else {
                    self.unchanged()
                }
            },
            Activity::Eating(EatingState::Finding) => {
                if !resting {
                    self.unchanged()
                } else if own_food == 0 {
                    self.approach(
                        human,
                        world,
                        nearest_owned(world, human.location, human.owned_container_indeces@, true),
                    )
                } else {
                    Decision { state: Activity::Eating(EatingState::Eating), ..self.unchanged() }
                }
            },
            Activity::Eating(EatingState::Eating) => {
                if own_food == 0 {
                    Decision {
                        state: Activity::Idle,
                        had_breakfast: true,
                        had_dinner: self.had_dinner || self.had_breakfast,
                        ..self.unchanged()
                    }
                } else {
                    self.unchanged()
                }
            },
            Activity::Working(WorkState::Commuting) => {
                match human.job {
                    Job::Farmer(crop_id) => {
                        let crop = world.crops[crop_id as int];
                        if !resting {
                            self.unchanged()
                        } else if tile_of(human.location) != tile_of(crop.location) {
                            Decision { goal: Some(tile_of(crop.location)), ..self.unchanged() }
                        } else {
                            Decision {
                                state: Activity::Working(WorkState::Working),
                                target_inventory_id: Some(crop.inventory_id),
                                ..self.unchanged()
                            }
                        }
                    },
                }
            },
            Activity::Working(WorkState::Working) => {
                if self.progress > WORK_TICKS {
                    Decision {
                        state: Activity::Working(WorkState::Storing),
                        target_inventory_id: None,
                        ..self.unchanged()
                    }
                } else {
                    self.unchanged()
                }
            },
            Activity::Working(WorkState::Storing) => {
                if !resting {
                    self.unchanged()
                } else if own_food != 0 {
                    self.approach(
                        human,
                        world,
                        nearest_owned(world, human.location, human.owned_container_indeces@, false),
                    )
                } else {
                    Decision { state: Activity::Idle, ..self.unchanged() }
                }
            },
            Activity::Sleeping => {
                if human.fatigue == 0 {
                    Decision { state: Activity::Idle, ..self.unchanged() }
                } else if tile_of(self.home) != tile_of(human.location) && resting {
                    Decision { goal: Some(tile_of(self.home)), ..self.unchanged() }
                } else {
                    self.unchanged()
                }
            },
        }
    }

    /// The mind after it has taken a decision to heart.
    pub open spec fn resolved(self, decision: Decision) -> MindView {
        MindView {
            state: decision.state,
            had_breakfast: decision.had_breakfast,
            had_dinner: decision.had_dinner,
            target_inventory_id: decision.target_inventory_id,
            ..self
        }
    }

    /// The mind after it has asked the way: it walks the route it was given, and
    /// stays where it is where there is none.
    pub open spec fn routed(self, answer: Option<Seq<TilePoint>>) -> MindView {
        MindView {
            path: match answer {
                Some(route) => route,
                None => Seq::empty(),
            },
            ..self
        }
    }

    /// The mind after it has looked where its agent stands: a tile that is reached
    /// leaves the path, and the agent aims for the side through which it enters the
    /// next tile, or for nothing at the end of the path.
    pub open spec fn travelled(self, here: TilePoint) -> MindView {
        let path = if self.path.len() > 0 && self.path.last() == here {
            self.path.drop_last()
        } else {
            self.path
        };
        MindView {
            path,
            travel_aim: if path.len() > 0 {
                Some(Aim { tile: path.last(), side: entry_side(here, path.last()) })
            } else {
                None
            },
            ..self
        }
    }

    /// What the mind does in one tick with the body `human`: it sends its requests,
    /// the body grows hungrier and more tired, or less so where it eats or sleeps,
    /// and the mind looks where the body stands. An agent sleeps where it is at
    /// rest at home.
    pub open spec fn acted(self, human: &Human) -> Deed {
        let inventory_id = human.inventory_id;
        let hunger = human.hunger;
        let fatigue = human.fatigue;
        let idle = Deed { mind: self, hunger, fatigue, sent: Seq::empty() };
        let deed = if self.wait != 0 {
            idle
        } else {
            match self.state {
                Activity::Idle => idle,
                Activity::Eating(EatingState::Eating) => Deed {
                    hunger: if hunger >= HUNGER_PER_FOOD {
                        (hunger - HUNGER_PER_FOOD) as u64
                    } else {
                        0
                    },
                    sent: seq![
                        Envelope { to: inventory_id, message: ItemMessage::Remove(Item::Food, 1) },
                    ],
                    ..idle
                },
                Activity::Eating(EatingState::Finding) => match self.target_inventory_id {
                    Some(target) => Deed {
                        mind: MindView {
                            target_inventory_id: None,
                            wait: WAIT_AFTER_REQUEST,
                            ..self
                        },
                        sent: seq![
                            Envelope {
                                to: target,
                                message: ItemMessage::Take(
                                    Item::Food,
                                    if self.meal_size <= whole_points(hunger) {
                                        self.meal_size
                                    } else {
                                        whole_points(hunger)
                                    },
                                    inventory_id,
                                ),
                            },
                        ],
                        ..idle
                    },
                    None => idle,
                },
                Activity::Working(WorkState::Commuting) => idle,
                Activity::Working(WorkState::Working) => {
                    let progress = if self.progress < u32::MAX {
                        (self.progress + 1) as u32
                    } else {
                        self.progress
                    };
                    if progress > WORK_TICKS && self.target_inventory_id is Some {
                        Deed {
                            mind: MindView {
                                progress,
                                target_inventory_id: None,
                                wait: WAIT_AFTER_REQUEST,
                                ..self
                            },
                            sent: seq![
                                Envelope {
                                    to: self.target_inventory_id.unwrap(),
                                    message: ItemMessage::Take(
                                        Item::Food,
                                        HARVEST_REQUEST,
                                        inventory_id,
                                    ),
                                },
                            ],
                            ..idle
                        }
                    } else {
                        Deed { mind: MindView { progress, ..self }, ..idle }
                    }
                },
                Activity::Working(WorkState::Storing) => match self.target_inventory_id {
                    Some(target) => Deed {
                        mind: MindView { target_inventory_id: None, ..self },
                        sent: seq![
                            Envelope {
                                to: inventory_id,
                                message: ItemMessage::Take(Item::Food, STORE_REQUEST, target),
                            },
                        ],
                        ..idle
                    },
                    None => idle,
                },
                Activity::Sleeping => idle,
            }
        };
        let sleeps = self.wait == 0 && self.state == Activity::Sleeping && self.path.len() == 0
            && tile_of(human.location) == tile_of(self.home);
        let tired = capped_sum(fatigue as int, FATIGUE_PER_TICK as int, u64::MAX as int);
        Deed {
            fatigue: if !sleeps {
                tired as u64
            } else if tired >= SLEEP_PER_TICK {
                (tired - SLEEP_PER_TICK) as u64
            } else {
                0
            },
            hunger: capped_sum(
                deed.hunger as int,
                hunger_rate(deed.hunger) as int,
                u64::MAX as int,
            ) as u64,
            mind: deed.mind.travelled(tile_of(human.location)),
            ..deed
        }
    }
}

/// The mind after one tick of thought. It notices the time. While its wait is
/// above zero it decides nothing and only counts the wait down by one. Once the
/// wait is zero it decides, and asks the way where it decided to set out.
pub open spec fn thought(
    before: MindView,
    human: &Human,
    world: &World,
    wander: Option<TilePoint>,
) -> MindView {
    let seen = before.perceived(human, world);
    if seen.wait > 0 {
        seen.counted_down()
    } else {
        let decision = seen.decided(human, world, wander);
        let resolved = seen.resolved(decision);
        match decision.goal {
            Some(goal) => resolved.routed(world.geography.route(tile_of(human.location), goal)),
            None => resolved,
        }
    }
}

/// The name of an activity, as shown to a user.
pub open spec fn activity_text(state: Activity) -> Seq<char> {
    match state {
        Activity::Idle => "Idle"@,
        Activity::Sleeping => "Sleeping"@,
        Activity::Eating(EatingState::Eating) => "Eating"@,
        Activity::Eating(EatingState::Finding) => "Find Food"@,
        Activity::Working(WorkState::Commuting) => "Work: Commuting"@,
        Activity::Working(WorkState::Working) => "Work: Working"@,
        Activity::Working(WorkState::Storing) => "Work: Storing"@,
    }
}

/// Looks through `owned` for the container that an agent at `from` prefers: the
/// nearest by straight-line distance, and of those as near the one of lowest index.
/// With `with_food` only containers with food in stock count.
pub fn nearest_container(
    world: &World,
    from: &Position,
    owned: &Vec<usize>,
    with_food: bool,
) -> (found: Option<usize>)
    requires
        world.wf(),
        forall|j: int| 0 <= j < owned.len() ==> (#[trigger] owned[j]) < world.containers.len(),
    ensures
        found == nearest_owned(world, *from, owned@, with_food),
{
    let mut best: Option<usize> = None;
    let mut best_distance: u128 = 0;
    let mut j: usize = 0;
    proof {
        assert(owned@.take(0) == Seq::<usize>::empty());
    }
    while j < owned.len()
        invariant
            j <= owned.len(),
            world.wf(),
            forall|k: int| 0 <= k < owned.len() ==> (#[trigger] owned[k]) < world.containers.len(),
            best == nearest_owned(world, *from, owned@.take(j as int), with_food),
            best matches Some(b) ==> b < world.containers.len() && best_distance == place_distance(
                *from,
                world.containers[b as int].location,
            ),
        decreases owned.len() - j,
    {
        let c = owned[j];
        proof {
            assert(owned@.take(j + 1).drop_last() == owned@.take(j as int));
            assert(owned@.take(j + 1).last() == c);
        }
        let container = &world.containers[c];
        let counts = !with_food || world.inventories[container.inventory_id].count(Item::Food) > 0;
        if counts {
            let distance = distance_squared_between(from, &container.location);
            let better = match best {
                None => true,
                Some(b) => distance < best_distance || (distance == best_distance && c < b),
            };
            if better {
                best = Some(c);
                best_distance = distance;
            }
        }
        j = j + 1;
    }
    proof {
        assert(owned@.take(j as int) == owned@);
    }
    best
}

impl Mind {
    /// A mind at rest, with the given home.
    pub fn new(home: Position) -> (mind: Mind)
        ensures
            mind@ == (MindView {
                path: Seq::empty(),
                state: Activity::Idle,
                home,
                had_breakfast: false,
                had_dinner: false,
                meal_size: 0,
                target_inventory_id: None,
                progress: 0,
                wait: 0,
                travel_aim: None,
            }),
    {
        Mind {
            current_path: Vec::new(),
            state: Activity::Idle,
            home,
            had_breakfast: false,
            had_dinner: false,
            meal_size: 0,
            target_inventory_id: None,
            progress: 0,
            wait: 0,
            travel_aim: None,
        }
    }

    /// The name of what the mind is busy with.
    pub fn state(&self) -> (name: &'static str)
        ensures
            name@ == activity_text(self.state),
    {
        match &self.state {
            Activity::Idle => "Idle",
            Activity::Sleeping => "Sleeping",
            Activity::Eating(EatingState::Eating) => "Eating",
            Activity::Eating(EatingState::Finding) => "Find Food",
            Activity::Working(WorkState::Commuting) => "Work: Commuting",
            Activity::Working(WorkState::Working) => "Work: Working",
            Activity::Working(WorkState::Storing) => "Work: Storing",
        }
    }

    fn unchanged(&self) -> (decision: Decision)
        ensures
            decision == self@.unchanged(),
    {
        Decision {
            state: self.state,
            had_breakfast: self.had_breakfast,
            had_dinner: self.had_dinner,
            target_inventory_id: self.target_inventory_id,
            goal: None,
        }
    }

    fn approach(&self, human: &Human, world: &World, found: Option<usize>) -> (decision: Decision)
        requires
            found matches Some(c) ==> c < world.containers.len(),
        ensures
            decision == self@.approach(human, world, found),
    {
        let mut decision = self.unchanged();
        match found {
            Some(c) => {
                let container = &world.containers[c];
                let there = TilePoint::from_vector(&container.location);
                if there == TilePoint::from_vector(&human.location) {
                    decision.target_inventory_id = Some(container.inventory_id);
                } else {
                    decision.goal = Some(there);
                }
            },
            None => {},
        }
        decision
    }

    /// Decides what to do next, from what the agent and the world look like; this
    /// is for a mind whose wait is over. The
    /// world is only read. `wander` is the tile that chance has picked for an idle
    /// stroll in this tick, if it has picked one.
    pub fn decide(&self, human: &Human, world: &World, wander: Option<TilePoint>) -> (decision:
        Decision)
        requires
            world.wf(),
            world.hosts(human),
        ensures
            decision == self@.decided(human, world, wander),
    {
        let mut decision = self.unchanged();
        let own_food = world.inventories[human.inventory_id].count(Item::Food);
        let resting = self.current_path.len() == 0;
        match self.state {
            Activity::Idle => {
                let current_hours = world.time.hour;
                if current_hours > 6 && !self.had_breakfast {
                    decision.state = Activity::Eating(EatingState::Finding);
                } else if current_hours > 7 && self.progress == 0 {
                    decision.state = Activity::Working(WorkState::Commuting);
                } else if current_hours > 17 && !self.had_dinner {
                    decision.state = Activity::Eating(EatingState::Finding);
                } else if human.hunger > HUNGER_MILD {
                    decision.state = Activity::Eating(EatingState::Finding);
                } else if human.fatigue > FATIGUE_TIRED {
                    decision.state = Activity::Sleeping;
                } else if resting {
                    decision.goal = wander;
                }
            },
            Activity::Eating(EatingState::Finding) => {
                if resting {
                    if own_food == 0 {
                        let found = nearest_container(
                            world,
                            &human.location,
                            &human.owned_container_indeces,
                            true,
                        );
                        proof {
                            lemma_nearest_is_owned(
                                world,
                                human.location,
                                human.owned_container_indeces@,
                                true,
                            );
                        }
                        decision = self.approach(human, world, found);
                    } else {
                        decision.state = Activity::Eating(EatingState::Eating);
                    }
                }
            },
            Activity::Eating(EatingState::Eating) => {
                if own_food == 0 {
                    if !self.had_breakfast {
                        decision.had_breakfast = true;
                    } else {
                        decision.had_dinner = true;
                    }
                    decision.state = Activity::Idle;
                }
            },
            Activity::Working(WorkState::Commuting) => {
                match human.job {
                    Job::Farmer(crop_id) => {
                        if resting {
                            let crop = &world.crops[crop_id];
                            let field = TilePoint::from_vector(&crop.location);
                            if TilePoint::from_vector(&human.location) != field {
                                decision.goal = Some(field);
                            } else {
                                decision.state = Activity::Working(WorkState::Working);
                                decision.target_inventory_id = Some(crop.inventory_id);
                            }
                        }
                    },
                }
            },
            Activity::Working(WorkState::Working) => {
                if self.progress > WORK_TICKS {
                    decision.state = Activity::Working(WorkState::Storing);
                    decision.target_inventory_id = None;
                }
            },
            Activity::Working(WorkState::Storing) => {
                if resting {
                    if own_food != 0 {
                        let found = nearest_container(
                            world,
                            &human.location,
                            &human.owned_container_indeces,
                            false,
                        );
                        proof {
                            lemma_nearest_is_owned(
                                world,
                                human.location,
                                human.owned_container_indeces@,
                                false,
                            );
                        }
                        decision = self.approach(human, world, found);
                    } else {
                        decision.state = Activity::Idle;
                    }
                }
            },
            Activity::Sleeping => {
                if human.fatigue == 0 {
                    decision.state = Activity::Idle;
                } else if resting {
                    let home = TilePoint::from_vector(&self.home);
                    if home != TilePoint::from_vector(&human.location) {
                        decision.goal = Some(home);
                    }
                }
            },
        }
        decision
    }

    /// Asks the way from where the agent stands to `goal` and makes it the path;
    /// without a way the path is empty and the agent stays.
    pub fn set_goal(&mut self, human: &Human, goal: TilePoint, geography: &Geography)
        requires
            geography.wf(),
        ensures
            final(self)@ == old(self)@.routed(geography.route(tile_of(human.location), goal)),
            geography.answers(
                tile_of(human.location),
                goal,
                geography.route(tile_of(human.location), goal),
            ),
    {
        match geography.find_path(TilePoint::from_vector(&human.location), goal) {
            Some(route) => {
                self.current_path = route;
            },
            None => {
                self.current_path = Vec::new();
            },
        }
    }

    /// Takes the tile the agent stands on off the path, where it is the next one,
    /// and aims for the next tile after that.
    pub fn update_travel(&mut self, human: &Human)
        ensures
            final(self)@ == old(self)@.travelled(tile_of(human.location)),
    {
        let current_tile = TilePoint::from_vector(&human.location);
        let n = self.current_path.len();
        if n > 0 && self.current_path[n - 1] == current_tile {
            self.current_path.pop();
        }
        let n = self.current_path.len();
        if n > 0 {
            let next_tile = self.current_path[n - 1];
            let side: usize = if current_tile.x > next_tile.x {
                1
            } else if current_tile.x < next_tile.x {
                3
            } else if current_tile.y > next_tile.y {
                2
            } else {
                0
            };
            self.travel_aim = Some(Aim { tile: next_tile, side });
        } else {
            self.travel_aim = None;
        }
    }

    /// One tick of thought. Only the mind changes; the agent and the world are read.
    pub fn think(&mut self, human: &Human, world: &World, wander: Option<TilePoint>)
        requires
            world.wf(),
            world.hosts(human),
        ensures
            final(self)@ == thought(old(self)@, human, world, wander),
    {
        if world.time.is_new_day() {
            self.meal_size = human.daily_food(world) / 2;
            self.had_breakfast = false;
            self.had_dinner = false;
            self.progress = 0;
        }
        if self.wait > 0 {
            self.wait -= 1;
        } else {
            let decision = self.decide(human, world, wander);
            self.state = decision.state;
            self.had_breakfast = decision.had_breakfast;
            self.had_dinner = decision.had_dinner;
            self.target_inventory_id = decision.target_inventory_id;
            match decision.goal {
                Some(goal) => {
                    self.set_goal(human, goal, &world.geography);
                },
                None => {},
            }
        }
    }

    /// One tick of action: the mind sends its requests, its body grows hungrier and
    /// more tired, or less so where it eats or sleeps, and the mind looks where the
    /// body stands to aim for the next tile. Returns the messages sent, each with the
    /// store it goes to.
    pub fn act(&mut self, human: &mut Human) -> (sent: Vec<Envelope>)
        ensures
            ({
                let deed = old(self)@.acted(old(human));
                &&& final(self)@ == deed.mind
                &&& sent@ == deed.sent
                &&& *final(human) == (Human {
                    hunger: deed.hunger,
                    fatigue: deed.fatigue,
                    ..*old(human)
                })
            }),
    {
        let mut sent: Vec<Envelope> = Vec::new();
        let mut asleep = false;
        if self.wait == 0 {
            match self.state {
                Activity::Idle => {},
                Activity::Eating(EatingState::Eating) => {
                    sent.push(
                        Envelope {
                            to: human.inventory_id,
                            message: ItemMessage::Remove(Item::Food, 1),
                        },
                    );
                    human.hunger = human.hunger.saturating_sub(HUNGER_PER_FOOD);
                },
                Activity::Eating(EatingState::Finding) => {
                    if let Some(target_inventory_id) = self.target_inventory_id {
                        let appetite = whole_points_of(human.hunger);
                        let quantity = if self.meal_size <= appetite {
                            self.meal_size
                        } else {
                            appetite
                        };
                        sent.push(
                            Envelope {
                                to: target_inventory_id,
                                message: ItemMessage::Take(
                                    Item::Food,
                                    quantity,
                                    human.inventory_id,
                                ),
                            },
                        );
                        self.target_inventory_id = None;
                        self.wait = WAIT_AFTER_REQUEST;
                    }
                },
                Activity::Working(WorkState::Commuting) => {},
                Activity::Working(WorkState::Working) => {
                    self.progress = self.progress.saturating_add(1);
                    if self.progress > WORK_TICKS {
                        if let Some(target_inventory_id) = self.target_inventory_id {
                            sent.push(
                                Envelope {
                                    to: target_inventory_id,
                                    message: ItemMessage::Take(
                                        Item::Food,
                                        HARVEST_REQUEST,
                                        human.inventory_id,
                                    ),
                                },
                            );
                            self.target_inventory_id = None;
                            self.wait = WAIT_AFTER_REQUEST;
                        }
                    }
                },
                Activity::Working(WorkState::Storing) => {
                    if let Some(target_inventory_id) = self.target_inventory_id {
                        sent.push(
                            Envelope {
                                to: human.inventory_id,
                                message: ItemMessage::Take(
                                    Item::Food,
                                    STORE_REQUEST,
                                    target_inventory_id,
                                ),
                            },
                        );
                        self.target_inventory_id = None;
                    }
                },
                Activity::Sleeping => {
                    asleep = self.current_path.len() == 0 && TilePoint::from_vector(
                        &human.location,
                    ) == TilePoint::from_vector(&self.home);
                },
            }
        }
        human.fatigue = human.fatigue.saturating_add(FATIGUE_PER_TICK);
        if asleep {
            human.fatigue = human.fatigue.saturating_sub(SLEEP_PER_TICK);
        }
        let rate: u64 = if human.hunger < HUNGER_MILD {
            12
        } else if human.hunger < HUNGER_STRONG {
            9
        } else if human.hunger < HUNGER_SEVERE {
            6
        } else {
            3
        };
        human.hunger = human.hunger.saturating_add(rate);
        assert(sent@ =~= old(self)@.acted(old(human)).sent);
        self.update_travel(human);
        sent
    }
}

fn whole_points_of(parts: u64) -> (points: u32)
    ensures
        points == whole_points(parts),
{
    let whole = parts / NEED_SCALE;
    if whole > u32::MAX as u64 {
        u32::MAX
    } else {
        whole as u32
    }
}

/// The preferred container is one of those looked through.
pub proof fn lemma_nearest_is_owned(
    world: &World,
    from: Position,
    owned: Seq<usize>,
    with_food: bool,
)
    ensures
        nearest_owned(world, from, owned, with_food) matches Some(c) ==> owned.contains(c)
            && eligible(world, c, with_food),
        nearest_owned(world, from, owned, with_food) is None ==> forall|j: int|
            0 <= j < owned.len() ==> !eligible(world, #[trigger] owned[j], with_food),
        forall|j: int|
            0 <= j < owned.len() && eligible(world, #[trigger] owned[j], with_food) ==> !nearer(
                world,
                from,
                owned[j],
                nearest_owned(world, from, owned, with_food).unwrap(),
            ),
    decreases owned.len(),
{
    if owned.len() > 0 {
        let rest = owned.drop_last();
        lemma_nearest_is_owned(world, from, rest, with_food);
        let best = nearest_owned(world, from, rest, with_food);
        let found = nearest_owned(world, from, owned, with_food);
        if best is Some {
            let b = best.unwrap();
            let k = choose|k: int| 0 <= k < rest.len() && rest[k] == b;
            assert(owned[k] == b);
        }
        assert forall|j: int|
            0 <= j < owned.len() && eligible(world, #[trigger] owned[j], with_food) implies !nearer(
            world,
            from,
            owned[j],
            found.unwrap(),
        ) by {
            if j < rest.len() {
                assert(rest[j] == owned[j]);
                assert(!nearer(world, from, rest[j], best.unwrap()));
            }
        }
        assert forall|j: int| 0 <= j < owned.len() && found is None implies !eligible(
            world,
            #[trigger] owned[j],
            with_food,
        ) by {
            if j < rest.len() {
                assert(rest[j] == owned[j]);
            }
        }
    }
}

} // verus!
