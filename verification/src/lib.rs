//! A tick-driven simulation of agents on a tile grid.
//!
//! - `geography`, `pathfinding`: the grid of tiles and walls, and the search for a
//!   walk from one tile to another.
//! - `item`: capacity-bounded stores, which change only by applying the transfer
//!   messages queued for them.
//! - `human`: the agents, each a body with hunger and fatigue and a mind that
//!   decides by the hour what to do next.
//! - `plant`, `weather`, `clock`, `world`: crops, sun and rain, simulated time, and
//!   the world that holds them all by index.
//! - `gamestate`: the scheduler, which runs one tick of the whole world in phases.
//!
//! Every function states what it returns and changes. All are proved to do so but
//! the few that hand work to `rayon` or `num_traits`: those say in their comment
//! what they take on trust.

pub mod clock;
pub mod gamestate;
pub mod geography;
pub mod human;
pub mod item;
pub mod pathfinding;
pub mod plant;
mod search;
pub mod weather;
pub mod world;
