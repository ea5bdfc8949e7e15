//! A tick-driven farm simulation: a sparse, expandable tile grid whose crops,
//! trees and hives grow over time, worker agents that reserve, path to and
//! harvest ready tiles, wandering animals that leave drops, and the economy
//! that scales every payout by purchased upgrades and the local climate.
use vstd::prelude::*;

pub mod coord_map;
pub mod tables;
pub mod player;
pub mod upgrades;
pub mod tile;
pub mod farm_map;
pub mod yields;
pub mod route;
pub mod harvest;
pub mod worker;
pub mod animal;
pub mod shop;
pub mod actions;
pub mod inventory;
pub mod localization;
pub mod utils;

verus! {

} // verus!
