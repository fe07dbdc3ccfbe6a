//! Simulation core of a turn-based tile roguelike: entity storage, a spatial
//! occupancy index, shadowcast visibility, NPC behaviour, timed effects and the
//! game controller that drives them.

use vstd::prelude::*;

pub mod geom;
pub mod entity;
pub mod component;
pub mod world;
pub mod realtime;
pub mod shadowcast;
pub mod visibility;
pub mod rng;
pub mod behaviour;
pub mod game;
pub mod text;
pub mod border;
pub mod frontend;

pub use geom::{CardinalDirection, Coord, Size};
pub use entity::Entity;
pub use world::{CharacterInfo, HitPoints, Layer, Tile, ToRenderEntity};
pub use realtime::ExternalEvent;
pub use visibility::{CellVisibility, Omniscient, VisibilityGrid};
pub use game::{Config, Game, GameControlFlow, Input};
pub use text::{Dimensions, FontBytes, StringView};

verus! {

} // verus!
