//! The game's data: resources, directions, positions, tiles, the map, the
//! players and the command parser.
pub mod entity;
pub mod map;
pub mod parser;
pub mod resource;

pub use entity::{Entity, EntityId};
pub use map::{WorldMap, Position, ResourceCounts, Tile};
pub use parser::parse;
pub use resource::{Direction, PacketDirection, Resource, Rotation};
