//! The simulation core of a tile-based real-time game: an entity store with a
//! closed set of component columns, a dependency-ordered system scheduler, the
//! movement and animation systems, and the tile map resources.
pub mod components;
pub mod dispatch;
pub mod entities;
pub mod game;
pub mod input;
pub mod resources;
pub mod scheduler;
pub mod systems;
pub mod world;
