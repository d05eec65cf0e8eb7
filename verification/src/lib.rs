//! Authoritative simulation core of a top-down multiplayer shooter.
//!
//! The server owns the truth of a game: an immutable tile grid, a registry
//! of connected players and a registry of live projectiles. Once per tick
//! it takes in connection events and client messages, moves every
//! projectile, settles what each runs into, and hands back the messages to
//! send, each with its recipients and its delivery class.
//!
//! Every quantity is an integer, so a tick is exact and repeatable. World
//! coordinates and velocities are counted in thousandths of a world unit,
//! angles in thousandths of a radian, times in milliseconds. Turning these
//! into the floating-point numbers and bytes of the wire, and moving the
//! bytes, is left to the program around the library.
//!
//! Chance enters in one place only, where a player is given a ground cell
//! to stand on. Each function that draws a cell has a twin that is handed
//! the cell and says exactly what follows from it.
//!
//! - `tile`: the level description and the grid it denotes
//! - `weapon`: the weapon catalogue and a player's inventory
//! - `player`: one player and the rules of damage, death, reward and purchase
//! - `network`: the message taxonomy
//! - `server`: the registries, and connecting and disconnecting
//! - `session`: what each client message does
//! - `resolver`: the collision and damage pass
//! - `tick`: one whole tick
//! - `flight`: a shot over several ticks
//! - `geometry`, `math`, `search`, `timer`, `utils`, `rng`, `configs`: what the rest stands on
#![allow(non_camel_case_types)]

pub mod configs;
pub mod flight;
pub mod geometry;
pub mod math;
pub mod network;
pub mod player;
pub mod resolver;
pub mod rng;
pub mod search;
pub mod server;
pub mod session;
pub mod tick;
pub mod tile;
pub mod timer;
pub mod utils;
pub mod weapon;
