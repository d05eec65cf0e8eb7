//! Fixed numbers of the simulation.
use vstd::prelude::*;

verus! {

pub type Cash = i64;

pub type Damage = u8;

pub type Health = i8;

pub type RawClientId = u64;

pub type RawProjectileId = u64;

/// World coordinates per world unit: positions are kept in thousandths.
pub const WORLD_SCALE: i64 = 1000;

/// Edge of a square tile, in world coordinates.
pub const WORLD_TILE_SIZE: i64 = 70_000;

/// Edge of a player's square footprint, in world coordinates.
pub const ENTITY_PLAYER_SIZE: i64 = 56_000;

/// Radius of a projectile, in world coordinates.
pub const ENTITY_PROJECTILE_RADIUS: i64 = 2_000;

/// Largest displacement of a projectile along one axis in one tick.
pub const ENTITY_PROJECTILE_SPEED: i64 = 50_000;

pub const ENTITY_PLAYER_MAX_HEALTH: Health = 100;

pub const INTIIAL_PLAYER_CASH: Cash = 200;

pub const PLAYER_MAX_CASH: Cash = 16_000;

pub const PLAYER_KILL_REWARD: Cash = 500;

pub const PLAYER_DEATH_PENALTY: Cash = 500;

pub const SERVER_MAX_CLIENTS: usize = 12;

pub const PROTOCOL_ID: u64 = 69;

/// Length of a tick in milliseconds.
pub const DELTA_TIME_MS: u64 = 16;

/// Size of the fixed, NUL-terminated buffer that carries a display name.
pub const INITIAL_PAYLOAD_SIZE: usize = 255;

} // verus!
