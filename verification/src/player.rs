//! A connected player and the rules that change one.
use vstd::prelude::*;
use crate::configs::{
    RawClientId,
    ENTITY_PLAYER_MAX_HEALTH,
    INTIIAL_PLAYER_CASH,
    PLAYER_DEATH_PENALTY,
    PLAYER_KILL_REWARD,
    PLAYER_MAX_CASH,
    WORLD_TILE_SIZE,
};
use crate::geometry::{cell_origin, in_world, is_in_world};
use crate::math::{clamp, clamp_spec};
use crate::network::PlayerData;
use crate::weapon::{Invenotry, Weapon, WeaponVariant};

verus! {

broadcast use Invenotry::lemma_constructions;

/// World position of the low corner of a cell.
pub open spec fn cell_position(cell: (i32, i32)) -> (i64, i64) {
    (cell_origin(cell.0 as int) as i64, cell_origin(cell.1 as int) as i64)
}

/// World position of the low corner of a cell.
pub fn spawn_position(cell: (i32, i32)) -> (r: (i64, i64))
    ensures
        r == cell_position(cell),
        r.0 == cell_origin(cell.0 as int),
        r.1 == cell_origin(cell.1 as int),
        in_world(r.0 as int),
        in_world(r.1 as int),
{
    (cell.0 as i64 * WORLD_TILE_SIZE, cell.1 as i64 * WORLD_TILE_SIZE)
}

/// The server's record of one connection: the public data and the weapons owned.
#[derive(Debug, Clone, Copy)]
pub struct Client {
    pub id: RawClientId,
    pub data: PlayerData,
    pub inventory: Invenotry,
}

impl Client {
    /// Health and cash are within their ranges, the position is in the
    /// world, and the weapon in hand is owned.
    pub open spec fn wf(&self) -> bool {
        &&& self.data._id == self.id
        &&& 0 <= self.data.health <= ENTITY_PLAYER_MAX_HEALTH
        &&& 0 <= self.data.cash <= PLAYER_MAX_CASH
        &&& in_world(self.data.position.0 as int)
        &&& in_world(self.data.position.1 as int)
        &&& self.inventory.wf()
        &&& self.inventory.has_spec(self.data.weapon)
        &&& self.inventory.selected_spec() == Some(self.data.weapon)
    }

    /// A player who joins at `position`: full health, the starting cash,
    /// the default loadout, nobody to blame yet.
    pub open spec fn new_spec(id: RawClientId, position: (i64, i64)) -> Client {
        Client {
            id,
            data: PlayerData {
                _id: id,
                _last: None,
                position,
                orientation: 0,
                health: ENTITY_PLAYER_MAX_HEALTH,
                weapon: WeaponVariant::DEAN_1911,
                cash: INTIIAL_PLAYER_CASH,
            },
            inventory: Invenotry::default_loadout_spec(),
        }
    }

    pub fn new(id: RawClientId, position: (i64, i64)) -> (r: Self)
        requires
            in_world(position.0 as int),
            in_world(position.1 as int),
        ensures
            r == Self::new_spec(id, position),
            r.wf(),
    {
        Self {
            id,
            data: PlayerData {
                _id: id,
                _last: None,
                position,
                orientation: 0,
                health: ENTITY_PLAYER_MAX_HEALTH,
                weapon: WeaponVariant::DEAN_1911,
                cash: INTIIAL_PLAYER_CASH,
            },
            inventory: Invenotry::default_loadout(),
        }
    }

    /// Health left after a hit of `damage`: never below zero.
    pub open spec fn health_after(health: i8, damage: u8) -> i8 {
        clamp_spec(health - damage, 0, ENTITY_PLAYER_MAX_HEALTH as int) as i8
    }

    /// Cash after `delta` is added, held within the allowed range.
    pub open spec fn cash_after(cash: i64, delta: int) -> i64 {
        clamp_spec(cash + delta, 0, PLAYER_MAX_CASH as int) as i64
    }

    /// This player after a hit by `shooter`.
    pub open spec fn damaged(self, shooter: RawClientId, damage: u8) -> Client {
        Client {
            data: PlayerData {
                health: Self::health_after(self.data.health, damage),
                _last: Some(shooter),
                ..self.data
            },
            ..self
        }
    }

    /// Takes a hit: health drops by `damage`, down to zero at most, and
    /// `shooter` becomes the one to blame.
    pub fn take_damage(&mut self, shooter: RawClientId, damage: u8)
        requires
            old(self).wf(),
        ensures
            *final(self) == old(self).damaged(shooter, damage),
            final(self).wf(),
            final(self).data.health <= old(self).data.health,
    {
        let left: i64 = clamp(
            self.data.health as i64 - damage as i64,
            0,
            ENTITY_PLAYER_MAX_HEALTH as i64,
        );
        self.data.health = left as i8;
        self.data._last = Some(shooter);
    }

    /// This player after death: the penalty paid, back at `cell` with full
    /// health and the default loadout, and nobody to blame.
    pub open spec fn respawned(self, cell: (i32, i32)) -> Client {
        Client {
            id: self.id,
            data: PlayerData {
                _id: self.data._id,
                _last: None,
                position: cell_position(cell),
                orientation: self.data.orientation,
                weapon: WeaponVariant::DEAN_1911,
                health: ENTITY_PLAYER_MAX_HEALTH,
                cash: Self::cash_after(self.data.cash, -(PLAYER_DEATH_PENALTY as int)),
            },
            inventory: Invenotry::default_loadout_spec(),
        }
    }

    /// Dies and comes back at `cell`. Returns who was to blame.
    pub fn respawn(&mut self, cell: (i32, i32)) -> (killer: Option<RawClientId>)
        requires
            old(self).wf(),
        ensures
            *final(self) == old(self).respawned(cell),
            killer == old(self).data._last,
            final(self).wf(),
            final(self).data._last is None,
            final(self).inventory.is_default_loadout(),
            final(self).data.position == cell_position(cell),
    {
        let killer = self.data._last;
        self.data.cash = clamp(self.data.cash - PLAYER_DEATH_PENALTY, 0, PLAYER_MAX_CASH);
        self.data.position = spawn_position(cell);
        self.data.weapon = WeaponVariant::DEAN_1911;
        self.data.health = ENTITY_PLAYER_MAX_HEALTH;
        self.data._last = None;
        self.inventory = Invenotry::default_loadout();
        killer
    }

    /// This player after the reward for a kill.
    pub open spec fn rewarded(self) -> Client {
        Client {
            data: PlayerData {
                cash: Self::cash_after(self.data.cash, PLAYER_KILL_REWARD as int),
                ..self.data
            },
            ..self
        }
    }

    /// Credits the reward for a kill, up to the cash ceiling.
    pub fn reward(&mut self)
        requires
            old(self).wf(),
        ensures
            *final(self) == old(self).rewarded(),
            final(self).wf(),
    {
        self.data.cash = clamp(self.data.cash + PLAYER_KILL_REWARD, 0, PLAYER_MAX_CASH);
    }

    /// A purchase is granted if the weapon is not owned yet and the cash covers its price.
    pub open spec fn can_buy(self, variant: WeaponVariant) -> bool {
        !self.inventory.has_spec(variant) && self.data.cash >= variant.stats_spec().price
    }

    /// This player after buying `variant`: the price paid, the weapon owned.
    pub open spec fn bought(self, variant: WeaponVariant) -> Client {
        Client {
            data: PlayerData {
                cash: (self.data.cash - variant.stats_spec().price) as i64,
                ..self.data
            },
            inventory: self.inventory.with_weapon(Weapon::new_spec(variant)),
            ..self
        }
    }

    /// Buys a weapon if `can_buy` allows it, and says whether it did.
    /// A refused purchase changes nothing.
    pub fn purchase(&mut self, variant: WeaponVariant) -> (granted: bool)
        requires
            old(self).wf(),
        ensures
            granted == old(self).can_buy(variant),
            granted ==> *final(self) == old(self).bought(variant),
            !granted ==> *final(self) == *old(self),
            final(self).wf(),
            granted ==> final(self).inventory.has_spec(variant),
            granted ==> final(self).data.cash == old(self).data.cash - variant.stats_spec().price,
    {
        let price: i64 = *variant.stats().price() as i64;
        if self.inventory.has(&variant) || self.data.cash < price {
            return false;
        }
        self.data.cash = self.data.cash - price;
        self.inventory.add(variant.weapon_instance());
        true
    }

    /// This player with `variant` in hand.
    pub open spec fn equipped(self, variant: WeaponVariant) -> Client {
        Client {
            data: PlayerData { weapon: variant, ..self.data },
            inventory: self.inventory.with_selected(variant),
            ..self
        }
    }

    /// Takes an owned weapon in hand, and says whether it was owned.
    /// A weapon that is not owned changes nothing.
    pub fn equip(&mut self, variant: WeaponVariant) -> (done: bool)
        requires
            old(self).wf(),
        ensures
            done == old(self).inventory.has_spec(variant),
            done ==> *final(self) == old(self).equipped(variant),
            !done ==> *final(self) == *old(self),
            final(self).wf(),
    {
        if !self.inventory.has(&variant) {
            return false;
        }
        proof {
            self.inventory.lemma_constructions(Weapon::new_spec(variant), variant);
        }
        self.data.weapon = variant;
        self.inventory.select(variant);
        true
    }

    /// A position is accepted if it lies in the world.
    pub open spec fn position_ok(position: (i64, i64)) -> bool {
        in_world(position.0 as int) && in_world(position.1 as int)
    }

    /// This player at `position`.
    pub open spec fn moved(self, position: (i64, i64)) -> Client {
        Client { data: PlayerData { position, ..self.data }, ..self }
    }

    /// Moves to a position in the world, and says whether it was one.
    pub fn move_to(&mut self, position: (i64, i64)) -> (done: bool)
        requires
            old(self).wf(),
        ensures
            done == Self::position_ok(position),
            done ==> *final(self) == old(self).moved(position),
            !done ==> *final(self) == *old(self),
            final(self).wf(),
    {
        if !is_in_world(position.0) || !is_in_world(position.1) {
            return false;
        }
        self.data.position = position;
        true
    }

    /// This player facing `orientation`.
    pub open spec fn turned(self, orientation: i32) -> Client {
        Client { data: PlayerData { orientation, ..self.data }, ..self }
    }

    /// Turns to face `orientation`.
    pub fn turn_to(&mut self, orientation: i32)
        requires
            old(self).wf(),
        ensures
            *final(self) == old(self).turned(orientation),
            final(self).wf(),
    {
        self.data.orientation = orientation;
    }
}

/// Whatever the rules do to a player, health and cash stay within
/// their ranges and the weapon in hand stays owned.
pub proof fn lemma_rules_keep_ranges(
    c: Client,
    shooter: RawClientId,
    damage: u8,
    cell: (i32, i32),
    variant: WeaponVariant,
)
    requires
        c.wf(),
    ensures
        c.damaged(shooter, damage).wf(),
        c.rewarded().wf(),
        c.respawned(cell).wf(),
        c.can_buy(variant) ==> c.bought(variant).wf(),
        c.inventory.has_spec(variant) ==> c.equipped(variant).wf(),
        0 <= c.damaged(shooter, damage).data.health <= c.data.health,
        c.data.cash <= c.rewarded().data.cash <= PLAYER_MAX_CASH,
        0 <= c.respawned(cell).data.cash <= c.data.cash,
        c.can_buy(variant) ==> 0 <= c.bought(variant).data.cash <= c.data.cash,
{
    c.inventory.lemma_constructions(Weapon::new_spec(variant), variant);
}

/// A hit takes exactly the damage from the victim's health, or all that is left of it.
pub proof fn lemma_damage_is_exact(c: Client, shooter: RawClientId, damage: u8)
    requires
        c.wf(),
    ensures
        c.damaged(shooter, damage).data.health == if c.data.health >= damage {
            c.data.health - damage
        } else {
            0
        },
        c.damaged(shooter, damage).data._last == Some(shooter),
        c.damaged(shooter, damage).data.cash == c.data.cash,
        c.damaged(shooter, damage).inventory == c.inventory,
{
}

/// A weapon is sold once: after a purchase the same request is refused,
/// so the price is never paid twice.
pub proof fn lemma_purchase_is_granted_once(c: Client, variant: WeaponVariant)
    requires
        c.wf(),
        c.can_buy(variant),
    ensures
        !c.bought(variant).can_buy(variant),
        c.bought(variant).inventory.has_spec(variant),
        c.bought(variant).data.cash == c.data.cash - variant.stats_spec().price,
{
    c.inventory.lemma_constructions(Weapon::new_spec(variant), variant);
}

/// A player who respawns stands on the cell drawn, has nobody to blame,
/// full health, and the default loadout and nothing else.
pub proof fn lemma_respawn_resets(c: Client, cell: (i32, i32))
    requires
        c.wf(),
    ensures
        c.respawned(cell).wf(),
        c.respawned(cell).id == c.id,
        c.respawned(cell).data.position == cell_position(cell),
        c.respawned(cell).data._last is None,
        c.respawned(cell).data.health == ENTITY_PLAYER_MAX_HEALTH,
        c.respawned(cell).inventory.is_default_loadout(),
        c.respawned(cell).data.weapon == WeaponVariant::DEAN_1911,
{
    c.inventory.lemma_constructions(
        Weapon::new_spec(WeaponVariant::DEAN_1911),
        WeaponVariant::DEAN_1911,
    );
}

} // verus!
