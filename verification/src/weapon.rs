//! The weapon catalogue and what a player owns of it.
use vstd::prelude::*;

verus! {

/// The closed list of weapons.
#[derive(Debug, Clone, Copy, PartialEq, Eq, Hash, Structural)]
pub enum WeaponVariant {
    DEAN_1911,
    AKA_69,
    SHOTPEW,
    PRRR,
}

#[derive(Debug, Clone, Copy, PartialEq, Eq, Structural)]
pub enum WeaponAccuracy {
    Low,
    Moderate,
    High,
}

/// The fixed numbers of one weapon. Times are in milliseconds.
#[derive(Debug, Clone, Copy)]
pub struct WeaponStats {
    pub name: &'static str,
    pub damage: u8,
    pub accuracy: WeaponAccuracy,
    pub reload_time: u64,
    pub fire_time: u64,
    pub mag_size: u8,
    pub total_ammo: u8,
    pub price: u32,
}

impl WeaponStats {
    /// The stats of a weapon that comes with `mags` magazines of `mag_size` rounds.
    pub open spec fn new_spec(
        name: &'static str,
        damage: u8,
        accuracy: WeaponAccuracy,
        fire_time: u64,
        reload_time: u64,
        mag_size: u8,
        mags: u8,
        price: u32,
    ) -> WeaponStats {
        WeaponStats {
            name,
            damage,
            accuracy,
            reload_time,
            fire_time,
            mag_size,
            total_ammo: (mag_size * mags) as u8,
            price,
        }
    }

    pub fn new(
        name: &'static str,
        damage: u8,
        accuracy: WeaponAccuracy,
        fire_time: u64,
        reload_time: u64,
        mag_size: u8,
        mags: u8,
        price: u32,
    ) -> (r: Self)
        requires
            mag_size * mags <= u8::MAX,
        ensures
            r == Self::new_spec(
                name,
                damage,
                accuracy,
                fire_time,
                reload_time,
                mag_size,
                mags,
                price,
            ),
            r.total_ammo == mag_size * mags,
    {
        Self {
            name,
            damage,
            accuracy,
            reload_time,
            fire_time,
            mag_size,
            total_ammo: mag_size * mags,
            price,
        }
    }

    pub fn name(&self) -> (r: &str)
        ensures
            r == self.name,
    {
        self.name
    }

    pub fn damage(&self) -> (r: &u8)
        ensures
            *r == self.damage,
    {
        &self.damage
    }

    pub fn price(&self) -> (r: &u32)
        ensures
            *r == self.price,
    {
        &self.price
    }

    pub fn accuracy(&self) -> (r: &WeaponAccuracy)
        ensures
            *r == self.accuracy,
    {
        &self.accuracy
    }

    pub fn reload_time(&self) -> (r: &u64)
        ensures
            *r == self.reload_time,
    {
        &self.reload_time
    }

    pub fn fire_time(&self) -> (r: &u64)
        ensures
            *r == self.fire_time,
    {
        &self.fire_time
    }
}

impl WeaponVariant {
    /// The catalogue: the stats of each weapon.
    pub open spec fn stats_spec(self) -> WeaponStats {
        match self {
            WeaponVariant::AKA_69 => WeaponStats::new_spec(
                "AKA-69",
                40,
                WeaponAccuracy::Moderate,
                100,
                1500,
                30,
                4,
                2700,
            ),
            WeaponVariant::SHOTPEW => WeaponStats::new_spec(
                "PUMP Shotpew",
                25,
                WeaponAccuracy::Low,
                300,
                2000,
                5,
                5,
                2100,
            ),
            WeaponVariant::DEAN_1911 => WeaponStats::new_spec(
                "DEAN 1911",
                25,
                WeaponAccuracy::High,
                1100,
                1100,
                7,
                4,
                400,
            ),
            WeaponVariant::PRRR => WeaponStats::new_spec(
                "PRRR",
                45,
                WeaponAccuracy::Low,
                50,
                2500,
                30,
                4,
                5200,
            ),
        }
    }

    /// Position of the variant in the catalogue.
    pub open spec fn ordinal_spec(self) -> int {
        match self {
            WeaponVariant::DEAN_1911 => 0,
            WeaponVariant::AKA_69 => 1,
            WeaponVariant::SHOTPEW => 2,
            WeaponVariant::PRRR => 3,
        }
    }

    /// Position of the variant in the catalogue.
    pub fn ordinal(self) -> (r: usize)
        ensures
            r == self.ordinal_spec(),
            r < 4,
    {
        match self {
            WeaponVariant::DEAN_1911 => 0,
            WeaponVariant::AKA_69 => 1,
            WeaponVariant::SHOTPEW => 2,
            WeaponVariant::PRRR => 3,
        }
    }

    /// The stats of this weapon. Defined for every variant.
    pub fn stats(self) -> (r: WeaponStats)
        ensures
            r == self.stats_spec(),
    {
        match self {
            WeaponVariant::AKA_69 => WeaponStats::new(
                "AKA-69",
                40,
                WeaponAccuracy::Moderate,
                100,
                1500,
                30,
                4,
                2700,
            ),
            WeaponVariant::SHOTPEW => WeaponStats::new(
                "PUMP Shotpew",
                25,
                WeaponAccuracy::Low,
                300,
                2000,
                5,
                5,
                2100,
            ),
            WeaponVariant::DEAN_1911 => WeaponStats::new(
                "DEAN 1911",
                25,
                WeaponAccuracy::High,
                1100,
                1100,
                7,
                4,
                400,
            ),
            WeaponVariant::PRRR => WeaponStats::new(
                "PRRR",
                45,
                WeaponAccuracy::Low,
                50,
                2500,
                30,
                4,
                5200,
            ),
        }
    }

    /// A fresh weapon of this variant, as `Weapon::new` makes it.
    pub fn weapon_instance(self) -> (r: Weapon)
        ensures
            r == Weapon::new_spec(self),
            r.wf(),
    {
        Weapon::new(self)
    }
}

/// One player's copy of a weapon: the catalogue entry and the rounds left.
/// `curr_total_ammo` counts every round the player still has, those in the
/// magazine included.
#[derive(Debug, Clone, Copy)]
pub struct Weapon {
    pub variant: WeaponVariant,
    pub stats: WeaponStats,
    pub curr_total_ammo: u8,
    pub curr_mag_ammo: u8,
}

impl Weapon {
    /// The stats are those of the variant and the magazine holds no more than it can.
    pub open spec fn wf(&self) -> bool {
        &&& self.stats == self.variant.stats_spec()
        &&& self.curr_mag_ammo <= self.stats.mag_size
    }

    /// A weapon as bought: a full magazine, and every round of the loadout.
    pub open spec fn new_spec(variant: WeaponVariant) -> Weapon {
        Weapon {
            variant,
            stats: variant.stats_spec(),
            curr_total_ammo: variant.stats_spec().total_ammo,
            curr_mag_ammo: variant.stats_spec().mag_size,
        }
    }

    pub fn new(variant: WeaponVariant) -> (r: Self)
        ensures
            r == Self::new_spec(variant),
            r.wf(),
    {
        let stats = variant.stats();
        Weapon {
            variant,
            stats,
            curr_total_ammo: stats.total_ammo,
            curr_mag_ammo: stats.mag_size,
        }
    }

    /// Rounds that are not in the magazine.
    pub fn remaining_ammo(&self) -> (r: u8)
        ensures
            r == if self.curr_total_ammo >= self.curr_mag_ammo {
                self.curr_total_ammo - self.curr_mag_ammo
            } else {
                0
            },
    {
        match self.curr_total_ammo.checked_sub(self.curr_mag_ammo) {
            Some(remaining) => remaining,
            None => 0,
        }
    }

    /// Fills the magazine, if the rounds left pay for what is missing;
    /// otherwise nothing changes.
    pub fn reload(&mut self)
        requires
            old(self).curr_mag_ammo <= old(self).stats.mag_size,
        ensures
            final(self).curr_mag_ammo <= final(self).stats.mag_size,
            old(self).wf() ==> final(self).wf(),
            final(self).variant == old(self).variant,
            final(self).stats == old(self).stats,
            old(self).curr_total_ammo >= old(self).stats.mag_size - old(self).curr_mag_ammo ==> {
                &&& final(self).curr_mag_ammo == old(self).stats.mag_size
                &&& final(self).curr_total_ammo == old(self).curr_total_ammo - (old(
                    self,
                ).stats.mag_size - old(self).curr_mag_ammo)
            },
            old(self).curr_total_ammo < old(self).stats.mag_size - old(self).curr_mag_ammo
                ==> *final(self) == *old(self),
    {
        let delta_ammo = self.stats.mag_size - self.curr_mag_ammo;
        if let Some(total) = self.curr_total_ammo.checked_sub(delta_ammo) {
            self.curr_total_ammo = total;
            self.curr_mag_ammo = self.curr_mag_ammo + delta_ammo;
        }
    }

    pub fn is_empty(&self) -> (r: bool)
        ensures
            r == (self.curr_mag_ammo == 0),
    {
        self.curr_mag_ammo == 0
    }
}

/// A slot is empty or holds a well-formed weapon of the slot's variant.
pub open spec fn slot_ok(slot: Option<Weapon>, v: WeaponVariant) -> bool {
    match slot {
        Some(w) => w.variant == v && w.wf(),
        None => true,
    }
}

/// The weapons a player owns, at most one of each variant, and the one in hand.
#[derive(Debug, Clone, Copy)]
pub struct Invenotry {
    dean_1911: Option<Weapon>,
    aka_69: Option<Weapon>,
    shotpew: Option<Weapon>,
    prrr: Option<Weapon>,
    selected_weapon: Option<WeaponVariant>,
}

impl Invenotry {
    /// The owned weapon of a variant, if there is one.
    pub closed spec fn get_spec(&self, variant: WeaponVariant) -> Option<Weapon> {
        match variant {
            WeaponVariant::DEAN_1911 => self.dean_1911,
            WeaponVariant::AKA_69 => self.aka_69,
            WeaponVariant::SHOTPEW => self.shotpew,
            WeaponVariant::PRRR => self.prrr,
        }
    }

    /// The variant in hand, if any.
    pub closed spec fn selected_spec(&self) -> Option<WeaponVariant> {
        self.selected_weapon
    }

    /// Each owned weapon is filed under its own variant and is well
    /// formed, and the weapon in hand, if any, is owned.
    pub open spec fn wf(&self) -> bool {
        &&& forall|v: WeaponVariant| slot_ok(#[trigger] self.get_spec(v), v)
        &&& self.selected_spec() matches Some(v) ==> self.has_spec(v)
    }

    /// The inventory of a player who has just spawned.
    pub closed spec fn default_loadout_spec() -> Invenotry {
        Invenotry {
            dean_1911: Some(Weapon::new_spec(WeaponVariant::DEAN_1911)),
            aka_69: None,
            shotpew: None,
            prrr: None,
            selected_weapon: Some(WeaponVariant::DEAN_1911),
        }
    }

    /// This inventory with `wpn` filed under its variant.
    pub closed spec fn with_weapon(self, wpn: Weapon) -> Invenotry {
        match wpn.variant {
            WeaponVariant::DEAN_1911 => Invenotry { dean_1911: Some(wpn), ..self },
            WeaponVariant::AKA_69 => Invenotry { aka_69: Some(wpn), ..self },
            WeaponVariant::SHOTPEW => Invenotry { shotpew: Some(wpn), ..self },
            WeaponVariant::PRRR => Invenotry { prrr: Some(wpn), ..self },
        }
    }

    /// This inventory with `variant` in hand.
    pub closed spec fn with_selected(self, variant: WeaponVariant) -> Invenotry {
        Invenotry { selected_weapon: Some(variant), ..self }
    }

    /// This inventory without the weapon of `variant`; if that was the
    /// weapon in hand, nothing is in hand.
    pub closed spec fn without(self, variant: WeaponVariant) -> Invenotry {
        let emptied = match variant {
            WeaponVariant::DEAN_1911 => Invenotry { dean_1911: None, ..self },
            WeaponVariant::AKA_69 => Invenotry { aka_69: None, ..self },
            WeaponVariant::SHOTPEW => Invenotry { shotpew: None, ..self },
            WeaponVariant::PRRR => Invenotry { prrr: None, ..self },
        };
        if self.selected_weapon == Some(variant) {
            Invenotry { selected_weapon: None, ..emptied }
        } else {
            emptied
        }
    }

    /// What the three constructions above hold.
    pub broadcast proof fn lemma_constructions(self, wpn: Weapon, variant: WeaponVariant)
        ensures
            #![trigger self.with_weapon(wpn), self.with_selected(variant)]
            Self::default_loadout_spec().is_default_loadout(),
            Self::default_loadout_spec().wf(),
            self.with_weapon(wpn).get_spec(wpn.variant) == Some(wpn),
            forall|v: WeaponVariant|
                v != wpn.variant ==> self.with_weapon(wpn).get_spec(v) == self.get_spec(v),
            self.with_weapon(wpn).selected_spec() == self.selected_spec(),
            self.wf() && wpn.wf() ==> self.with_weapon(wpn).wf(),
            self.with_selected(variant).selected_spec() == Some(variant),
            forall|v: WeaponVariant| self.with_selected(variant).get_spec(v) == self.get_spec(v),
            self.wf() && self.has_spec(variant) ==> self.with_selected(variant).wf(),
            self.without(variant).get_spec(variant) is None,
            forall|v: WeaponVariant|
                v != variant ==> self.without(variant).get_spec(v) == self.get_spec(v),
            self.without(variant).selected_spec() == if self.selected_spec() == Some(variant) {
                None
            } else {
                self.selected_spec()
            },
            self.wf() ==> self.without(variant).wf(),
    {
        let a = self.with_weapon(wpn);
        let b = self.with_selected(variant);
        let d = Self::default_loadout_spec();
        let e = self.without(variant);
        assert forall|v: WeaponVariant| slot_ok(#[trigger] d.get_spec(v), v) by {}
        if self.wf() {
            assert forall|v: WeaponVariant| slot_ok(#[trigger] b.get_spec(v), v) by {
                assert(slot_ok(self.get_spec(v), v));
            }
            assert forall|v: WeaponVariant| slot_ok(#[trigger] e.get_spec(v), v) by {
                assert(slot_ok(self.get_spec(v), v));
            }
            if wpn.wf() {
                assert forall|v: WeaponVariant| slot_ok(#[trigger] a.get_spec(v), v) by {
                    assert(slot_ok(self.get_spec(v), v));
                }
            }
        }
    }

    pub open spec fn has_spec(&self, variant: WeaponVariant) -> bool {
        self.get_spec(variant) is Some
    }

    /// The default loadout: a fresh DEAN 1911, in hand, and nothing else.
    pub open spec fn is_default_loadout(&self) -> bool {
        &&& self.selected_spec() == Some(WeaponVariant::DEAN_1911)
        &&& forall|v: WeaponVariant|
            #[trigger] self.get_spec(v) == if v == WeaponVariant::DEAN_1911 {
                Some(Weapon::new_spec(v))
            } else {
                None
            }
    }

    /// Two inventories with the same weapons and the same one in hand are the same.
    pub proof fn lemma_ext_equal(a: Invenotry, b: Invenotry)
        requires
            a.selected_spec() == b.selected_spec(),
            forall|v: WeaponVariant| a.get_spec(v) == b.get_spec(v),
        ensures
            a == b,
    {
        assert(a.get_spec(WeaponVariant::DEAN_1911) == b.get_spec(WeaponVariant::DEAN_1911));
        assert(a.get_spec(WeaponVariant::AKA_69) == b.get_spec(WeaponVariant::AKA_69));
        assert(a.get_spec(WeaponVariant::SHOTPEW) == b.get_spec(WeaponVariant::SHOTPEW));
        assert(a.get_spec(WeaponVariant::PRRR) == b.get_spec(WeaponVariant::PRRR));
    }

    /// An inventory with no weapon and nothing in hand.
    pub fn new() -> (r: Self)
        ensures
            r.wf(),
            r.selected_spec() is None,
            forall|v: WeaponVariant| #[trigger] r.get_spec(v) is None,
    {
        Self { dean_1911: None, aka_69: None, shotpew: None, prrr: None, selected_weapon: None }
    }

    /// The inventory of a player who has just spawned: the default loadout.
    pub fn default_loadout() -> (r: Self)
        ensures
            r == Self::default_loadout_spec(),
            r.wf(),
            r.is_default_loadout(),
    {
        let inventory = Self {
            dean_1911: Some(Weapon::new(WeaponVariant::DEAN_1911)),
            aka_69: None,
            shotpew: None,
            prrr: None,
            selected_weapon: Some(WeaponVariant::DEAN_1911),
        };
        proof {
            inventory.lemma_constructions(
                Weapon::new_spec(WeaponVariant::DEAN_1911),
                WeaponVariant::DEAN_1911,
            );
        }
        inventory
    }

    /// Drops every weapon and grants the default loadout: a fresh DEAN
    /// 1911, which is taken in hand.
    pub fn reset_weapons(&mut self)
        ensures
            *final(self) == Self::default_loadout_spec(),
            final(self).wf(),
            final(self).is_default_loadout(),
    {
        *self = Self::default_loadout();
    }

    pub fn has(&self, variant: &WeaponVariant) -> (r: bool)
        ensures
            r == self.has_spec(*variant),
    {
        self.get(variant).is_some()
    }

    pub fn get(&self, variant: &WeaponVariant) -> (r: Option<&Weapon>)
        ensures
            r.is_some() == self.has_spec(*variant),
            r matches Some(w) ==> Some(*w) == self.get_spec(*variant),
    {
        match variant {
            WeaponVariant::DEAN_1911 => self.dean_1911.as_ref(),
            WeaponVariant::AKA_69 => self.aka_69.as_ref(),
            WeaponVariant::SHOTPEW => self.shotpew.as_ref(),
            WeaponVariant::PRRR => self.prrr.as_ref(),
        }
    }

    /// The weapon in hand, if one is selected and owned.
    pub fn selected_weapon(&self) -> (r: Option<&Weapon>)
        ensures
            match self.selected_spec() {
                Some(v) => r.is_some() == self.has_spec(v) && (r matches Some(w) ==> Some(*w)
                    == self.get_spec(v)),
                None => r is None,
            },
    {
        match self.selected_weapon {
            Some(v) => self.get(&v),
            None => None,
        }
    }

    /// Takes an owned weapon in hand. A weapon that is not owned is not
    /// taken in hand: nothing changes.
    pub fn select(&mut self, variant: WeaponVariant)
        ensures
            old(self).has_spec(variant) ==> *final(self) == old(self).with_selected(variant),
            !old(self).has_spec(variant) ==> *final(self) == *old(self),
            forall|v: WeaponVariant| final(self).get_spec(v) == old(self).get_spec(v),
            old(self).wf() ==> final(self).wf(),
    {
        if self.has(&variant) {
            self.selected_weapon = Some(variant);
            proof {
                if old(self).wf() {
                    assert forall|v: WeaponVariant| slot_ok(#[trigger] self.get_spec(v), v) by {
                        assert(slot_ok(old(self).get_spec(v), v));
                    }
                }
            }
        }
    }

    /// Files a weapon under its variant and hands back the one it replaces.
    /// What is in hand stays in hand.
    pub fn add(&mut self, wpn: Weapon) -> (r: Option<Weapon>)
        ensures
            *final(self) == old(self).with_weapon(wpn),
            r == old(self).get_spec(wpn.variant),
            final(self).get_spec(wpn.variant) == Some(wpn),
            forall|v: WeaponVariant|
                v != wpn.variant ==> final(self).get_spec(v) == old(self).get_spec(v),
            final(self).selected_spec() == old(self).selected_spec(),
            old(self).wf() && wpn.wf() ==> final(self).wf(),
    {
        let previous = self.slot(wpn.variant);
        match wpn.variant {
            WeaponVariant::DEAN_1911 => { self.dean_1911 = Some(wpn); },
            WeaponVariant::AKA_69 => { self.aka_69 = Some(wpn); },
            WeaponVariant::SHOTPEW => { self.shotpew = Some(wpn); },
            WeaponVariant::PRRR => { self.prrr = Some(wpn); },
        }
        proof {
            old(self).lemma_constructions(wpn, wpn.variant);
        }
        previous
    }

    /// Takes the weapon of a variant out, if it is owned, and hands it
    /// back. If it was the weapon in hand, nothing is in hand afterwards.
    pub fn remove(&mut self, variant: WeaponVariant) -> (r: Option<Weapon>)
        ensures
            *final(self) == old(self).without(variant),
            r == old(self).get_spec(variant),
            final(self).get_spec(variant) is None,
            forall|v: WeaponVariant|
                v != variant ==> final(self).get_spec(v) == old(self).get_spec(v),
            final(self).selected_spec() == if old(self).selected_spec() == Some(variant) {
                None
            } else {
                old(self).selected_spec()
            },
            old(self).wf() ==> final(self).wf(),
    {
        let previous = self.slot(variant);
        match variant {
            WeaponVariant::DEAN_1911 => { self.dean_1911 = None; },
            WeaponVariant::AKA_69 => { self.aka_69 = None; },
            WeaponVariant::SHOTPEW => { self.shotpew = None; },
            WeaponVariant::PRRR => { self.prrr = None; },
        }
        let in_hand = match self.selected_weapon {
            Some(v) => v == variant,
            None => false,
        };
        if in_hand {
            self.selected_weapon = None;
        }
        proof {
            old(self).lemma_constructions(Weapon::new_spec(variant), variant);
        }
        previous
    }

    /// What is filed under a variant.
    fn slot(&self, variant: WeaponVariant) -> (r: Option<Weapon>)
        ensures
            r == self.get_spec(variant),
    {
        match variant {
            WeaponVariant::DEAN_1911 => self.dean_1911,
            WeaponVariant::AKA_69 => self.aka_69,
            WeaponVariant::SHOTPEW => self.shotpew,
            WeaponVariant::PRRR => self.prrr,
        }
    }
}

} // verus!
