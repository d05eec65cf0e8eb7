use piw_pew::weapon::{Invenotry, Weapon, WeaponAccuracy, WeaponStats, WeaponVariant};

#[test]
fn catalogue_has_the_four_weapons() {
    let dean = WeaponVariant::DEAN_1911.stats();
    assert_eq!(dean.name(), "DEAN 1911");
    assert_eq!(*dean.damage(), 25);
    assert_eq!(*dean.accuracy(), WeaponAccuracy::High);
    assert_eq!(*dean.fire_time(), 1100);
    assert_eq!(*dean.reload_time(), 1100);
    assert_eq!(dean.mag_size, 7);
    assert_eq!(dean.total_ammo, 28);
    assert_eq!(*dean.price(), 400);

    let aka = WeaponVariant::AKA_69.stats();
    assert_eq!(aka.name(), "AKA-69");
    assert_eq!(*aka.damage(), 40);
    assert_eq!(*aka.accuracy(), WeaponAccuracy::Moderate);
    assert_eq!(*aka.fire_time(), 100);
    assert_eq!(*aka.reload_time(), 1500);
    assert_eq!(aka.mag_size, 30);
    assert_eq!(aka.total_ammo, 120);
    assert_eq!(*aka.price(), 2700);

    let shotpew = WeaponVariant::SHOTPEW.stats();
    assert_eq!(shotpew.name(), "PUMP Shotpew");
    assert_eq!(*shotpew.damage(), 25);
    assert_eq!(*shotpew.accuracy(), WeaponAccuracy::Low);
    assert_eq!(shotpew.mag_size, 5);
    assert_eq!(shotpew.total_ammo, 25);
    assert_eq!(*shotpew.price(), 2100);

    let prrr = WeaponVariant::PRRR.stats();
    assert_eq!(prrr.name(), "PRRR");
    assert_eq!(*prrr.damage(), 45);
    assert_eq!(*prrr.fire_time(), 50);
    assert_eq!(*prrr.reload_time(), 2500);
    assert_eq!(prrr.total_ammo, 120);
    assert_eq!(*prrr.price(), 5200);
}

#[test]
fn stats_multiply_magazines() {
    let s = WeaponStats::new("x", 1, WeaponAccuracy::Low, 2, 3, 51, 5, 9);
    assert_eq!(s.total_ammo, 255);
    assert_eq!(s.mag_size, 51);
    assert_eq!(*s.fire_time(), 2);
    assert_eq!(*s.reload_time(), 3);
}

#[test]
fn fresh_weapon_is_full() {
    for v in [
        WeaponVariant::DEAN_1911,
        WeaponVariant::AKA_69,
        WeaponVariant::SHOTPEW,
        WeaponVariant::PRRR,
    ] {
        let w = Weapon::new(v);
        assert_eq!(w.variant, v);
        assert_eq!(w.curr_mag_ammo, v.stats().mag_size);
        assert_eq!(w.curr_total_ammo, v.stats().total_ammo);
        assert!(!w.is_empty());
        let again = v.weapon_instance();
        assert_eq!(again.curr_mag_ammo, w.curr_mag_ammo);
        assert_eq!(again.curr_total_ammo, w.curr_total_ammo);
    }
    assert_eq!(Weapon::new(WeaponVariant::AKA_69).remaining_ammo(), 90);
}

#[test]
fn ordinals_are_distinct() {
    assert_eq!(WeaponVariant::DEAN_1911.ordinal(), 0);
    assert_eq!(WeaponVariant::AKA_69.ordinal(), 1);
    assert_eq!(WeaponVariant::SHOTPEW.ordinal(), 2);
    assert_eq!(WeaponVariant::PRRR.ordinal(), 3);
}

#[test]
fn reload_fills_the_magazine_from_the_rounds_left() {
    let mut w = Weapon::new(WeaponVariant::DEAN_1911);
    w.curr_mag_ammo = 2;
    w.reload();
    assert_eq!(w.curr_mag_ammo, 7);
    assert_eq!(w.curr_total_ammo, 23);
    assert_eq!(w.remaining_ammo(), 16);
}

#[test]
fn reload_without_enough_rounds_changes_nothing() {
    let mut w = Weapon::new(WeaponVariant::DEAN_1911);
    w.curr_mag_ammo = 0;
    w.curr_total_ammo = 6;
    assert!(w.is_empty());
    w.reload();
    assert_eq!(w.curr_mag_ammo, 0);
    assert_eq!(w.curr_total_ammo, 6);
    assert_eq!(w.remaining_ammo(), 6);
}

#[test]
fn remaining_ammo_never_underflows() {
    let mut w = Weapon::new(WeaponVariant::SHOTPEW);
    w.curr_total_ammo = 3;
    w.curr_mag_ammo = 5;
    assert_eq!(w.remaining_ammo(), 0);
}

#[test]
fn inventory_starts_empty() {
    let inv = Invenotry::new();
    assert!(!inv.has(&WeaponVariant::DEAN_1911));
    assert!(inv.get(&WeaponVariant::AKA_69).is_none());
    assert!(inv.selected_weapon().is_none());
}

#[test]
fn inventory_add_replaces_and_remove_takes_out() {
    let mut inv = Invenotry::new();
    assert!(inv.add(Weapon::new(WeaponVariant::AKA_69)).is_none());
    assert!(inv.has(&WeaponVariant::AKA_69));
    assert!(!inv.has(&WeaponVariant::PRRR));
    let mut used = Weapon::new(WeaponVariant::AKA_69);
    used.curr_mag_ammo = 1;
    let old = inv.add(used).unwrap();
    assert_eq!(old.curr_mag_ammo, 30);
    assert_eq!(inv.get(&WeaponVariant::AKA_69).unwrap().curr_mag_ammo, 1);
    let out = inv.remove(WeaponVariant::AKA_69).unwrap();
    assert_eq!(out.curr_mag_ammo, 1);
    assert!(!inv.has(&WeaponVariant::AKA_69));
    assert!(inv.remove(WeaponVariant::AKA_69).is_none());
}

#[test]
fn select_takes_only_owned_weapons_in_hand() {
    let mut inv = Invenotry::new();
    inv.select(WeaponVariant::PRRR);
    assert!(inv.selected_weapon().is_none());
    inv.add(Weapon::new(WeaponVariant::PRRR));
    inv.select(WeaponVariant::PRRR);
    assert_eq!(inv.selected_weapon().unwrap().variant, WeaponVariant::PRRR);
    // a weapon that is not owned leaves the one in hand where it is
    inv.select(WeaponVariant::SHOTPEW);
    assert_eq!(inv.selected_weapon().unwrap().variant, WeaponVariant::PRRR);
    assert!(!inv.has(&WeaponVariant::SHOTPEW));
    assert!(inv.has(&WeaponVariant::PRRR));
}

#[test]
fn reset_gives_the_default_loadout_in_hand() {
    let mut inv = Invenotry::new();
    inv.add(Weapon::new(WeaponVariant::AKA_69));
    inv.select(WeaponVariant::AKA_69);
    inv.reset_weapons();
    assert!(inv.has(&WeaponVariant::DEAN_1911));
    assert!(!inv.has(&WeaponVariant::AKA_69));
    assert!(!inv.has(&WeaponVariant::SHOTPEW));
    assert!(!inv.has(&WeaponVariant::PRRR));
    let in_hand = inv.selected_weapon().unwrap();
    assert_eq!(in_hand.variant, WeaponVariant::DEAN_1911);
    assert_eq!(in_hand.curr_mag_ammo, 7);
    assert_eq!(in_hand.curr_total_ammo, 28);
    let fresh = Invenotry::default_loadout();
    assert_eq!(fresh.selected_weapon().unwrap().variant, WeaponVariant::DEAN_1911);
    assert!(!fresh.has(&WeaponVariant::AKA_69));
}

#[test]
fn removing_the_weapon_in_hand_empties_the_hand() {
    let mut inv = Invenotry::default_loadout();
    inv.add(Weapon::new(WeaponVariant::SHOTPEW));
    assert!(inv.remove(WeaponVariant::SHOTPEW).is_some());
    assert_eq!(inv.selected_weapon().unwrap().variant, WeaponVariant::DEAN_1911);
    inv.add(Weapon::new(WeaponVariant::SHOTPEW));
    inv.select(WeaponVariant::SHOTPEW);
    assert_eq!(inv.remove(WeaponVariant::SHOTPEW).unwrap().variant, WeaponVariant::SHOTPEW);
    assert!(inv.selected_weapon().is_none());
    assert!(inv.has(&WeaponVariant::DEAN_1911));
}

#[test]
fn reload_works_on_a_weapon_with_stats_of_its_own() {
    let mut w = Weapon::new(WeaponVariant::DEAN_1911);
    w.stats = WeaponStats::new("custom", 1, WeaponAccuracy::Low, 1, 1, 10, 3, 0);
    w.curr_mag_ammo = 4;
    w.curr_total_ammo = 30;
    w.reload();
    assert_eq!(w.curr_mag_ammo, 10);
    assert_eq!(w.curr_total_ammo, 24);
}
