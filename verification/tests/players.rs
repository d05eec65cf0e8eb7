use piw_pew::configs::{ENTITY_PLAYER_MAX_HEALTH, PLAYER_MAX_CASH};
use piw_pew::geometry::{WORLD_MAX, WORLD_MIN};
use piw_pew::player::{spawn_position, Client};
use piw_pew::weapon::WeaponVariant;

#[test]
fn new_player_has_the_starting_state() {
    let c = Client::new(7, (70_000, 140_000));
    assert_eq!(c.id, 7);
    assert_eq!(c.data._id, 7);
    assert_eq!(c.data._last, None);
    assert_eq!(c.data.position, (70_000, 140_000));
    assert_eq!(c.data.orientation, 0);
    assert_eq!(c.data.health, 100);
    assert_eq!(c.data.cash, 200);
    assert_eq!(c.data.weapon, WeaponVariant::DEAN_1911);
    assert!(c.inventory.has(&WeaponVariant::DEAN_1911));
    assert_eq!(c.inventory.selected_weapon().unwrap().variant, WeaponVariant::DEAN_1911);
}

#[test]
fn spawn_position_is_the_corner_of_the_cell() {
    assert_eq!(spawn_position((0, 0)), (0, 0));
    assert_eq!(spawn_position((3, 2)), (210_000, 140_000));
    assert_eq!(spawn_position((i32::MAX, i32::MIN)), (WORLD_MAX, WORLD_MIN));
}

#[test]
fn damage_is_clamped_at_zero() {
    let mut c = Client::new(1, (0, 0));
    c.take_damage(9, 40);
    assert_eq!(c.data.health, 60);
    assert_eq!(c.data._last, Some(9));
    c.take_damage(8, 45);
    assert_eq!(c.data.health, 15);
    assert_eq!(c.data._last, Some(8));
    c.take_damage(9, 255);
    assert_eq!(c.data.health, 0);
    c.take_damage(9, 1);
    assert_eq!(c.data.health, 0);
}

#[test]
fn damage_of_zero_changes_only_the_blame() {
    let mut c = Client::new(1, (0, 0));
    c.take_damage(3, 0);
    assert_eq!(c.data.health, 100);
    assert_eq!(c.data._last, Some(3));
}

#[test]
fn reward_stops_at_the_ceiling() {
    let mut c = Client::new(1, (0, 0));
    c.reward();
    assert_eq!(c.data.cash, 700);
    c.data.cash = 15_800;
    c.reward();
    assert_eq!(c.data.cash, 16_000);
    c.reward();
    assert_eq!(c.data.cash, PLAYER_MAX_CASH);
}

#[test]
fn respawn_resets_the_player() {
    let mut c = Client::new(1, (0, 0));
    c.data.cash = 3000;
    assert!(c.purchase(WeaponVariant::AKA_69));
    assert!(c.equip(WeaponVariant::AKA_69));
    c.turn_to(1570);
    c.take_damage(5, 200);
    assert_eq!(c.data.health, 0);
    let killer = c.respawn((2, 3));
    assert_eq!(killer, Some(5));
    assert_eq!(c.data._last, None);
    assert_eq!(c.data.position, (140_000, 210_000));
    assert_eq!(c.data.health, ENTITY_PLAYER_MAX_HEALTH);
    assert_eq!(c.data.cash, 0);
    assert_eq!(c.data.weapon, WeaponVariant::DEAN_1911);
    assert_eq!(c.data.orientation, 1570);
    assert_eq!(c.id, 1);
    assert!(c.inventory.has(&WeaponVariant::DEAN_1911));
    assert!(!c.inventory.has(&WeaponVariant::AKA_69));
    assert_eq!(c.inventory.selected_weapon().unwrap().variant, WeaponVariant::DEAN_1911);
    assert_eq!(c.inventory.get(&WeaponVariant::DEAN_1911).unwrap().curr_mag_ammo, 7);
}

#[test]
fn death_penalty_is_clamped_at_zero() {
    let mut c = Client::new(1, (0, 0));
    c.data.cash = 1200;
    assert_eq!(c.respawn((0, 0)), None);
    assert_eq!(c.data.cash, 700);
    c.respawn((0, 0));
    assert_eq!(c.data.cash, 200);
    c.respawn((0, 0));
    assert_eq!(c.data.cash, 0);
    c.respawn((0, 0));
    assert_eq!(c.data.cash, 0);
}

#[test]
fn purchase_is_refused_without_the_cash() {
    let mut c = Client::new(1, (0, 0));
    c.data.cash = 2699;
    assert!(!c.purchase(WeaponVariant::AKA_69));
    assert_eq!(c.data.cash, 2699);
    assert!(!c.inventory.has(&WeaponVariant::AKA_69));
}

#[test]
fn purchase_is_granted_once() {
    let mut c = Client::new(1, (0, 0));
    c.data.cash = 2750;
    assert!(c.purchase(WeaponVariant::AKA_69));
    assert_eq!(c.data.cash, 50);
    assert!(c.inventory.has(&WeaponVariant::AKA_69));
    assert_eq!(c.inventory.get(&WeaponVariant::AKA_69).unwrap().curr_total_ammo, 120);
    assert_eq!(c.data.weapon, WeaponVariant::DEAN_1911);
    c.data.cash = 9000;
    assert!(!c.purchase(WeaponVariant::AKA_69));
    assert_eq!(c.data.cash, 9000);
}

#[test]
fn purchase_at_the_exact_price_leaves_nothing() {
    let mut c = Client::new(1, (0, 0));
    c.data.cash = 5200;
    assert!(c.purchase(WeaponVariant::PRRR));
    assert_eq!(c.data.cash, 0);
}

#[test]
fn purchase_of_the_default_weapon_is_refused() {
    let mut c = Client::new(1, (0, 0));
    c.data.cash = 1000;
    assert!(!c.purchase(WeaponVariant::DEAN_1911));
    assert_eq!(c.data.cash, 1000);
}

#[test]
fn equip_needs_ownership() {
    let mut c = Client::new(1, (0, 0));
    assert!(!c.equip(WeaponVariant::SHOTPEW));
    assert_eq!(c.data.weapon, WeaponVariant::DEAN_1911);
    c.data.cash = 2100;
    assert!(c.purchase(WeaponVariant::SHOTPEW));
    assert!(c.equip(WeaponVariant::SHOTPEW));
    assert_eq!(c.data.weapon, WeaponVariant::SHOTPEW);
    assert_eq!(c.inventory.selected_weapon().unwrap().variant, WeaponVariant::SHOTPEW);
}

#[test]
fn move_to_refuses_positions_outside_the_world() {
    let mut c = Client::new(1, (0, 0));
    assert!(c.move_to((WORLD_MAX, WORLD_MIN)));
    assert_eq!(c.data.position, (WORLD_MAX, WORLD_MIN));
    assert!(!c.move_to((WORLD_MAX + 1, 0)));
    assert!(!c.move_to((0, WORLD_MIN - 1)));
    assert_eq!(c.data.position, (WORLD_MAX, WORLD_MIN));
}
