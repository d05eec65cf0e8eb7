use piw_pew::timer::{Timer, Timers};

#[test]
fn unknown_timer_fires_and_starts() {
    let mut timers = Timer::default();
    assert_eq!(timers.started_at(Timers::PlayerReloading), None);
    assert!(timers.after(Timers::PlayerReloading, 1_000, 50));
    assert_eq!(timers.started_at(Timers::PlayerReloading), Some(50));
}

#[test]
fn timer_fires_only_after_the_duration() {
    let mut timers = Timer::default();
    timers.add(Timers::WeaponShot(100), 1_000);
    assert!(!timers.after(Timers::WeaponShot(100), 100, 1_099));
    assert_eq!(timers.started_at(Timers::WeaponShot(100)), Some(1_000));
    assert!(timers.after(Timers::WeaponShot(100), 100, 1_100));
    assert_eq!(timers.started_at(Timers::WeaponShot(100)), Some(1_100));
    assert!(!timers.after(Timers::WeaponShot(100), 100, 1_150));
    assert!(timers.after(Timers::WeaponShot(100), 0, 1_150));
}

#[test]
fn timers_are_kept_apart() {
    let mut timers = Timer::default();
    timers.add(Timers::WeaponShot(100), 10);
    timers.add(Timers::WeaponShot(300), 20);
    timers.add(Timers::PlayerReloading, 30);
    timers.add(Timers::WeaponShot(100), 40);
    assert_eq!(timers.started_at(Timers::WeaponShot(100)), Some(40));
    assert_eq!(timers.started_at(Timers::WeaponShot(300)), Some(20));
    assert_eq!(timers.started_at(Timers::PlayerReloading), Some(30));
    assert_eq!(timers.started_at(Timers::WeaponShot(50)), None);
}

#[test]
fn clock_that_went_back_counts_as_no_time() {
    let mut timers = Timer::default();
    timers.add(Timers::PlayerReloading, 500);
    assert!(!timers.after(Timers::PlayerReloading, 1, 400));
    assert!(timers.after(Timers::PlayerReloading, 0, 400));
    assert_eq!(timers.started_at(Timers::PlayerReloading), Some(400));
}
