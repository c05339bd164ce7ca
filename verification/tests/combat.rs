use rust_arpg::combat::{game_running, DamageRng, GameOver, HitPoints};
use rust_arpg::rng::SplitMix64;

#[test]
fn light_damage_rolls_stay_in_range() {
    let mut rng = DamageRng(SplitMix64::new(123));

    for _ in 0..32 {
        assert!((1..=3).contains(&rng.roll_light()));
    }
}

#[test]
fn heavy_damage_rolls_stay_in_range() {
    let mut rng = DamageRng(SplitMix64::new(123));

    for _ in 0..32 {
        assert!((4..=8).contains(&rng.roll_heavy()));
    }
}

#[test]
fn hit_points_damage_clamps_to_remaining_health() {
    let mut hp = HitPoints { current: 3, max: 10 };

    assert_eq!(hp.apply_damage(8), 3);
    assert_eq!(hp.current, 0);
    assert!(hp.is_dead());
}

#[test]
fn damage_rolls_follow_the_generator() {
    let mut light = DamageRng(SplitMix64::new(123));
    let rolls: Vec<i32> = (0..8).map(|_| light.roll_light()).collect();
    assert_eq!(rolls, vec![2, 1, 2, 2, 3, 3, 2, 2]);

    let mut heavy = DamageRng(SplitMix64::new(123));
    let rolls: Vec<i32> = (0..8).map(|_| heavy.roll_heavy()).collect();
    assert_eq!(rolls, vec![4, 7, 4, 5, 6, 5, 8, 6]);

    let mut chance = DamageRng(SplitMix64::new(123));
    let rolls: Vec<u64> = (0..4).map(|_| chance.roll_permille()).collect();
    assert_eq!(rolls, vec![675, 148, 840, 71]);
}

#[test]
fn negative_damage_deals_nothing() {
    let mut hp = HitPoints::new(10);
    assert_eq!(hp.apply_damage(-4), 0);
    assert_eq!(hp.current, 10);
    assert!(!hp.is_dead());
}

#[test]
fn partial_damage_leaves_the_rest() {
    let mut hp = HitPoints::new(20);
    assert_eq!(hp.apply_damage(6), 6);
    assert_eq!(hp.current, 14);
    assert_eq!(hp.max, 20);
    hp.heal_to_full();
    assert_eq!(hp.current, 20);
}

#[test]
fn game_runs_only_when_not_over_paused_or_resting() {
    assert!(game_running(false, None, None));
    assert!(game_running(false, Some(false), Some(false)));
    assert!(!game_running(true, None, None));
    assert!(!game_running(false, Some(true), None));
    assert!(!game_running(false, None, Some(true)));
    assert!(!GameOver::default().0);
}

#[test]
fn default_damage_rng_rolls_in_range() {
    let mut rng = DamageRng::default();
    assert!((1..=3).contains(&rng.roll_light()));
    assert!(rng.roll_permille() < 1000);
}
