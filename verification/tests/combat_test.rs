use rts_engine::combat::{can_shoot, life_after_hit};

#[test]
fn a_hit_takes_ten_life() {
    assert_eq!(life_after_hit(100), 90);
    assert_eq!(life_after_hit(11), 1);
}

#[test]
fn life_never_goes_below_zero() {
    assert_eq!(life_after_hit(10), 0);
    assert_eq!(life_after_hit(3), 0);
    assert_eq!(life_after_hit(0), 0);
    let mut life = 35;
    for _ in 0..4 {
        life = life_after_hit(life);
    }
    assert_eq!(life, 0);
}

#[test]
fn units_fire_once_reloaded() {
    assert!(!can_shoot(10, 7, 3));
    assert!(can_shoot(11, 7, 3));
    assert!(can_shoot(4, 0, 3));
}
