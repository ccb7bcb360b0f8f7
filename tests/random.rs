use rouler::random::{roll_custom_dice_raw, roll_dice_raw};
use rouler::roll::{MAX_CUSTOM_SIDES, MAX_ROLLS, MAX_SIDES};

#[test]
fn random_zero_d_zero() {
    assert_eq!(roll_dice_raw(0, 0, 0), 0);
}

#[test]
fn random_one_d_zero() {
    assert_eq!(roll_dice_raw(1, 0, 1), 0);
}

#[test]
fn random_zero_d_one() {
    assert_eq!(roll_dice_raw(0, 1, 0), 0);
}

#[test]
fn random_x_d_one() {
    for x in 1..100 {
        assert_eq!(roll_dice_raw(x, 1, x), x);
    }
}

#[test]
fn random_one_d_x() {
    for x in 1..100 {
        let roll = roll_dice_raw(1, x, 1);
        assert!(1 <= roll && roll <= x);
    }
}

#[test]
fn random_max() {
    let roll = roll_dice_raw(u64::max_value(), u64::max_value(), u64::max_value());
    let max = MAX_ROLLS * MAX_SIDES;
    assert!(1 <= roll && roll <= max);
}

#[test]
fn random_keep_two() {
    assert_eq!(roll_dice_raw(5, 1, 2), 2);
}

#[test]
fn random_keep_more() {
    assert_eq!(roll_dice_raw(5, 1, 6), 5);
}

#[test]
fn random_keep_zero() {
    assert_eq!(roll_dice_raw(5, 1, 0), 0);
}

#[test]
fn random_keep_max() {
    assert_eq!(roll_dice_raw(5, 1, u64::max_value()), 5);
}

#[test]
fn random_zero_d_empty() {
    assert_eq!(roll_custom_dice_raw(0, &[]), 0);
}

#[test]
fn random_one_d_empty() {
    assert_eq!(roll_custom_dice_raw(1, &[]), 0);
}

#[test]
fn random_custom_zero_d_one() {
    assert_eq!(roll_custom_dice_raw(0, &[42]), 0);
}

#[test]
fn random_one_d_one() {
    assert_eq!(roll_custom_dice_raw(1, &[42]), 42);
}

#[test]
fn random_one_d_many() {
    let sequence: Vec<i64> = (-25..25).collect();
    let roll = roll_custom_dice_raw(1, &sequence[..]);
    assert!(-25 <= roll && roll <= 25);
}

#[test]
fn random_many_d_one() {
    assert_eq!(roll_custom_dice_raw(100, &[42]), 100 * 42);
}

#[test]
fn random_custom_max() {
    let custom_sides: Vec<i64> = (1..(MAX_CUSTOM_SIDES * 2) as i64).collect();
    let roll = roll_custom_dice_raw(u64::max_value(), &custom_sides[..]);
    let max = (MAX_ROLLS as u64) * (MAX_CUSTOM_SIDES as u64);
    assert!(MAX_ROLLS as i64 <= roll && roll <= max as i64);
}

#[test]
fn random_keep_highest_keeps_high_faces() {
    for _ in 0..50 {
        let roll = roll_dice_raw(20, 6, 1);
        assert!(1 <= roll && roll <= 6);
    }
}
