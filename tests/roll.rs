use rouler::roll::{DieType, Roll, TargetRoll, MAX_CUSTOM_SIDES, MAX_ROLLS, MAX_SIDES};

#[test]
fn roll_zero_d_zero() {
    assert_eq!(Roll::new().count(0).sides(0).roll_dice(), 0);
}

#[test]
fn roll_one_d_zero() {
    assert_eq!(Roll::new().count(1).sides(0).roll_dice(), 0);
}

#[test]
fn roll_zero_d_one() {
    assert_eq!(Roll::new().count(0).sides(1).roll_dice(), 0);
}

#[test]
fn roll_x_d_one() {
    for x in 1..100 {
        assert_eq!(Roll::new().count(x).sides(1).roll_dice(), x as i64);
    }
}

#[test]
fn roll_one_d_x() {
    for x in 1..100 {
        let roll = Roll::new().count(1).sides(x).roll_dice();
        assert!(1 <= roll && roll <= x as i64);
    }
}

#[test]
fn roll_max() {
    let roll = Roll::new().count(u64::max_value()).sides(u64::max_value()).roll_dice();
    let max = MAX_ROLLS * MAX_SIDES;
    assert!(1 <= roll && roll <= max as i64);
}

#[test]
fn roll_keep_two() {
    assert_eq!(Roll::new().count(5).sides(1).keep_highest(2).roll_dice(), 2);
}

#[test]
fn roll_keep_more() {
    assert_eq!(Roll::new().count(5).sides(1).keep_highest(6).roll_dice(), 5);
}

#[test]
fn roll_keep_zero() {
    assert_eq!(Roll::new().count(5).sides(1).keep_highest(0).roll_dice(), 0);
}

#[test]
fn roll_keep_max() {
    assert_eq!(Roll::new().count(5).sides(1).keep_highest(u64::max_value()).roll_dice(), 5);
}

#[test]
fn drop_none() {
    assert_eq!(Roll::new().drop_lowest(0).roll_dice(), 0);
}

#[test]
fn roll_drop_two() {
    assert_eq!(Roll::new().count(5).sides(1).drop_lowest(2).roll_dice(), 3);
}

#[test]
fn drop_more() {
    assert_eq!(Roll::new().count(5).sides(1).drop_lowest(6).roll_dice(), 0);
}

#[test]
fn drop_zero() {
    assert_eq!(Roll::new().count(5).sides(1).drop_lowest(0).roll_dice(), 5);
}

#[test]
fn drop_max() {
    assert_eq!(Roll::new().count(5).sides(1).drop_lowest(u64::max_value()).roll_dice(), 0);
}

#[test]
fn target_gt() {
    assert_eq!(Roll::new().count(100).sides(1).target_roll(TargetRoll::GT(1)).roll_dice(), 0);
    assert_eq!(Roll::new().count(100).sides(100).target_roll(TargetRoll::GT(0)).roll_dice(), 100);
    assert_eq!(
        Roll::new()
            .count(u64::max_value())
            .sides(u64::max_value())
            .target_roll(TargetRoll::GT(u64::max_value()))
            .roll_dice(),
        0
    );
}

#[test]
fn target_gte() {
    assert_eq!(Roll::new().count(100).sides(1).target_roll(TargetRoll::GTE(1)).roll_dice(), 100);
    assert_eq!(Roll::new().count(100).sides(100).target_roll(TargetRoll::GTE(0)).roll_dice(), 100);
    assert_eq!(
        Roll::new()
            .count(u64::max_value())
            .sides(u64::max_value())
            .target_roll(TargetRoll::GTE(u64::max_value()))
            .roll_dice(),
        0
    );

    assert_eq!(Roll::new().count(10).sides(0).target_roll(TargetRoll::GTE(0)).roll_dice(), 10);
    assert_eq!(Roll::new().count(0).sides(10).target_roll(TargetRoll::GTE(0)).roll_dice(), 0);
    assert_eq!(Roll::new().count(100).sides(1).target_roll(TargetRoll::GTE(1)).roll_dice(), 100);
}

#[test]
fn target_lt() {
    assert_eq!(Roll::new().count(100).sides(100).target_roll(TargetRoll::LT(101)).roll_dice(), 100);
    assert_eq!(Roll::new().count(100).sides(0).target_roll(TargetRoll::LT(1)).roll_dice(), 100);
    assert_eq!(Roll::new().count(100).sides(1).target_roll(TargetRoll::LT(1)).roll_dice(), 0);
    assert_eq!(Roll::new().count(0).sides(100).target_roll(TargetRoll::LT(1)).roll_dice(), 0);
    assert_eq!(Roll::new().count(100).sides(0).target_roll(TargetRoll::LT(0)).roll_dice(), 0);
}

#[test]
fn target_lte() {
    assert_eq!(Roll::new().count(100).sides(100).target_roll(TargetRoll::LTE(100)).roll_dice(), 100);
    assert_eq!(Roll::new().count(100).target_roll(TargetRoll::LTE(0)).roll_dice(), 100);
    assert_eq!(Roll::new().count(100).sides(1).target_roll(TargetRoll::LTE(1)).roll_dice(), 100);
    assert_eq!(Roll::new().sides(100).target_roll(TargetRoll::LTE(1)).roll_dice(), 0);
}

#[test]
fn roll_zero_d_empty() {
    assert_eq!(Roll::new().die_type(DieType::Custom).add_custom_sides(&[]).roll_dice(), 0);
}

#[test]
fn roll_one_d_empty() {
    assert_eq!(Roll::new().die_type(DieType::Custom).count(1).roll_dice(), 0);
}

#[test]
fn roll_custom_zero_d_one() {
    assert_eq!(Roll::new().die_type(DieType::Custom).add_custom_sides(&[42]).roll_dice(), 0);
}

#[test]
fn roll_one_d_one() {
    assert_eq!(Roll::new().die_type(DieType::Custom).count(1).add_custom_sides(&[42]).roll_dice(), 42);
}

#[test]
fn roll_one_d_many() {
    let sequence: Vec<i64> = (-25..25).collect();
    let roll = Roll::new().die_type(DieType::Custom).count(1).add_custom_sides(&sequence[..]).roll_dice();
    assert!(-25 <= roll && roll <= 25);
}

#[test]
fn roll_many_d_one() {
    assert_eq!(Roll::new().die_type(DieType::Custom).count(100).add_custom_sides(&[42]).roll_dice(), 100 * 42);
}

#[test]
fn roll_custom_max() {
    let custom_sides: Vec<i64> = (1..(MAX_CUSTOM_SIDES * 2) as i64).collect();
    let roll = Roll::new()
        .die_type(DieType::Custom)
        .count(u64::max_value())
        .add_custom_sides(&custom_sides[..])
        .roll_dice();
    let max = (MAX_ROLLS as u64) * (MAX_CUSTOM_SIDES as u64);
    assert!(MAX_ROLLS as i64 <= roll && roll <= max as i64);
}

#[test]
fn tally_keeps_highest_of_unsorted_faces() {
    let mut roll = Roll::new();
    roll.count(3).sides(6).keep_highest(1);
    assert_eq!(roll.tally(vec![5, 1, 3]), 5);
    roll.keep_highest(2);
    assert_eq!(roll.tally(vec![1, 6, 2]), 8);
}

#[test]
fn tally_drops_lowest() {
    let mut roll = Roll::new();
    roll.count(4).sides(6).drop_lowest(1);
    assert_eq!(roll.tally(vec![4, 2, 6, 3]), 13);
    roll.drop_lowest(9);
    assert_eq!(roll.tally(vec![4, 2, 6, 3]), 0);
}

#[test]
fn tally_counts_successes_after_keep() {
    let mut roll = Roll::new();
    roll.count(5).sides(10).keep_highest(3).target_roll(TargetRoll::GTE(7));
    assert_eq!(roll.tally(vec![7, 9, 2, 8, 10]), 3);
    roll.target_roll(TargetRoll::LT(9));
    assert_eq!(roll.tally(vec![7, 9, 2, 8, 10]), 1);
    roll.target_roll(TargetRoll::LTE(9));
    assert_eq!(roll.tally(vec![7, 9, 2, 8, 10]), 2);
    roll.target_roll(TargetRoll::GT(9));
    assert_eq!(roll.tally(vec![7, 9, 2, 8, 10]), 1);
}

#[test]
fn tally_sums_without_policies() {
    let mut roll = Roll::new();
    roll.count(3).sides(6);
    assert_eq!(roll.tally(vec![6, 1, 4]), 11);
}

#[test]
fn setters_clamp() {
    let mut roll = Roll::new();
    roll.count(5000).sides(u64::max_value()).target_roll(TargetRoll::GTE(0));
    assert_eq!(roll.roll_dice(), 1000);
}

#[test]
fn sums_fit_guards_custom_faces() {
    let mut roll = Roll::new();
    roll.die_type(DieType::Custom).count(1000).add_custom_sides(&[i64::MAX]);
    assert!(!roll.sums_fit());
    let mut small = Roll::new();
    small.die_type(DieType::Custom).count(1000).add_custom_sides(&[-1000, 1000]);
    assert!(small.sums_fit());
    assert!(Roll::new().count(1000).sides(u64::max_value()).sums_fit());
}

#[test]
fn target_is_met_by() {
    assert!(TargetRoll::GT(3).is_met_by(4));
    assert!(!TargetRoll::GT(3).is_met_by(3));
    assert!(TargetRoll::GTE(3).is_met_by(3));
    assert!(TargetRoll::LT(3).is_met_by(2));
    assert!(!TargetRoll::LT(3).is_met_by(3));
    assert!(TargetRoll::LTE(3).is_met_by(3));
}

#[test]
fn custom_faces_last_write_wins() {
    assert_eq!(
        Roll::new().die_type(DieType::Custom).count(3).add_custom_sides(&[1]).add_custom_sides(&[2]).roll_dice(),
        6
    );
    let mut roll = Roll::new();
    roll.die_type(DieType::Custom).count(2).add_custom_sides(&[7, 7]).add_custom_sides(&[]);
    assert_eq!(roll.roll_dice(), 0);
}

#[test]
fn custom_faces_keep_the_first_thousand() {
    let mut faces: Vec<i64> = vec![5; MAX_CUSTOM_SIDES];
    faces.push(-1000);
    let roll = Roll::new().die_type(DieType::Custom).count(10).add_custom_sides(&faces).roll_dice();
    assert_eq!(roll, 50);
}

#[test]
fn custom_total_sums_given_picks() {
    let mut roll = Roll::new();
    roll.die_type(DieType::Custom).count(2).add_custom_sides(&[-5, -6, -7]);
    assert_eq!(roll.custom_total(&vec![-5, -7]), -12);
    assert_eq!(roll.custom_total(&vec![-6, -6]), -12);
    let mut one = Roll::new();
    one.die_type(DieType::Custom).count(3).add_custom_sides(&[1, 10, 100]);
    assert_eq!(one.custom_total(&vec![100, 1, 10]), 111);
}
