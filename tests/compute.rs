use rouler::parse::{compute, evaluate, parse_expression, ComputeError};
use rouler::roll::MAX_SIDES;

fn value(text: &str) -> i64 {
    compute(text).unwrap()
}

fn in_range(low: i64, text: &str, high: i64) {
    for _ in 0..100 {
        let v = value(text);
        assert!(low <= v && v <= high, "{} gave {}", text, v);
    }
}

#[test]
fn plain_rolls_stay_in_range() {
    in_range(4, "4d6", 24);
    in_range(6, "2d6 + 4", 16);
    in_range(1, "1D6", 6);
    in_range(1, "1d6", 6);
    in_range(7, "7d1", 7);
    in_range(35, "12d6 + 10d8kh8 + 15", 151);
    in_range(0, "18d20>16", 18);
}

#[test]
fn no_dice_and_zero_sides_give_zero() {
    assert_eq!(value("0d6"), 0);
    assert_eq!(value("5d0"), 0);
    assert_eq!(value("0d0"), 0);
    assert_eq!(value("1000d0"), 0);
}

#[test]
fn keep_clamps_to_the_dice_rolled() {
    assert_eq!(value("5d1kh6"), 5);
    assert_eq!(value("5d1kh0"), 0);
    assert_eq!(value("5d1k2"), 2);
    assert_eq!(value("5d1kh2"), 2);
    assert_eq!(value("5d1K2"), 2);
    assert_eq!(value("5d1KH2"), 2);
}

#[test]
fn drop_lowest_leaves_the_rest() {
    assert_eq!(value("5d1dl2"), 3);
    assert_eq!(value("5d1d2"), 3);
    assert_eq!(value("5d1D2"), 3);
    assert_eq!(value("5d1DL2"), 3);
    assert_eq!(value("5d1dl9"), 0);
    in_range(5, "8d10d3", 50);
}

#[test]
fn targets_count_successes() {
    assert_eq!(value("5d1>=1"), 5);
    assert_eq!(value("5d1>1"), 0);
    assert_eq!(value("5d1>0"), 5);
    assert_eq!(value("5d1<=1"), 5);
    assert_eq!(value("5d1<1"), 0);
    assert_eq!(value("5d1<2"), 5);
    in_range(0, "10d10kh8>=8", 8);
    assert_eq!(value("10d10kh8>=1"), 8);
}

#[test]
fn custom_dice() {
    assert_eq!(value("1d[42]"), 42);
    assert_eq!(value("0d[42]"), 0);
    assert_eq!(value("1d[]"), 0);
    assert_eq!(value("3d[ ]"), 0);
    assert_eq!(value("100d[42]"), 4200);
    in_range(-14, "2d[-5,-6,-7]", -10);
    in_range(10, "2d[5, 6, 7]", 14);
    in_range(10, "2d[ 5,6,7 ]", 14);
}

#[test]
fn precedence_and_groups() {
    assert_eq!(value("2 * (1+1)"), 4);
    assert_eq!(value("(1)"), 1);
    assert_eq!(value("2 * (100d1)"), 200);
    assert_eq!(value("2+3*4"), 14);
    assert_eq!(value("10-2-3"), 5);
    assert_eq!(value("100/10/5"), 2);
    assert_eq!(value(" ( ( 3 ) ) "), 3);
    assert_eq!(value("2*-3"), -6);
}

#[test]
fn division_truncates_toward_zero() {
    assert_eq!(value("7/2"), 3);
    assert_eq!(value("-7/2"), -3);
    assert_eq!(value("7/-2"), -3);
    assert_eq!(value("-7/-2"), 3);
}

#[test]
fn re_evaluation_draws_afresh() {
    let first = value("100d100");
    let mut differs = false;
    for _ in 0..5 {
        if value("100d100") != first {
            differs = true;
        }
    }
    assert!(differs);
}

#[test]
fn malformed_text_is_a_parse_error() {
    assert!(matches!(compute("1 d 6"), Err(ComputeError::Parse(_))));
    assert!(matches!(compute("/ro 1 + 1"), Err(ComputeError::Parse(_))));
    assert!(matches!(compute(""), Err(ComputeError::Parse(_))));
    assert!(matches!(compute("3d-6"), Err(ComputeError::Parse(_))));
    assert!(matches!(compute("(1"), Err(ComputeError::Parse(_))));
    assert!(matches!(compute("1 +"), Err(ComputeError::Parse(_))));
    assert!(matches!(compute("2d[1,2"), Err(ComputeError::Parse(_))));
    assert!(matches!(compute("5d1kh"), Err(ComputeError::Parse(_))));
    assert!(matches!(compute("5d1>"), Err(ComputeError::Parse(_))));
    assert!(matches!(compute("18446744073709551616d6"), Err(ComputeError::Parse(_))));
    assert!(matches!(compute("9223372036854775808"), Err(ComputeError::Parse(_))));
    assert_eq!(compute("1 d 6"), Err(ComputeError::Parse(2)));
}

#[test]
fn arithmetic_errors() {
    assert_eq!(compute("1/0"), Err(ComputeError::DivisionByZero));
    assert_eq!(compute("1/(0d6)"), Err(ComputeError::DivisionByZero));
    assert_eq!(compute("9223372036854775807+1"), Err(ComputeError::Overflow));
    assert_eq!(compute("-9223372036854775808/-1"), Err(ComputeError::Overflow));
    assert_eq!(compute("1000d[9223372036854775807]"), Err(ComputeError::Overflow));
    assert_eq!(compute("-9223372036854775808"), Ok(i64::MIN));
}

#[test]
fn oversized_inputs_are_clamped() {
    assert_eq!(value("18446744073709551615d1"), 1000);
    let v = value("1000d18446744073709551615");
    assert!(1000 <= v && v <= 1000 * MAX_SIDES as i64);
    let faces: Vec<String> = (1..=2001).map(|f| f.to_string()).collect();
    let text = format!("18446744073709551615d[{}]", faces.join(","));
    let v = value(&text);
    assert!(1000 <= v && v <= 1000 * 1000);
}

#[test]
fn parse_then_evaluate_twice() {
    let e = parse_expression("3d1 + 2").unwrap();
    assert_eq!(evaluate(&e), Ok(5));
    assert_eq!(evaluate(&e), Ok(5));
    assert!(matches!(parse_expression("x"), Err(ComputeError::Parse(0))));
}

#[test]
fn parse_errors_name_the_first_byte_not_taken() {
    assert_eq!(compute(""), Err(ComputeError::Parse(0)));
    assert_eq!(compute("(1"), Err(ComputeError::Parse(2)));
    assert_eq!(compute("1 +"), Err(ComputeError::Parse(3)));
    assert_eq!(compute("2d[1,2"), Err(ComputeError::Parse(1)));
    assert_eq!(compute("(2d[1,x])"), Err(ComputeError::Parse(2)));
    assert_eq!(compute("1 d 6"), Err(ComputeError::Parse(2)));
    assert_eq!(compute("4 $"), Err(ComputeError::Parse(2)));
}
