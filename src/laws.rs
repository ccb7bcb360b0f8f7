//! General facts about what evaluating a roll term can give.

use crate::parse::{
    digits_end, digits_value, is_digit, outcome, parse_expr, parse_factor, parse_formula, parse_roll,
    parse_term, possible_draws, result_of, skip_spaces, ComputeError, Draws, Formula,
};
use crate::roll::{
    ascending, clamp, lemma_ascending_total, lemma_sorted_within, successes, sum_faces, sum_picks,
    DieType, RollView, TargetRoll, MAX_ROLLS, MAX_SIDES,
};
use vstd::prelude::*;

verus! {

/// A sum of faces that each lie in `lo..=hi` lies between `len * lo` and `len * hi`.
pub proof fn lemma_sum_faces_within(s: Seq<u64>, lo: int, hi: int)
    requires
        forall|i: int| 0 <= i < s.len() ==> lo <= #[trigger] s[i] <= hi,
    ensures
        s.len() * lo <= sum_faces(s) <= s.len() * hi,
    decreases s.len(),
{
    if s.len() > 0 {
        let t = s.drop_last();
        assert forall|i: int| 0 <= i < t.len() implies lo <= #[trigger] t[i] <= hi by {
            assert(t[i] == s[i]);
        }
        lemma_sum_faces_within(t, lo, hi);
        let n = s.len() as int;
        assert(n * lo == (n - 1) * lo + lo && n * hi == (n - 1) * hi + hi) by (nonlinear_arith);
    }
}

/// A sum of custom faces that each lie in `lo..=hi` lies between `len * lo`
/// and `len * hi`.
pub proof fn lemma_sum_picks_within(s: Seq<i64>, lo: int, hi: int)
    requires
        forall|i: int| 0 <= i < s.len() ==> lo <= #[trigger] s[i] <= hi,
    ensures
        s.len() * lo <= sum_picks(s) <= s.len() * hi,
    decreases s.len(),
{
    if s.len() > 0 {
        let t = s.drop_last();
        assert forall|i: int| 0 <= i < t.len() implies lo <= #[trigger] t[i] <= hi by {
            assert(t[i] == s[i]);
        }
        lemma_sum_picks_within(t, lo, hi);
        let n = s.len() as int;
        assert(n * lo == (n - 1) * lo + lo && n * hi == (n - 1) * hi + hi) by (nonlinear_arith);
    }
}

/// The number of successes among some faces is at most their number.
pub proof fn lemma_successes_within(s: Seq<u64>, t: TargetRoll)
    ensures
        0 <= successes(s, t) <= s.len(),
    decreases s.len(),
{
    if s.len() > 0 {
        lemma_successes_within(s.drop_last(), t);
    }
}

/// The faces that a numeric roll keeps lie within what one die can show, and
/// are no more than the dice thrown.
proof fn lemma_kept_within(r: RollView, faces: Seq<u64>, lo: int, hi: int)
    requires
        r.can_throw(faces),
        forall|i: int| 0 <= i < faces.len() ==> lo <= #[trigger] faces[i] <= hi,
    ensures
        r.kept(faces.sort_by(ascending())).len() <= r.count,
        forall|i: int|
            0 <= i < r.kept(faces.sort_by(ascending())).len() ==> lo <= #[trigger] r.kept(
                faces.sort_by(ascending()),
            )[i] <= hi,
{
    let sorted = faces.sort_by(ascending());
    lemma_ascending_total();
    faces.lemma_sort_by_ensures(ascending());
    lemma_sorted_within(faces, sorted, lo, hi);
    let kept = r.kept(sorted);
    assert forall|i: int| 0 <= i < kept.len() implies lo <= #[trigger] kept[i] <= hi by {
        match r.take {
            None => {},
            Some(_) => {
                let start = sorted.len() - kept.len();
                assert(kept[i] == sorted[start + i]);
            },
        }
    }
}

/// Evaluating a roll term whose custom faces sum within `i64` gives a value
/// that the roll yields.
proof fn lemma_dice_outcome(r: RollView, res: Result<i64, ComputeError>)
    requires
        r.custom_fits(),
        outcome(Formula::Dice(r), res),
    ensures
        res matches Ok(v) && r.yields(v as int),
{
    let d = choose|d: Draws| possible_draws(Formula::Dice(r), d) && #[trigger] result_of(Formula::Dice(r), d) == res;
}

/// Rolling `count` numeric dice of `sides >= 1` sides, with neither a take
/// nor a target policy, yields a value between `count` and `count * sides`.
pub proof fn lemma_plain_yields_range(r: RollView, v: int)
    requires
        r.die_type == DieType::Normal,
        r.take is None,
        r.target_roll is None,
        r.sides >= 1,
        r.yields(v),
    ensures
        r.count <= v <= r.count * r.sides,
{
    let faces = choose|faces: Seq<u64>| r.can_throw(faces) && v == #[trigger] r.numeric_total(faces);
    assert forall|i: int| 0 <= i < faces.len() implies 1 <= #[trigger] faces[i] <= r.sides by {
        assert(r.can_show(faces[i]));
    }
    let sorted = faces.sort_by(ascending());
    lemma_ascending_total();
    faces.lemma_sort_by_ensures(ascending());
    lemma_sorted_within(faces, sorted, 1, r.sides as int);
    lemma_sum_faces_within(sorted, 1, r.sides as int);
}

/// Evaluating `count` numeric dice of `sides >= 1` sides, with neither a take
/// nor a target suffix, gives a value between `count` and `count * sides`.
pub proof fn lemma_plain_roll_range(r: RollView, res: Result<i64, ComputeError>)
    requires
        r.die_type == DieType::Normal,
        r.take is None,
        r.target_roll is None,
        r.sides >= 1,
        outcome(Formula::Dice(r), res),
    ensures
        res matches Ok(v) && r.count <= v <= r.count * r.sides,
{
    lemma_dice_outcome(r, res);
    lemma_plain_yields_range(r, res->Ok_0 as int);
}

/// Evaluating a roll term of no dice gives 0, whatever the die and suffixes.
pub proof fn lemma_no_dice(r: RollView, res: Result<i64, ComputeError>)
    requires
        r.count == 0,
        outcome(Formula::Dice(r), res),
    ensures
        res == Ok::<i64, ComputeError>(0),
{
    lemma_dice_outcome(r, res);
    let v = res->Ok_0;
    match r.die_type {
        DieType::Normal => {
            let faces = choose|faces: Seq<u64>|
                r.can_throw(faces) && v == #[trigger] r.numeric_total(faces);
            lemma_kept_within(r, faces, 0, 0);
            assert(r.kept(faces.sort_by(ascending())).len() == 0);
        },
        DieType::Custom => {
            if r.pool().len() > 0 {
                let picks = choose|picks: Seq<i64>| r.can_pick(picks) && v == #[trigger] sum_picks(picks);
                assert(picks.len() == 0);
            }
        },
    }
}

/// Evaluating numeric dice of zero sides without a target gives 0.
pub proof fn lemma_zero_sided(r: RollView, res: Result<i64, ComputeError>)
    requires
        r.die_type == DieType::Normal,
        r.sides == 0,
        r.target_roll is None,
        outcome(Formula::Dice(r), res),
    ensures
        res == Ok::<i64, ComputeError>(0),
{
    lemma_dice_outcome(r, res);
    let v = res->Ok_0;
    let faces = choose|faces: Seq<u64>| r.can_throw(faces) && v == #[trigger] r.numeric_total(faces);
    assert forall|i: int| 0 <= i < faces.len() implies 0 <= #[trigger] faces[i] <= 0 by {
        assert(r.can_show(faces[i]));
    }
    lemma_kept_within(r, faces, 0, 0);
    let kept = r.kept(faces.sort_by(ascending()));
    lemma_sum_faces_within(kept, 0, 0);
}

/// Rolling numeric dice yields a value from 0 up to `count * sides` of the
/// clamped count and sides, or up to `count` when successes are counted.
pub proof fn lemma_numeric_yields_ceiling(r: RollView, v: int)
    requires
        r.die_type == DieType::Normal,
        r.yields(v),
    ensures
        0 <= v,
        r.target_roll is None ==> v <= r.count * r.sides,
        r.target_roll is Some ==> v <= r.count,
{
    let faces = choose|faces: Seq<u64>| r.can_throw(faces) && v == #[trigger] r.numeric_total(faces);
    assert forall|i: int| 0 <= i < faces.len() implies 0 <= #[trigger] faces[i] <= r.sides by {
        assert(r.can_show(faces[i]));
    }
    lemma_kept_within(r, faces, 0, r.sides as int);
    let kept = r.kept(faces.sort_by(ascending()));
    lemma_sum_faces_within(kept, 0, r.sides as int);
    match r.target_roll {
        Some(t) => {
            lemma_successes_within(kept, t);
        },
        None => {
            assert(kept.len() * r.sides <= r.count * r.sides) by (nonlinear_arith)
                requires
                    kept.len() <= r.count,
            ;
        },
    }
}

/// Evaluating numeric dice, however large the count and sides written, gives
/// a value from 0 up to `count * sides` of the clamped count and sides, or up
/// to `count` when successes are counted.
pub proof fn lemma_numeric_ceiling(r: RollView, res: Result<i64, ComputeError>)
    requires
        r.wf(),
        r.die_type == DieType::Normal,
        outcome(Formula::Dice(r), res),
    ensures
        res matches Ok(v) && 0 <= v && (r.target_roll is None ==> v <= r.count * r.sides) && (
        r.target_roll is Some ==> v <= r.count),
{
    lemma_dice_outcome(r, res);
    lemma_numeric_yields_ceiling(r, res->Ok_0 as int);
}

/// Rolling custom dice whose faces taking part all lie in `lo..=hi` yields a
/// value between `count * lo` and `count * hi`; faces may be negative.
pub proof fn lemma_custom_yields_range(r: RollView, v: int, lo: int, hi: int)
    requires
        r.die_type == DieType::Custom,
        r.pool().len() > 0,
        forall|i: int| 0 <= i < r.pool().len() ==> lo <= #[trigger] r.pool()[i] <= hi,
        r.yields(v),
    ensures
        r.count * lo <= v <= r.count * hi,
{
    let picks = choose|picks: Seq<i64>| r.can_pick(picks) && v == #[trigger] sum_picks(picks);
    assert forall|i: int| 0 <= i < picks.len() implies lo <= #[trigger] picks[i] <= hi by {
        assert(r.pool().contains(picks[i]));
        let j = choose|j: int| 0 <= j < r.pool().len() && r.pool()[j] == picks[i];
        assert(lo <= r.pool()[j] <= hi);
    }
    lemma_sum_picks_within(picks, lo, hi);
}

/// Evaluating custom dice whose faces taking part all lie in `lo..=hi` gives
/// a value between `count * lo` and `count * hi`, unless their sum might not
/// fit in an `i64`.
pub proof fn lemma_custom_range(r: RollView, res: Result<i64, ComputeError>, lo: int, hi: int)
    requires
        r.die_type == DieType::Custom,
        r.pool().len() > 0,
        forall|i: int| 0 <= i < r.pool().len() ==> lo <= #[trigger] r.pool()[i] <= hi,
        outcome(Formula::Dice(r), res),
    ensures
        res matches Ok(v) ==> r.count * lo <= v <= r.count * hi,
        r.custom_fits() ==> res is Ok,
{
    if r.custom_fits() {
        lemma_dice_outcome(r, res);
        lemma_custom_yields_range(r, res->Ok_0 as int, lo, hi);
    }
}

/// The decimal digits of `n`, most significant first.
pub open spec fn decimal(n: nat) -> Seq<u8>
    decreases n,
{
    if n < 10 {
        seq![(48 + n) as u8]
    } else {
        decimal(n / 10).push((48 + n % 10) as u8)
    }
}

/// The text `{count}d{sides}`.
pub open spec fn roll_text(count: nat, sides: nat) -> Seq<u8> {
    decimal(count) + seq![100u8] + decimal(sides)
}

proof fn lemma_decimal_digits(n: nat)
    ensures
        decimal(n).len() >= 1,
        forall|i: int| 0 <= i < decimal(n).len() ==> is_digit(#[trigger] decimal(n)[i]),
    decreases n,
{
    if n >= 10 {
        lemma_decimal_digits(n / 10);
    }
}

/// Reading the digits of `decimal(n)` gives back `n`.
proof fn lemma_decimal_value(s: Seq<u8>, i: int, n: nat)
    requires
        0 <= i,
        i + decimal(n).len() <= s.len(),
        s.subrange(i, i + decimal(n).len()) == decimal(n),
    ensures
        digits_value(s, i, i + decimal(n).len()) == n,
    decreases n,
{
    let len = decimal(n).len() as int;
    assert(s[i + len - 1] == s.subrange(i, i + len)[len - 1]);
    if n < 10 {
        assert(digits_value(s, i, i) == 0);
    } else {
        let prefix = decimal(n / 10);
        assert(decimal(n) == prefix.push((48 + n % 10) as u8));
        assert(decimal(n).subrange(0, prefix.len() as int) =~= prefix);
        assert(s.subrange(i, i + prefix.len()) =~= s.subrange(i, i + len).subrange(
            0,
            prefix.len() as int,
        ));
        lemma_decimal_value(s, i, n / 10);
        assert((n / 10) * 10 + n % 10 == n);
    }
}

/// Scanning a run of digits stops at its end.
proof fn lemma_digits_run(s: Seq<u8>, i: int, j: int)
    requires
        0 <= i <= j <= s.len(),
        forall|k: int| i <= k < j ==> is_digit(#[trigger] s[k]),
        j == s.len() || !is_digit(s[j]),
    ensures
        digits_end(s, i) == j,
    decreases j - i,
{
    if i < j {
        lemma_digits_run(s, i + 1, j);
    }
}

/// The roll term that the text `{count}d{sides}` spells: its count and sides
/// clamped.
pub open spec fn plain_roll(count: nat, sides: nat) -> RollView {
    RollView {
        count: clamp(count, MAX_ROLLS as nat),
        custom_sides: Seq::empty(),
        die_type: DieType::Normal,
        sides: clamp(sides, MAX_SIDES as nat),
        take: None,
        target_roll: None,
    }
}

/// The text `{count}d{sides}` spells a single roll term, for any count and
/// sides that fit in `u64`.
pub proof fn lemma_roll_text_parses(count: nat, sides: nat)
    requires
        count <= u64::MAX,
        sides <= u64::MAX,
    ensures
        parse_formula(roll_text(count, sides)) == Ok::<Formula, int>(Formula::Dice(plain_roll(count, sides))),
{
    let a = decimal(count);
    let b = decimal(sides);
    let s = roll_text(count, sides);
    let la = a.len() as int;
    let n = s.len() as int;
    lemma_decimal_digits(count);
    lemma_decimal_digits(sides);
    assert(n == la + 1 + b.len());
    assert forall|k: int| 0 <= k < la implies is_digit(#[trigger] s[k]) by {
        assert(s[k] == a[k]);
    }
    assert forall|k: int| la + 1 <= k < n implies is_digit(#[trigger] s[k]) by {
        assert(s[k] == b[k - la - 1]);
    }
    assert(s[la] == 100);
    lemma_digits_run(s, 0, la);
    lemma_digits_run(s, la + 1, n);
    assert(s.subrange(0, la) =~= a);
    assert(s.subrange(la + 1, n) =~= b);
    lemma_decimal_value(s, 0, count);
    lemma_decimal_value(s, la + 1, sides);
    let r = plain_roll(count, sides);
    assert(parse_roll(s, 0) == Ok::<(RollView, int), int>((r, n)));
    assert(skip_spaces(s, 0) == 0);
    assert(skip_spaces(s, n) == n);
    assert(parse_factor(s, 0) == Ok::<(Formula, int), int>((Formula::Dice(r), n)));
    assert(parse_term(s, 0) == Ok::<(Formula, int), int>((Formula::Dice(r), n)));
    assert(parse_expr(s, 0) == Ok::<(Formula, int), int>((Formula::Dice(r), n)));
}

/// Evaluating the text `{count}d{sides}` with `sides >= 1`, the count and the
/// sides within their clamps, gives a value between `count` and
/// `count * sides`. The requirement on `res` is what `compute` ensures of its
/// result for that text.
pub proof fn lemma_roll_text_range(count: nat, sides: nat, res: Result<i64, ComputeError>)
    requires
        count <= MAX_ROLLS,
        1 <= sides <= MAX_SIDES,
        parse_formula(roll_text(count, sides)) matches Ok(f) ==> outcome(f, res),
    ensures
        res matches Ok(v) && count <= v <= count * sides,
{
    lemma_roll_text_parses(count, sides);
    lemma_plain_roll_range(plain_roll(count, sides), res);
}

/// Evaluating the text `{count}d{sides}`, however large the count and sides
/// written, gives a value from 0 up to the clamped count times the clamped
/// sides, so at most `MAX_ROLLS * MAX_SIDES`.
pub proof fn lemma_roll_text_ceiling(count: nat, sides: nat, res: Result<i64, ComputeError>)
    requires
        count <= u64::MAX,
        sides <= u64::MAX,
        parse_formula(roll_text(count, sides)) matches Ok(f) ==> outcome(f, res),
    ensures
        res matches Ok(v) && 0 <= v <= clamp(count, MAX_ROLLS as nat) * clamp(
            sides,
            MAX_SIDES as nat,
        ) <= MAX_ROLLS * MAX_SIDES,
{
    lemma_roll_text_parses(count, sides);
    let r = plain_roll(count, sides);
    lemma_numeric_ceiling(r, res);
    assert(r.count * r.sides <= MAX_ROLLS * MAX_SIDES) by (nonlinear_arith)
        requires
            r.count <= MAX_ROLLS,
            r.sides <= MAX_SIDES,
    ;
}

/// Evaluating the text `{count}d0` gives 0, whatever the count.
pub proof fn lemma_zero_sided_text(count: nat, res: Result<i64, ComputeError>)
    requires
        count <= u64::MAX,
        parse_formula(roll_text(count, 0)) matches Ok(f) ==> outcome(f, res),
    ensures
        res == Ok::<i64, ComputeError>(0),
{
    lemma_roll_text_parses(count, 0);
    lemma_zero_sided(plain_roll(count, 0), res);
}

/// Evaluating the text `0d{sides}` gives 0, whatever the sides.
pub proof fn lemma_no_dice_text(sides: nat, res: Result<i64, ComputeError>)
    requires
        sides <= u64::MAX,
        parse_formula(roll_text(0, sides)) matches Ok(f) ==> outcome(f, res),
    ensures
        res == Ok::<i64, ComputeError>(0),
{
    lemma_roll_text_parses(0, sides);
    lemma_no_dice(plain_roll(0, sides), res);
}

} // verus!
