//! The notation grammar and the expression evaluator.
//!
//! ```text
//! expr      := term (('+' | '-') term)*
//! term      := factor (('*' | '/') factor)*
//! factor    := '(' expr ')' | roll | int
//! roll      := uint ('d' | 'D') die take? target?
//! die       := uint | '[' (int (',' int)*)? ']'
//! take      := ('k' | 'K') ('h' | 'H')? uint | ('d' | 'D') ('l' | 'L')? uint
//! target    := ('>=' | '>' | '<=' | '<') uint
//! ```
//!
//! Spaces may stand between the tokens of an expression and inside the face
//! list of a custom die, nowhere else inside a roll term.

use crate::roll::{clamp, first_faces, DieType, Roll, RollView, Take, TargetRoll, MAX_ROLLS, MAX_SIDES};
use vstd::prelude::*;
use vstd::string::StringSliceAdditionalSpecFns;

verus! {

#[derive(Clone, Copy, Debug, PartialEq, Eq, Structural)]
pub enum BinOp {
    Add,
    Sub,
    Mul,
    Div,
}

/// Why an evaluation gave no value.
#[derive(Clone, Copy, Debug, PartialEq, Eq, Structural)]
pub enum ComputeError {
    /// The text is not in the notation; the position is the first byte that
    /// the grammar could not take.
    Parse(usize),
    /// A division had zero as its divisor.
    DivisionByZero,
    /// A value left the range of `i64`.
    Overflow,
}

// ---------------------------------------------------------------------------
// Tokens
// ---------------------------------------------------------------------------

pub open spec fn is_space(c: u8) -> bool {
    c == 32 || c == 9 || c == 10 || c == 13
}

pub open spec fn is_digit(c: u8) -> bool {
    48 <= c <= 57
}

/// Position `i` of `s` holds the byte `c`.
pub open spec fn byte_is(s: Seq<u8>, i: int, c: u8) -> bool {
    0 <= i < s.len() && s[i] == c
}

/// Position `i` of `s` holds `lower` or `upper`.
pub open spec fn letter_is(s: Seq<u8>, i: int, lower: u8, upper: u8) -> bool {
    byte_is(s, i, lower) || byte_is(s, i, upper)
}

/// The first position from `i` on that holds no space.
pub open spec fn skip_spaces(s: Seq<u8>, i: int) -> int
    decreases s.len() - i,
{
    if 0 <= i < s.len() && is_space(s[i]) {
        skip_spaces(s, i + 1)
    } else {
        i
    }
}

/// The first position from `i` on that holds no digit.
pub open spec fn digits_end(s: Seq<u8>, i: int) -> int
    decreases s.len() - i,
{
    if 0 <= i < s.len() && is_digit(s[i]) {
        digits_end(s, i + 1)
    } else {
        i
    }
}

/// The decimal value of the digits in `s[i..j]`.
pub open spec fn digits_value(s: Seq<u8>, i: int, j: int) -> int
    decreases j - i,
{
    if j <= i {
        0
    } else {
        digits_value(s, i, j - 1) * 10 + (s[j - 1] - 48)
    }
}

/// An unsigned integer that fits in `u64`, and the position after it.
pub open spec fn parse_uint(s: Seq<u8>, i: int) -> Result<(u64, int), int> {
    let j = digits_end(s, i);
    if j == i || digits_value(s, i, j) > u64::MAX {
        Err(j)
    } else {
        Ok((digits_value(s, i, j) as u64, j))
    }
}

/// An integer with an optional leading `-` that fits in `i64`, and the
/// position after it.
pub open spec fn parse_int(s: Seq<u8>, i: int) -> Result<(i64, int), int> {
    if byte_is(s, i, 45) {
        match parse_uint(s, i + 1) {
            Ok((v, j)) => if v <= 9223372036854775808 {
                Ok(((-v) as i64, j))
            } else {
                Err(i)
            },
            Err(p) => Err(p),
        }
    } else {
        match parse_uint(s, i) {
            Ok((v, j)) => if v <= i64::MAX {
                Ok((v as i64, j))
            } else {
                Err(i)
            },
            Err(p) => Err(p),
        }
    }
}

pub proof fn lemma_skip_spaces(s: Seq<u8>, i: int)
    ensures
        i <= skip_spaces(s, i),
        0 <= i <= s.len() ==> skip_spaces(s, i) <= s.len(),
    decreases s.len() - i,
{
    if 0 <= i < s.len() && is_space(s[i]) {
        lemma_skip_spaces(s, i + 1);
    }
}

pub proof fn lemma_digits_end(s: Seq<u8>, i: int)
    ensures
        i <= digits_end(s, i),
        0 <= i <= s.len() ==> digits_end(s, i) <= s.len(),
    decreases s.len() - i,
{
    if 0 <= i < s.len() && is_digit(s[i]) {
        lemma_digits_end(s, i + 1);
    }
}

pub proof fn lemma_parse_int_advances(s: Seq<u8>, i: int)
    ensures
        parse_int(s, i) matches Ok((_, j)) ==> i < j,
{
    lemma_digits_end(s, i);
    lemma_digits_end(s, i + 1);
}

fn space_at(s: &[u8], i: usize) -> (r: bool)
    ensures
        r == (0 <= i < s@.len() && is_space(s@[i as int])),
        s@.len() <= usize::MAX,
{
    i < s.len() && (s[i] == 32 || s[i] == 9 || s[i] == 10 || s[i] == 13)
}

fn digit_at(s: &[u8], i: usize) -> (r: bool)
    ensures
        r == (0 <= i < s@.len() && is_digit(s@[i as int])),
        s@.len() <= usize::MAX,
{
    i < s.len() && 48 <= s[i] && s[i] <= 57
}

fn byte_at(s: &[u8], i: usize, c: u8) -> (r: bool)
    ensures
        r == byte_is(s@, i as int, c),
        s@.len() <= usize::MAX,
{
    i < s.len() && s[i] == c
}

fn letter_at(s: &[u8], i: usize, lower: u8, upper: u8) -> (r: bool)
    ensures
        r == letter_is(s@, i as int, lower, upper),
        s@.len() <= usize::MAX,
{
    i < s.len() && (s[i] == lower || s[i] == upper)
}

fn skip_spaces_from(s: &[u8], i: usize) -> (r: usize)
    requires
        i <= s@.len(),
    ensures
        r == skip_spaces(s@, i as int),
        i <= r <= s@.len() <= usize::MAX,
{
    let n = s.len();
    let mut j = i;
    while space_at(s, j)
        invariant
            n == s@.len(),
            i <= j <= s@.len(),
            skip_spaces(s@, i as int) == skip_spaces(s@, j as int),
        decreases s@.len() - j,
    {
        j = j + 1;
    }
    j
}

/// Reads an unsigned integer at `i`.
fn read_uint(s: &[u8], i: usize) -> (r: Result<(u64, usize), usize>)
    requires
        i <= s@.len(),
    ensures
        match r {
            Ok((v, j)) => parse_uint(s@, i as int) == Ok::<(u64, int), int>((v, j as int)) && i < j <= s@.len(),
            Err(p) => parse_uint(s@, i as int) == Err::<(u64, int), int>(p as int) && p <= s@.len(),
        },
{
    let mut j = i;
    let mut acc: u64 = 0;
    let mut over = false;
    let n = s.len();
    while digit_at(s, j)
        invariant
            n == s@.len(),
            i <= j <= s@.len(),
            digits_end(s@, i as int) == digits_end(s@, j as int),
            over ==> digits_value(s@, i as int, j as int) > u64::MAX,
            !over ==> acc == digits_value(s@, i as int, j as int),
        decreases s@.len() - j,
    {
        let d = (s[j] - 48) as u128;
        if !over {
            let next = (acc as u128) * 10 + d;
            if next > u64::MAX as u128 {
                over = true;
            } else {
                acc = next as u64;
            }
        }
        j = j + 1;
    }
    if j == i || over {
        Err(j)
    } else {
        Ok((acc, j))
    }
}

/// Reads an integer with an optional leading `-` at `i`.
fn read_int(s: &[u8], i: usize) -> (r: Result<(i64, usize), usize>)
    requires
        i <= s@.len(),
    ensures
        match r {
            Ok((v, j)) => parse_int(s@, i as int) == Ok::<(i64, int), int>((v, j as int)) && i < j <= s@.len(),
            Err(p) => parse_int(s@, i as int) == Err::<(i64, int), int>(p as int) && p <= s@.len(),
        },
{
    if byte_at(s, i, 45) {
        match read_uint(s, i + 1) {
            Ok((v, j)) => {
                if v <= 9223372036854775807 {
                    Ok((-(v as i64), j))
                } else if v == 9223372036854775808 {
                    Ok((i64::MIN, j))
                } else {
                    Err(i)
                }
            },
            Err(p) => Err(p),
        }
    } else {
        match read_uint(s, i) {
            Ok((v, j)) => {
                if v <= 9223372036854775807 {
                    Ok((v as i64, j))
                } else {
                    Err(i)
                }
            },
            Err(p) => Err(p),
        }
    }
}

// ---------------------------------------------------------------------------
// Roll terms
// ---------------------------------------------------------------------------

/// The faces of a custom die from just after its `[`, and the position
/// after the closing `]`.
pub open spec fn parse_faces(s: Seq<u8>, i: int) -> Result<(Seq<i64>, int), int> {
    let k = skip_spaces(s, i);
    if byte_is(s, k, 93) {
        Ok((Seq::empty(), k + 1))
    } else {
        parse_face_items(s, k)
    }
}

/// One face or more, separated by commas, then the closing `]`.
pub open spec fn parse_face_items(s: Seq<u8>, i: int) -> Result<(Seq<i64>, int), int>
    decreases s.len() - i,
{
    match parse_int(s, i) {
        Err(p) => Err(p),
        Ok((v, j)) => {
            let k = skip_spaces(s, j);
            if byte_is(s, k, 44) {
                proof {
                    lemma_parse_int_advances(s, i);
                    lemma_skip_spaces(s, j);
                    lemma_skip_spaces(s, k + 1);
                }
                match parse_face_items(s, skip_spaces(s, k + 1)) {
                    Ok((rest, e)) => Ok((seq![v] + rest, e)),
                    Err(p) => Err(p),
                }
            } else if byte_is(s, k, 93) {
                Ok((seq![v], k + 1))
            } else {
                Err(k)
            }
        },
    }
}

/// An optional keep-highest or drop-lowest suffix.
pub open spec fn parse_take(s: Seq<u8>, k: int) -> Result<(Option<Take>, int), int> {
    if letter_is(s, k, 107, 75) {
        let m = if letter_is(s, k + 1, 104, 72) {
            k + 2
        } else {
            k + 1
        };
        match parse_uint(s, m) {
            Ok((n, e)) => Ok((Some(Take::KeepHighest(n)), e)),
            Err(p) => Err(p),
        }
    } else if letter_is(s, k, 100, 68) {
        let m = if letter_is(s, k + 1, 108, 76) {
            k + 2
        } else {
            k + 1
        };
        match parse_uint(s, m) {
            Ok((n, e)) => Ok((Some(Take::DropLowest(n)), e)),
            Err(p) => Err(p),
        }
    } else {
        Ok((None, k))
    }
}

/// An optional target suffix.
pub open spec fn parse_target(s: Seq<u8>, k: int) -> Result<(Option<TargetRoll>, int), int> {
    if byte_is(s, k, 62) {
        if byte_is(s, k + 1, 61) {
            match parse_uint(s, k + 2) {
                Ok((t, e)) => Ok((Some(TargetRoll::GTE(t)), e)),
                Err(p) => Err(p),
            }
        } else {
            match parse_uint(s, k + 1) {
                Ok((t, e)) => Ok((Some(TargetRoll::GT(t)), e)),
                Err(p) => Err(p),
            }
        }
    } else if byte_is(s, k, 60) {
        if byte_is(s, k + 1, 61) {
            match parse_uint(s, k + 2) {
                Ok((t, e)) => Ok((Some(TargetRoll::LTE(t)), e)),
                Err(p) => Err(p),
            }
        } else {
            match parse_uint(s, k + 1) {
                Ok((t, e)) => Ok((Some(TargetRoll::LT(t)), e)),
                Err(p) => Err(p),
            }
        }
    } else {
        Ok((None, k))
    }
}

/// The roll that the count of a roll term configures, with its count clamped.
pub open spec fn counted(c: u64) -> RollView {
    RollView {
        count: clamp(c as nat, MAX_ROLLS as nat),
        custom_sides: Seq::empty(),
        die_type: DieType::Normal,
        sides: 0,
        take: None,
        target_roll: None,
    }
}

/// The count, `d` and die of a roll term, before any suffix.
pub open spec fn parse_die(s: Seq<u8>, i: int) -> Result<(RollView, int), int> {
    match parse_uint(s, i) {
        Err(p) => Err(p),
        Ok((c, j)) => if !letter_is(s, j, 100, 68) {
            Err(j)
        } else if byte_is(s, j + 1, 91) {
            match parse_faces(s, j + 2) {
                Ok((fs, k)) => Ok(
                    (
                        RollView {
                            custom_sides: first_faces(fs),
                            die_type: DieType::Custom,
                            ..counted(c)
                        },
                        k,
                    ),
                ),
                Err(p) => Err(p),
            }
        } else {
            match parse_uint(s, j + 1) {
                Ok((sd, k)) => Ok(
                    (RollView { sides: clamp(sd as nat, MAX_SIDES as nat), ..counted(c) }, k),
                ),
                Err(p) => Err(p),
            }
        },
    }
}

/// A whole roll term: its die, then the optional take and target suffixes.
pub open spec fn parse_roll(s: Seq<u8>, i: int) -> Result<(RollView, int), int> {
    match parse_die(s, i) {
        Err(p) => Err(p),
        Ok((r, k)) => match parse_take(s, k) {
            Err(p) => Err(p),
            Ok((t, k2)) => match parse_target(s, k2) {
                Err(p) => Err(p),
                Ok((g, k3)) => Ok((RollView { take: t, target_roll: g, ..r }, k3)),
            },
        },
    }
}

fn read_face_items(s: &[u8], i: usize) -> (r: Result<(Vec<i64>, usize), usize>)
    requires
        i <= s@.len(),
    ensures
        match r {
            Ok((v, j)) => parse_face_items(s@, i as int) == Ok::<(Seq<i64>, int), int>((v@, j as int)) && i < j
                <= s@.len(),
            Err(p) => parse_face_items(s@, i as int) == Err::<(Seq<i64>, int), int>(p as int) && p <= s@.len(),
        },
    decreases s@.len() - i,
{
    let (v, j) = match read_int(s, i) {
        Ok(x) => x,
        Err(p) => {
            return Err(p);
        },
    };
    let k = skip_spaces_from(s, j);
    if byte_at(s, k, 44) {
        let m = skip_spaces_from(s, k + 1);
        match read_face_items(s, m) {
            Ok((rest, e)) => {
                let mut faces: Vec<i64> = Vec::new();
                faces.push(v);
                let mut more = rest;
                faces.append(&mut more);
                assert(faces@ =~= seq![v] + rest@);
                Ok((faces, e))
            },
            Err(p) => Err(p),
        }
    } else if byte_at(s, k, 93) {
        let mut faces: Vec<i64> = Vec::new();
        faces.push(v);
        assert(faces@ =~= seq![v]);
        Ok((faces, k + 1))
    } else {
        Err(k)
    }
}

fn read_faces(s: &[u8], i: usize) -> (r: Result<(Vec<i64>, usize), usize>)
    requires
        i <= s@.len(),
    ensures
        match r {
            Ok((v, j)) => parse_faces(s@, i as int) == Ok::<(Seq<i64>, int), int>((v@, j as int)) && i < j <= s@.len(),
            Err(p) => parse_faces(s@, i as int) == Err::<(Seq<i64>, int), int>(p as int) && p <= s@.len(),
        },
{
    let k = skip_spaces_from(s, i);
    if byte_at(s, k, 93) {
        let faces: Vec<i64> = Vec::new();
        assert(faces@ =~= Seq::<i64>::empty());
        Ok((faces, k + 1))
    } else {
        read_face_items(s, k)
    }
}

fn read_take(s: &[u8], k: usize) -> (r: Result<(Option<Take>, usize), usize>)
    requires
        k <= s@.len(),
    ensures
        match r {
            Ok((t, j)) => parse_take(s@, k as int) == Ok::<(Option<Take>, int), int>((t, j as int)) && k <= j <= s@.len(),
            Err(p) => parse_take(s@, k as int) == Err::<(Option<Take>, int), int>(p as int) && p <= s@.len(),
        },
{
    if letter_at(s, k, 107, 75) {
        let m = if letter_at(s, k + 1, 104, 72) {
            k + 2
        } else {
            k + 1
        };
        match read_uint(s, m) {
            Ok((n, e)) => Ok((Some(Take::KeepHighest(n)), e)),
            Err(p) => Err(p),
        }
    } else if letter_at(s, k, 100, 68) {
        let m = if letter_at(s, k + 1, 108, 76) {
            k + 2
        } else {
            k + 1
        };
        match read_uint(s, m) {
            Ok((n, e)) => Ok((Some(Take::DropLowest(n)), e)),
            Err(p) => Err(p),
        }
    } else {
        Ok((None, k))
    }
}

fn read_target(s: &[u8], k: usize) -> (r: Result<(Option<TargetRoll>, usize), usize>)
    requires
        k <= s@.len(),
    ensures
        match r {
            Ok((t, j)) => parse_target(s@, k as int) == Ok::<(Option<TargetRoll>, int), int>((t, j as int)) && k <= j <= s@.len(),
            Err(p) => parse_target(s@, k as int) == Err::<(Option<TargetRoll>, int), int>(p as int) && p <= s@.len(),
        },
{
    let greater = byte_at(s, k, 62);
    if greater || byte_at(s, k, 60) {
        let or_equal = byte_at(s, k + 1, 61);
        let m = if or_equal {
            k + 2
        } else {
            k + 1
        };
        match read_uint(s, m) {
            Ok((t, e)) => {
                let target = if greater {
                    if or_equal {
                        TargetRoll::GTE(t)
                    } else {
                        TargetRoll::GT(t)
                    }
                } else {
                    if or_equal {
                        TargetRoll::LTE(t)
                    } else {
                        TargetRoll::LT(t)
                    }
                };
                Ok((Some(target), e))
            },
            Err(p) => Err(p),
        }
    } else {
        Ok((None, k))
    }
}

/// Reads a roll term at `i` into a configured `Roll`.
fn read_roll(s: &[u8], i: usize) -> (r: Result<(Roll, usize), usize>)
    requires
        i <= s@.len(),
    ensures
        match r {
            Ok((roll, j)) => parse_roll(s@, i as int) == Ok::<(RollView, int), int>((roll@, j as int)) && i < j
                <= s@.len() && roll.wf(),
            Err(p) => parse_roll(s@, i as int) == Err::<(RollView, int), int>(p as int) && p <= s@.len(),
        },
{
    let (c, j) = match read_uint(s, i) {
        Ok(x) => x,
        Err(p) => {
            return Err(p);
        },
    };
    if !letter_at(s, j, 100, 68) {
        return Err(j);
    }
    let mut roll = Roll::new();
    roll.count(c);
    let k: usize;
    if byte_at(s, j + 1, 91) {
        let (faces, e) = match read_faces(s, j + 2) {
            Ok(x) => x,
            Err(p) => {
                return Err(p);
            },
        };
        roll.add_custom_sides(faces.as_slice());
        roll.die_type(DieType::Custom);
        k = e;
    } else {
        let (sides, e) = match read_uint(s, j + 1) {
            Ok(x) => x,
            Err(p) => {
                return Err(p);
            },
        };
        roll.sides(sides);
        roll.die_type(DieType::Normal);
        k = e;
    }
    assert(parse_die(s@, i as int) == Ok::<(RollView, int), int>((roll@, k as int)));
    let (take, k2) = match read_take(s, k) {
        Ok(x) => x,
        Err(p) => {
            return Err(p);
        },
    };
    match take {
        Some(Take::KeepHighest(n)) => {
            roll.keep_highest(n);
        },
        Some(Take::DropLowest(n)) => {
            roll.drop_lowest(n);
        },
        None => {},
    }
    let (target, k3) = match read_target(s, k2) {
        Ok(x) => x,
        Err(p) => {
            return Err(p);
        },
    };
    match target {
        Some(t) => {
            roll.target_roll(t);
        },
        None => {},
    }
    Ok((roll, k3))
}

// ---------------------------------------------------------------------------
// Expressions
// ---------------------------------------------------------------------------

/// A parsed notation string.
#[derive(Debug)]
pub enum Expr {
    Num(i64),
    Dice(Roll),
    Bin(BinOp, Box<Expr>, Box<Expr>),
}

/// The abstract form of an `Expr`.
pub enum Formula {
    Num(i64),
    Dice(RollView),
    Bin(BinOp, Box<Formula>, Box<Formula>),
}

impl Expr {
    pub open spec fn model(&self) -> Formula
        decreases self,
    {
        match self {
            Expr::Num(n) => Formula::Num(*n),
            Expr::Dice(r) => Formula::Dice(r@),
            Expr::Bin(op, a, b) => Formula::Bin(*op, Box::new(a.model()), Box::new(b.model())),
        }
    }
}

/// Every roll in the formula is well formed.
pub open spec fn rolls_wf(f: Formula) -> bool
    decreases f,
{
    match f {
        Formula::Num(_) => true,
        Formula::Dice(r) => r.wf(),
        Formula::Bin(_, a, b) => rolls_wf(*a) && rolls_wf(*b),
    }
}

pub open spec fn additive(s: Seq<u8>, k: int) -> Option<BinOp> {
    if byte_is(s, k, 43) {
        Some(BinOp::Add)
    } else if byte_is(s, k, 45) {
        Some(BinOp::Sub)
    } else {
        None
    }
}

pub open spec fn multiplicative(s: Seq<u8>, k: int) -> Option<BinOp> {
    if byte_is(s, k, 42) {
        Some(BinOp::Mul)
    } else if byte_is(s, k, 47) {
        Some(BinOp::Div)
    } else {
        None
    }
}

// Every term and factor takes at least one byte; the checks `i < j` below
// record that, so that the recursion visibly moves forward.

/// `expr := term (('+' | '-') term)*`
pub open spec fn parse_expr(s: Seq<u8>, i: int) -> Result<(Formula, int), int>
    decreases s.len() - i, 2int,
{
    match parse_term(s, i) {
        Ok((e, j)) => if i < j <= s.len() {
            parse_expr_rest(s, j, e)
        } else {
            Err(j)
        },
        Err(p) => Err(p),
    }
}

/// The additive operations that follow a first term `acc` ending at `j`.
pub open spec fn parse_expr_rest(s: Seq<u8>, j: int, acc: Formula) -> Result<(Formula, int), int>
    decreases s.len() - j, 3int,
{
    let k = skip_spaces(s, j);
    match additive(s, k) {
        None => Ok((acc, j)),
        Some(op) => {
            proof {
                lemma_skip_spaces(s, j);
            }
            match parse_term(s, k + 1) {
                Ok((e, m)) => if k + 1 < m <= s.len() {
                    parse_expr_rest(s, m, Formula::Bin(op, Box::new(acc), Box::new(e)))
                } else {
                    Err(m)
                },
                Err(p) => Err(p),
            }
        },
    }
}

/// `term := factor (('*' | '/') factor)*`
pub open spec fn parse_term(s: Seq<u8>, i: int) -> Result<(Formula, int), int>
    decreases s.len() - i, 1int,
{
    match parse_factor(s, i) {
        Ok((e, j)) => if i < j <= s.len() {
            parse_term_rest(s, j, e)
        } else {
            Err(j)
        },
        Err(p) => Err(p),
    }
}

/// The multiplicative operations that follow a first factor `acc` ending at `j`.
pub open spec fn parse_term_rest(s: Seq<u8>, j: int, acc: Formula) -> Result<(Formula, int), int>
    decreases s.len() - j, 3int,
{
    let k = skip_spaces(s, j);
    match multiplicative(s, k) {
        None => Ok((acc, j)),
        Some(op) => {
            proof {
                lemma_skip_spaces(s, j);
            }
            match parse_factor(s, k + 1) {
                Ok((e, m)) => if k + 1 < m <= s.len() {
                    parse_term_rest(s, m, Formula::Bin(op, Box::new(acc), Box::new(e)))
                } else {
                    Err(m)
                },
                Err(p) => Err(p),
            }
        },
    }
}

/// `factor := '(' expr ')' | roll | int`, after optional spaces.
pub open spec fn parse_factor(s: Seq<u8>, i: int) -> Result<(Formula, int), int>
    decreases s.len() - i, 0int,
{
    let k = skip_spaces(s, i);
    if byte_is(s, k, 40) {
        proof {
            lemma_skip_spaces(s, i);
        }
        match parse_expr(s, k + 1) {
            Ok((e, j)) => {
                let m = skip_spaces(s, j);
                if byte_is(s, m, 41) {
                    Ok((e, m + 1))
                } else {
                    Err(m)
                }
            },
            Err(p) => Err(p),
        }
    } else {
        match parse_roll(s, k) {
            Ok((r, j)) => Ok((Formula::Dice(r), j)),
            Err(_) => match parse_int(s, k) {
                Ok((v, j)) => Ok((Formula::Num(v), j)),
                Err(p) => Err(p),
            },
        }
    }
}

/// The formula that the whole of `s` spells, spaces around it allowed.
pub open spec fn parse_formula(s: Seq<u8>) -> Result<Formula, int> {
    match parse_expr(s, 0) {
        Ok((e, j)) => if skip_spaces(s, j) == s.len() {
            Ok(e)
        } else {
            Err(skip_spaces(s, j))
        },
        Err(p) => Err(p),
    }
}

fn additive_at(s: &[u8], k: usize) -> (r: Option<BinOp>)
    ensures
        r == additive(s@, k as int),
{
    if byte_at(s, k, 43) {
        Some(BinOp::Add)
    } else if byte_at(s, k, 45) {
        Some(BinOp::Sub)
    } else {
        None
    }
}

fn multiplicative_at(s: &[u8], k: usize) -> (r: Option<BinOp>)
    ensures
        r == multiplicative(s@, k as int),
{
    if byte_at(s, k, 42) {
        Some(BinOp::Mul)
    } else if byte_at(s, k, 47) {
        Some(BinOp::Div)
    } else {
        None
    }
}

fn read_expr(s: &[u8], i: usize) -> (r: Result<(Expr, usize), usize>)
    requires
        i <= s@.len(),
    ensures
        match r {
            Ok((e, j)) => parse_expr(s@, i as int) == Ok::<(Formula, int), int>((e.model(), j as int)) && i < j
                <= s@.len() && rolls_wf(e.model()),
            Err(p) => parse_expr(s@, i as int) == Err::<(Formula, int), int>(p as int) && p <= s@.len(),
        },
    decreases s@.len() - i, 2int,
{
    match read_term(s, i) {
        Ok((e, j)) => read_expr_rest(s, j, e),
        Err(p) => Err(p),
    }
}

fn read_expr_rest(s: &[u8], j: usize, acc: Expr) -> (r: Result<(Expr, usize), usize>)
    requires
        j <= s@.len(),
        rolls_wf(acc.model()),
    ensures
        match r {
            Ok((e, m)) => parse_expr_rest(s@, j as int, acc.model()) == Ok::<(Formula, int), int>(
                (e.model(), m as int),
            ) && j <= m <= s@.len() && rolls_wf(e.model()),
            Err(p) => parse_expr_rest(s@, j as int, acc.model()) == Err::<(Formula, int), int>(p as int) && p <= s@.len(),
        },
    decreases s@.len() - j, 3int,
{
    let k = skip_spaces_from(s, j);
    match additive_at(s, k) {
        None => Ok((acc, j)),
        Some(op) => match read_term(s, k + 1) {
            Ok((e, m)) => read_expr_rest(s, m, Expr::Bin(op, Box::new(acc), Box::new(e))),
            Err(p) => Err(p),
        },
    }
}

fn read_term(s: &[u8], i: usize) -> (r: Result<(Expr, usize), usize>)
    requires
        i <= s@.len(),
    ensures
        match r {
            Ok((e, j)) => parse_term(s@, i as int) == Ok::<(Formula, int), int>((e.model(), j as int)) && i < j
                <= s@.len() && rolls_wf(e.model()),
            Err(p) => parse_term(s@, i as int) == Err::<(Formula, int), int>(p as int) && p <= s@.len(),
        },
    decreases s@.len() - i, 1int,
{
    match read_factor(s, i) {
        Ok((e, j)) => read_term_rest(s, j, e),
        Err(p) => Err(p),
    }
}

fn read_term_rest(s: &[u8], j: usize, acc: Expr) -> (r: Result<(Expr, usize), usize>)
    requires
        j <= s@.len(),
        rolls_wf(acc.model()),
    ensures
        match r {
            Ok((e, m)) => parse_term_rest(s@, j as int, acc.model()) == Ok::<(Formula, int), int>(
                (e.model(), m as int),
            ) && j <= m <= s@.len() && rolls_wf(e.model()),
            Err(p) => parse_term_rest(s@, j as int, acc.model()) == Err::<(Formula, int), int>(p as int) && p <= s@.len(),
        },
    decreases s@.len() - j, 3int,
{
    let k = skip_spaces_from(s, j);
    match multiplicative_at(s, k) {
        None => Ok((acc, j)),
        Some(op) => match read_factor(s, k + 1) {
            Ok((e, m)) => read_term_rest(s, m, Expr::Bin(op, Box::new(acc), Box::new(e))),
            Err(p) => Err(p),
        },
    }
}

fn read_factor(s: &[u8], i: usize) -> (r: Result<(Expr, usize), usize>)
    requires
        i <= s@.len(),
    ensures
        match r {
            Ok((e, j)) => parse_factor(s@, i as int) == Ok::<(Formula, int), int>((e.model(), j as int)) && i < j
                <= s@.len() && rolls_wf(e.model()),
            Err(p) => parse_factor(s@, i as int) == Err::<(Formula, int), int>(p as int) && p <= s@.len(),
        },
    decreases s@.len() - i, 0int,
{
    let k = skip_spaces_from(s, i);
    if byte_at(s, k, 40) {
        match read_expr(s, k + 1) {
            Ok((e, j)) => {
                let m = skip_spaces_from(s, j);
                if byte_at(s, m, 41) {
                    Ok((e, m + 1))
                } else {
                    Err(m)
                }
            },
            Err(p) => Err(p),
        }
    } else {
        match read_roll(s, k) {
            Ok((roll, j)) => Ok((Expr::Dice(roll), j)),
            Err(_) => match read_int(s, k) {
                Ok((v, j)) => Ok((Expr::Num(v), j)),
                Err(p) => Err(p),
            },
        }
    }
}

/// Parses a whole notation string.
pub fn parse_expression(text: &str) -> (r: Result<Expr, ComputeError>)
    ensures
        match r {
            Ok(e) => parse_formula(text.spec_bytes()) == Ok::<Formula, int>(e.model()) && rolls_wf(
                e.model(),
            ),
            Err(err) => (err matches ComputeError::Parse(p) && parse_formula(text.spec_bytes())
                == Err::<Formula, int>(p as int)),
        },
{
    let s = text.as_bytes();
    match read_expr(s, 0) {
        Ok((e, j)) => {
            let k = skip_spaces_from(s, j);
            if k == s.len() {
                Ok(e)
            } else {
                Err(ComputeError::Parse(k))
            }
        },
        Err(p) => Err(ComputeError::Parse(p)),
    }
}

// ---------------------------------------------------------------------------
// Evaluation
// ---------------------------------------------------------------------------

pub open spec fn abs(a: int) -> int {
    if a < 0 {
        -a
    } else {
        a
    }
}

/// Integer division that rounds toward zero.
pub open spec fn trunc_div(a: int, b: int) -> int {
    let q = abs(a) / abs(b);
    if (a < 0) == (b < 0) {
        q
    } else {
        -q
    }
}

/// The result of one arithmetic operation on two values.
pub open spec fn apply(op: BinOp, a: i64, b: i64) -> Result<i64, ComputeError> {
    if op == BinOp::Div && b == 0 {
        Err(ComputeError::DivisionByZero)
    } else {
        let v: int = match op {
            BinOp::Add => a + b,
            BinOp::Sub => a - b,
            BinOp::Mul => a * b,
            BinOp::Div => trunc_div(a as int, b as int),
        };
        if i64::MIN <= v <= i64::MAX {
            Ok(v as i64)
        } else {
            Err(ComputeError::Overflow)
        }
    }
}

/// The values that the roll terms of a formula gave, in the shape of the
/// formula: one value for each roll, a pair for each operation.
pub enum Draws {
    Nothing,
    Rolled(i64),
    Pair(Box<Draws>, Box<Draws>),
}

/// The result of evaluating `f` when its rolls gave `d`: numbers stand for
/// themselves, a roll whose custom faces might not sum within `i64` gives
/// `Overflow`, and operations go left operand first, the first error ending
/// the evaluation.
pub open spec fn result_of(f: Formula, d: Draws) -> Result<i64, ComputeError>
    decreases f,
{
    match f {
        Formula::Num(n) => Ok(n),
        Formula::Dice(r) => if !r.custom_fits() {
            Err(ComputeError::Overflow)
        } else {
            match d {
                Draws::Rolled(v) => Ok(v),
                _ => Ok(0),
            }
        },
        Formula::Bin(op, a, b) => {
            let (da, db) = match d {
                Draws::Pair(da, db) => (*da, *db),
                _ => (Draws::Nothing, Draws::Nothing),
            };
            match result_of(*a, da) {
                Err(e) => Err(e),
                Ok(va) => match result_of(*b, db) {
                    Err(e) => Err(e),
                    Ok(vb) => apply(op, va, vb),
                },
            }
        },
    }
}

/// `d` holds, for each roll of `f` that an evaluation reaches, a value that the
/// roll can yield.
pub open spec fn possible_draws(f: Formula, d: Draws) -> bool
    decreases f,
{
    match f {
        Formula::Num(_) => true,
        Formula::Dice(r) => r.custom_fits() ==> (d matches Draws::Rolled(v) && r.yields(v as int)),
        Formula::Bin(_, a, b) => match d {
            Draws::Pair(da, db) => possible_draws(*a, *da) && (result_of(*a, *da) is Ok
                ==> possible_draws(*b, *db)),
            _ => false,
        },
    }
}

/// `res` is a result that evaluating `f` can give.
pub open spec fn outcome(f: Formula, res: Result<i64, ComputeError>) -> bool {
    exists|d: Draws| possible_draws(f, d) && #[trigger] result_of(f, d) == res
}

fn apply_op(op: BinOp, a: i64, b: i64) -> (r: Result<i64, ComputeError>)
    ensures
        r == apply(op, a, b),
{
    let x = a as i128;
    let y = b as i128;
    let v: i128 = match op {
        BinOp::Add => x + y,
        BinOp::Sub => x - y,
        BinOp::Mul => {
            assert(-85070591730234615865843651857942052864 <= x * y
                <= 85070591730234615865843651857942052864) by (nonlinear_arith)
                requires
                    -9223372036854775808 <= x <= 9223372036854775807,
                    -9223372036854775808 <= y <= 9223372036854775807,
            ;
            x * y
        },
        BinOp::Div => {
            if b == 0 {
                return Err(ComputeError::DivisionByZero);
            }
            let ua: u128 = if x < 0 {
                (-x) as u128
            } else {
                x as u128
            };
            let ub: u128 = if y < 0 {
                (-y) as u128
            } else {
                y as u128
            };
            let q = ua / ub;
            assert(q <= ua) by (nonlinear_arith)
                requires
                    ub >= 1,
                    q == ua / ub,
            ;
            if (x < 0) == (y < 0) {
                q as i128
            } else {
                -(q as i128)
            }
        },
    };
    if v < i64::MIN as i128 || v > i64::MAX as i128 {
        Err(ComputeError::Overflow)
    } else {
        Ok(v as i64)
    }
}

/// Evaluates a parsed expression, rolling each of its dice afresh.
pub fn evaluate(e: &Expr) -> (r: Result<i64, ComputeError>)
    requires
        rolls_wf(e.model()),
    ensures
        outcome(e.model(), r),
        !(r matches Err(ComputeError::Parse(_))),
    decreases e,
{
    match e {
        Expr::Num(n) => {
            let r = Ok(*n);
            assert(possible_draws(e.model(), Draws::Nothing) && result_of(e.model(), Draws::Nothing)
                == r);
            r
        },
        Expr::Dice(roll) => {
            if roll.sums_fit() {
                let v = roll.roll_dice();
                let ghost d = Draws::Rolled(v);
                assert(possible_draws(e.model(), d) && result_of(e.model(), d) == Ok::<
                    i64,
                    ComputeError,
                >(v));
                Ok(v)
            } else {
                let r = Err(ComputeError::Overflow);
                assert(possible_draws(e.model(), Draws::Nothing) && result_of(
                    e.model(),
                    Draws::Nothing,
                ) == r);
                r
            }
        },
        Expr::Bin(op, a, b) => {
            let ra = evaluate(a);
            let ghost da = choose|d: Draws| possible_draws(a.model(), d) && result_of(a.model(), d) == ra;
            match ra {
                Err(x) => {
                    let ghost d = Draws::Pair(Box::new(da), Box::new(Draws::Nothing));
                    assert(possible_draws(e.model(), d) && result_of(e.model(), d) == ra);
                    Err(x)
                },
                Ok(va) => {
                    let rb = evaluate(b);
                    let ghost db = choose|d: Draws|
                        possible_draws(b.model(), d) && result_of(b.model(), d) == rb;
                    let r = match rb {
                        Err(x) => Err(x),
                        Ok(vb) => apply_op(*op, va, vb),
                    };
                    let ghost d = Draws::Pair(Box::new(da), Box::new(db));
                    assert(possible_draws(e.model(), d) && result_of(e.model(), d) == r);
                    r
                },
            }
        },
    }
}

/// Parses and evaluates a notation string: a parse error exactly when the
/// text is not in the notation, otherwise a result that its formula can give.
pub fn compute(text: &str) -> (r: Result<i64, ComputeError>)
    ensures
        parse_formula(text.spec_bytes()) matches Err(p) ==> r == Err::<i64, ComputeError>(
            ComputeError::Parse(p as usize),
        ),
        parse_formula(text.spec_bytes()) matches Ok(f) ==> outcome(f, r) && !(r matches Err(
            ComputeError::Parse(_),
        )),
{
    match parse_expression(text) {
        Ok(e) => evaluate(&e),
        Err(err) => Err(err),
    }
}

} // verus!
