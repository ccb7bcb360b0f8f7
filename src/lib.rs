//! Evaluation of tabletop dice notation such as `2d6+4`, `10d10kh8>=8` or
//! `2d[5,6,7]`, with every roll drawn afresh on each evaluation.

pub mod laws;
pub mod parse;
pub mod random;
pub mod roll;
