//! Shopping-list engine for a recipe collection: exact quantities, unit
//! conversion, per-recipe grouping, cross-recipe aggregation and aisle
//! categorisation, together with the rules the recipe server applies to
//! request paths and file names.
//!
//! Amounts are exact fractions; nothing is rounded. The one limit is that
//! of the machine: the numerator and the denominator of an amount in
//! lowest terms are below 2^63. Merging goes by units alone; where a sum
//! or a conversion would pass the limit, the addition reports an overflow
//! and the functions that build a list give none, rather than a list that
//! is wrong.

pub mod arith;
pub mod amount;
pub mod algebra;
pub mod sums;
pub mod text;
pub mod seqs;
pub mod units;
pub mod quantity;
pub mod ingredient;
pub mod aggregate;
pub mod aisle;
pub mod shopping;
pub mod paths;
pub mod requests;
pub mod laws;
pub mod twice;
pub mod totals;
pub mod content;
