//! A brute-force search for the shortest expression over integer inputs and constants that
//! evaluates to a goal vector, built level by level over expression length.

pub mod cache;
pub mod candidate;
pub mod divmod;
pub mod engine;
pub mod eval;
pub mod expand;
pub mod expr;
pub mod gcd;
pub mod index;
pub mod keep;
pub mod kernel;
pub mod laws;
pub mod merge;
pub mod num;
pub mod operator;
pub mod params;
pub mod passes;
pub mod power;
pub mod search;
pub mod text;
pub mod vecmap;
pub mod vector;
