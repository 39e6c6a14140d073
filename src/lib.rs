//! A small constraint-system engine for arithmetic circuits over the Pallas
//! base field, with a mock verifier and a handful of example chips.

pub mod error;
pub mod field;
pub mod value;
pub mod table;
pub mod expression;
pub mod constraint_system;
pub mod layout;
pub mod prover;
pub mod add1;
pub mod fibonacci;
pub mod is_zero;
pub mod range_check;
pub mod range_table;
