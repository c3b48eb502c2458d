//! Verified parts of the Lumen Erlang runtime: the external term format decoder,
//! `binary_to_term`, `unique_integer`, `min` and the term order it rests on.
pub mod term;
pub mod utf8;
pub mod atom_table;
pub mod distribution;
pub mod binary;
pub mod otp;
pub mod digits;
pub mod numbers;
pub mod term_order;
pub mod strategy;
