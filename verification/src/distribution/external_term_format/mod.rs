//! The external term format: the byte encoding of terms of `term_to_binary`.
pub mod grammar;
pub mod integers;
pub mod atom;
pub mod small_atom;
pub mod pid;
pub mod export;
pub mod scalars;
pub mod new_function;
pub mod term;
pub mod laws;
