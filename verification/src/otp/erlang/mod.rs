//! Built-in functions of the `erlang` module.
pub mod binary_to_term_1;
pub mod binary_to_term_2;
pub mod unique_integer;
pub mod min_2;
