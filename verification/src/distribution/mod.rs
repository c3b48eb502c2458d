//! Distribution: the external term format that nodes exchange terms in.
pub mod external_term_format;
