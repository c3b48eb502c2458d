//! Functions of OTP modules.
pub mod erlang;
