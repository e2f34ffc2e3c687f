//! Luhn check digits over ASCII decimal and alphanumeric identifiers:
//! payment card numbers, IMEIs, ISINs.
//!
//! Every entry point is total: bytes outside the accepted alphabet give
//! `false` or `None`. What each function returns is stated over the
//! definitions in [`model`].

pub mod model;
pub mod fold;
pub mod swar;
pub mod vector;
pub mod decimal;
pub mod alphanum;
pub mod mixer;
pub mod laws;

pub use crate::alphanum::{checksum, valid};
pub use crate::mixer::Mixer;
