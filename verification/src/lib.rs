//! Verified core of a calculator for expressions over complex numbers.
//!
//! An expression such as `{1, 2} + {3} * {4, -1}` goes through four stages:
//! [`tokenize::tokenize`] scans the text into tokens, reading each literal by
//! the grammar of [`parse_complex`]; [`shunting_yard::shunting_yard`] puts
//! the tokens into postfix order; [`process_tokens::process`] reduces the
//! postfix sequence to one number; [`complex`] and [`format`] write that
//! number down.
//!
//! Numbers are double-precision and are held by their encoding, see
//! [`binary64`]. Whatever can be decided on encodings and on text is decided
//! and proved here. Three things are the caller's, to be done on its
//! hardware: turning the digits of a literal into a number, computing an
//! operation that [`process_tokens::process`] asks for, and printing the
//! digits of a number.

pub mod binary64;
pub mod complex;
pub mod display_complex;
pub mod format;
pub mod parse_complex;
pub mod process_tokens;
pub mod round_trip;
pub mod shunting_yard;
pub mod text;
pub mod token;
pub mod tokenize;
