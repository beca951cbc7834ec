//! A codec for a textual, type-tagged wire protocol of a key-value store,
//! with the command builders and response shaping that sit on top of it.

pub mod ascii;
pub mod bignum;
pub mod commands;
pub mod data_type;
pub mod decimal;
pub mod display;
pub mod double;
pub mod parser;
pub mod protocol;
pub mod reply;
pub mod round_trip;
pub mod text;
