//! The ASCII bytes that the wire format is made of.

use vstd::prelude::*;

verus! {

/// Carriage return, the first byte of a line ending.
pub const CR: u8 = 13;

/// Line feed, the second byte of a line ending.
pub const LF: u8 = 10;

/// The digit `0`.
pub const ZERO: u8 = 48;

/// The digit `9`.
pub const NINE: u8 = 57;

/// The sign `+`.
pub const PLUS: u8 = 43;

/// The sign `-`.
pub const MINUS: u8 = 45;

/// The decimal point `.`.
pub const POINT: u8 = 46;

/// The exponent mark `e`.
pub const LOWER_E: u8 = 101;

/// The exponent mark `E`.
pub const UPPER_E: u8 = 69;

/// The marker of a bulk string, `$`.
pub const TAG_BULK_STRING: u8 = 36;

/// The marker of a simple string, `+`.
pub const TAG_SIMPLE_STRING: u8 = 43;

/// The marker of a simple error, `-`.
pub const TAG_SIMPLE_ERROR: u8 = 45;

/// The marker of an integer, `:`.
pub const TAG_INTEGER: u8 = 58;

/// The marker of an array, `*`.
pub const TAG_ARRAY: u8 = 42;

/// The marker of a boolean, `#`.
pub const TAG_BOOLEAN: u8 = 35;

/// The marker of a double, `,`.
pub const TAG_DOUBLE: u8 = 44;

/// The marker of the null value, `_`.
pub const TAG_NULL: u8 = 95;

/// The marker of a big number, `(`.
pub const TAG_BIG_NUMBER: u8 = 40;

/// The marker of a bulk error, `!`.
pub const TAG_BULK_ERROR: u8 = 33;

/// The letter `t`, which stands for true.
pub const LOWER_T: u8 = 116;

/// The letter `f`, which stands for false.
pub const LOWER_F: u8 = 102;

/// The digit `1`.
pub const ONE: u8 = 49;

} // verus!
