//! The bytes that the wire protocol and its numbers are written with.
use vstd::prelude::*;

verus! {

/// `\r`
pub const CR: u8 = 13;

/// `\n`
pub const LF: u8 = 10;

/// `+`
pub const PLUS: u8 = 43;

/// `-`
pub const MINUS: u8 = 45;

/// `:`
pub const COLON: u8 = 58;

/// `$`
pub const DOLLAR: u8 = 36;

/// `*`
pub const STAR: u8 = 42;

/// `0`
pub const ZERO: u8 = 48;

/// `9`
pub const NINE: u8 = 57;

} // verus!
