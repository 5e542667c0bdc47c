//! Wire type constants for encoding/decoding.
use vstd::prelude::*;

verus! {

pub const FIXED8: u8 = 0;

pub const VARINT: u8 = 1;

pub const FIXED32: u8 = 2;

pub const FIXED64: u8 = 3;

pub const BYTES: u8 = 4;

pub const MESSAGE: u8 = 5;

pub const UNION: u8 = 6;

pub const UNIT: u8 = 7;

} // verus!
