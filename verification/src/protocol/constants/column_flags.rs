//! Column flags: nullability, key membership, signedness.

use vstd::prelude::*;

verus! {

pub const NOT_NULL_FLAG: u16 = 0x0001;

pub const PRI_KEY_FLAG: u16 = 0x0002;

pub const UNIQUE_KEY_FLAG: u16 = 0x0004;

pub const MULTIPLE_KEY_FLAG: u16 = 0x0008;

pub const BLOB_FLAG: u16 = 0x0010;

pub const UNSIGNED_FLAG: u16 = 0x0020;

pub const ZEROFILL_FLAG: u16 = 0x0040;

pub const BINARY_FLAG: u16 = 0x0080;

pub const ENUM_FLAG: u16 = 0x0100;

pub const AUTO_INCREMENT_FLAG: u16 = 0x0200;

pub const TIMESTAMP_FLAG: u16 = 0x0400;

pub const SET_FLAG: u16 = 0x0800;

pub const NUM_FLAG: u16 = 0x8000;

} // verus!
