//! Collation identifiers.

use vstd::prelude::*;

verus! {

pub const UTF8MB4_GENERAL_CI: u8 = 45;

pub const BINARY: u8 = 63;

} // verus!
