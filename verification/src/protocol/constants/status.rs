//! Server status flags, as OK and EOF packets report them.

use vstd::prelude::*;

verus! {

pub const SERVER_STATUS_IN_TRANS: u16 = 0x0001;

pub const SERVER_STATUS_AUTOCOMMIT: u16 = 0x0002;

pub const SERVER_MORE_RESULTS_EXISTS: u16 = 0x0008;

} // verus!
