//! Capability flags. A client and a server agree on those that both advertise.

use vstd::prelude::*;

verus! {

pub const CLIENT_LONG_PASSWORD: u32 = 0x0000_0001;

pub const CLIENT_FOUND_ROWS: u32 = 0x0000_0002;

pub const CLIENT_LONG_FLAG: u32 = 0x0000_0004;

pub const CLIENT_CONNECT_WITH_DB: u32 = 0x0000_0008;

pub const CLIENT_NO_SCHEMA: u32 = 0x0000_0010;

pub const CLIENT_COMPRESS: u32 = 0x0000_0020;

pub const CLIENT_LOCAL_FILES: u32 = 0x0000_0080;

pub const CLIENT_PROTOCOL_41: u32 = 0x0000_0200;

pub const CLIENT_INTERACTIVE: u32 = 0x0000_0400;

pub const CLIENT_SSL: u32 = 0x0000_0800;

pub const CLIENT_TRANSACTIONS: u32 = 0x0000_2000;

pub const CLIENT_SECURE_CONNECTION: u32 = 0x0000_8000;

pub const CLIENT_MULTI_STATEMENTS: u32 = 0x0001_0000;

pub const CLIENT_MULTI_RESULTS: u32 = 0x0002_0000;

pub const CLIENT_PS_MULTI_RESULTS: u32 = 0x0004_0000;

pub const CLIENT_PLUGIN_AUTH: u32 = 0x0008_0000;

pub const CLIENT_CONNECT_ATTRS: u32 = 0x0010_0000;

pub const CLIENT_PLUGIN_AUTH_LENENC_CLIENT_DATA: u32 = 0x0020_0000;

pub const CLIENT_DEPRECATE_EOF: u32 = 0x0100_0000;

} // verus!
