//! The MySQL client/server wire protocol, without any I/O: bytes are turned into
//! packets and packets into bytes.

pub mod command;
pub mod constants;
pub mod error;
pub mod frame;
pub mod handshake;
pub mod packet;
pub mod response;
pub mod resultset;
pub mod stmt;
