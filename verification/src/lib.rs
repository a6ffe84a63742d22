//! A MySQL front end for an embedded database engine: the wire protocol, the
//! reading of statements, the decisions of a connection, and the data structures
//! that stand beside them.
//!
//! Nothing here does input or output. Sockets, files and the engine are outside;
//! the functions of the library take what came from there and say what is to be
//! done with it.

pub mod conformance;
pub mod incremental;
pub mod mvcc;
pub mod numeric;
pub mod parser;
pub mod protocol;
pub mod server;
pub mod text;
pub mod throughput;
pub mod transaction;
