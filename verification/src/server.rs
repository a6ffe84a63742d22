//! The server: what is answered to a statement, and how.

pub mod catalog;
pub mod connection;
pub mod errors;
pub mod forms;
pub mod like;
pub mod listing;
pub mod probe;
pub mod reply;
pub mod request;
pub mod schema;
pub mod session;
pub mod show;
pub mod statements;
pub mod temporal;
pub mod tokens;
pub mod types;
pub mod value;
