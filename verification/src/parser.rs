//! The MySQL front end: tokens, errors and system variables.

pub mod error;
pub mod lexemes;
pub mod lexer;
pub mod token;
pub mod variables;
