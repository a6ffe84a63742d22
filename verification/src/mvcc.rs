//! The multi-version index.

pub mod bwtree;
pub mod page;
pub mod pool;
