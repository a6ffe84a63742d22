//! Views that are kept up to date change by change.

pub mod dbsp;
pub mod events;
pub mod registry;
pub mod view;
