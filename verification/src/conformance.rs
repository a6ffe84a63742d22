//! Conformance tests: the format of the test files, and the judgement of what a
//! server answers.

pub mod format;
pub mod judge;
pub mod render;
