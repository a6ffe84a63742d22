//! The statements of transactions.

use vstd::prelude::*;

use crate::text;

verus! {

/// Starts a transaction.
#[derive(Debug, Clone, Copy, PartialEq, Eq, Structural)]
pub enum Begin {
    Deferred,
    Immediate,
    Concurrent,
}

/// Ends a transaction and keeps its changes.
#[derive(Debug, Clone, Copy, PartialEq, Eq, Structural)]
pub struct Commit;

/// Ends a transaction and drops its changes.
#[derive(Debug, Clone, Copy, PartialEq, Eq, Structural)]
pub struct Rollback;

/// Makes a savepoint within a transaction.
#[derive(Debug, Clone, PartialEq, Eq)]
pub struct Savepoint(pub String);

/// Goes back to a savepoint.
#[derive(Debug, Clone, PartialEq, Eq)]
pub struct RollbackTo(pub String);

/// Removes a savepoint and keeps the changes since.
#[derive(Debug, Clone, PartialEq, Eq)]
pub struct ReleaseSavepoint(pub String);

fn with_name(keyword: &str, name: &str) -> (r: String)
    ensures
        r@ == keyword@ + name@,
{
    let mut out = text::chars_of(keyword);
    text::push_text(&mut out, name);
    text::string_of(&out)
}

impl Begin {
    /// The text of the statement. The default kind has no keyword, and the blank
    /// before it stays.
    pub fn to_sql(&self) -> (r: String)
        ensures
            r@ == match *self {
                Begin::Deferred => "BEGIN "@,
                Begin::Immediate => "BEGIN IMMEDIATE"@,
                Begin::Concurrent => "BEGIN CONCURRENT"@,
            },
    {
        match *self {
            Begin::Deferred => "BEGIN ".to_string(),
            Begin::Immediate => "BEGIN IMMEDIATE".to_string(),
            Begin::Concurrent => "BEGIN CONCURRENT".to_string(),
        }
    }
}

impl Commit {
    /// The text of the statement.
    pub fn to_sql(&self) -> (r: String)
        ensures
            r@ == "COMMIT"@,
    {
        "COMMIT".to_string()
    }
}

impl Rollback {
    /// The text of the statement.
    pub fn to_sql(&self) -> (r: String)
        ensures
            r@ == "ROLLBACK"@,
    {
        "ROLLBACK".to_string()
    }
}

impl Savepoint {
    /// The text of the statement.
    pub fn to_sql(&self) -> (r: String)
        ensures
            r@ == "SAVEPOINT "@ + self.0@,
    {
        with_name("SAVEPOINT ", self.0.as_str())
    }
}

impl RollbackTo {
    /// The text of the statement.
    pub fn to_sql(&self) -> (r: String)
        ensures
            r@ == "ROLLBACK TO "@ + self.0@,
    {
        with_name("ROLLBACK TO ", self.0.as_str())
    }
}

impl ReleaseSavepoint {
    /// The text of the statement.
    pub fn to_sql(&self) -> (r: String)
        ensures
            r@ == "RELEASE SAVEPOINT "@ + self.0@,
    {
        with_name("RELEASE SAVEPOINT ", self.0.as_str())
    }
}

} // verus!
