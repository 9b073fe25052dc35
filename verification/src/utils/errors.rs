//! Error kinds of the database and of queries.

use vstd::prelude::*;

verus! {

/// Failure of a database operation.
#[derive(Debug)]
pub enum DatabaseError {
    VectorNotFound(String),
    CollectionNotFound(String),
    IndexNotFound(String),
    NodeNotFound(String),
    ShardNotFound(String),
    InvalidDimensions { expected: usize, actual: usize },
    /// An I/O failure, by its message.
    IoError(String),
    SerializationError(String),
    NetworkError(String),
    /// The operation timed out after this many milliseconds.
    Timeout(u64),
    ConcurrentModification(String),
    InvalidConfiguration(String),
    Internal(String),
}

/// Failure of a query.
#[derive(Debug)]
pub enum QueryError {
    InvalidQuery(String),
    UnsupportedOperation(String),
    DatabaseError(DatabaseError),
    ExecutionError(String),
}

impl QueryError {
    /// The query failure caused by the database failure `e`.
    pub fn from_database(e: DatabaseError) -> (q: Self)
        ensures
            q == QueryError::DatabaseError(e),
    {
        QueryError::DatabaseError(e)
    }
}

} // verus!
