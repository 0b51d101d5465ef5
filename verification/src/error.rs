//! The error type of the pool.
use vstd::prelude::*;

verus! {

/// What can go wrong in an operation of the pool.
#[derive(Debug, PartialEq, Eq)]
pub enum RustDBError {
    /// The pool itself could not serve the request.
    BufferPool(String),
    /// The disk reported a failure.
    Disk(String),
    /// A node could not be turned into bytes, or bytes into a node.
    Codec(String),
}

impl RustDBError {
    /// Whether this is an error of the pool itself, with the given message.
    pub open spec fn is_buffer_pool(self, message: Seq<char>) -> bool {
        self matches RustDBError::BufferPool(text) && text@ == message
    }

    /// Whether this is a codec error with the given message.
    pub open spec fn is_codec(self, message: Seq<char>) -> bool {
        self matches RustDBError::Codec(text) && text@ == message
    }
}

/// The result of an operation of the pool.
pub type RustDBResult<T> = Result<T, RustDBError>;

} // verus!
