//! A buffer pool for a page-oriented database.
//!
//! The pool keeps a fixed number of frames, each of which can hold one page of
//! the database file. It decides which frame a page goes to, which page is
//! given up when no frame is free, and when a page must be written back. It
//! performs no disk access itself: an operation that needs the disk hands out
//! a request and is resumed with the reply.
pub mod availability;
pub mod calls;
pub mod coherence;
pub mod contracts;
pub mod error;
pub mod flush_all;
pub mod flushing;
pub mod guard;
pub mod latching;
pub mod laws;
pub mod node;
pub mod outcomes;
pub mod page;
pub mod policy;
pub mod pool;
pub mod references;
pub mod replacer;
pub mod state;
pub mod step;
pub mod system;
