//! A durable queue kept as one file per item in a spool directory.
//!
//! The library holds the verified logic of the queue: the grammar of item file
//! names, the two selection policies, the plans that acknowledge or restore
//! consumed items, the per-handle counter, and a model of the spool on which
//! the laws of the item lifecycle are proved. Reading, writing and renaming
//! the files is left to the caller, which hands the library directory
//! listings and carries out what it decides.
use vstd::prelude::*;

pub mod name;
pub mod queue;
pub mod select;
pub mod spool;

pub use queue::{Queue, QueueStream};
