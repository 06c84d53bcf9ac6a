//! Materialization planning for a distributed streaming SQL optimizer.
//!
//! Converts the output of a streaming dataflow plan into a persisted,
//! distributed table descriptor and a physical materialize-operator record:
//! it resolves the distribution the input must satisfy, derives the table's
//! primary and stream keys, assembles the immutable table descriptor, and
//! renders the physical node body handed to the scheduler.

pub mod bitset;
pub mod catalog;
pub mod error;
pub mod fd;
pub mod keys;
pub mod materialize;
pub mod plan;
pub mod types;
