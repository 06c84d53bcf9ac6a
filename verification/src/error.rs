//! The two disjoint failure classes of the planning core.
//!
//! A defect signals that an upstream optimizer stage broke a caller contract
//! (for example, it handed a distribution kind inconsistent with the table
//! kind being created); it is never a user-facing message. A planning error
//! is a recoverable, user-facing failure (for example, no unique-determining
//! column subset exists for a requested view), propagated back to the
//! statement-handling caller.

use vstd::prelude::*;

verus! {

/// A caller-contract violation: a defect in an upstream optimizer stage.
#[derive(Clone, Copy, Debug, PartialEq, Eq, Structural)]
pub enum DefectKind {
    /// A `Table` was created with a declared distribution that is not a
    /// usable shard-by-key request.
    TableDistributionNotShardByKey,
    /// A `MaterializedView` was created with a constrained declared
    /// distribution.
    ViewDistributionNotAny,
    /// An `Index` was created with a declared distribution that is not a
    /// resolved hash-shard request.
    IndexDistributionNotHashShard,
    /// The `Internal` table kind is never created through this path.
    InternalTableKind,
    /// A column index referred outside the schema.
    ColumnIndexOutOfRange,
    /// Explicit key columns were empty or repeated a column.
    InvalidExplicitKey,
    /// The number of visible output names did not match the visible columns.
    ColumnCountMismatch,
    /// A plan node handed to the arena was not well formed.
    MalformedPlanNode,
    /// A child substitution changed a column's data type.
    SchemaMismatch,
}

/// A recoverable, user-facing planning failure.
#[derive(Clone, Copy, Debug, PartialEq, Eq, Structural)]
pub enum PlanningErrorKind {
    /// No unique-determining column subset exists: the view or index has no
    /// determinable row identity.
    NoUniqueKey,
    /// An output column name was specified more than once.
    DuplicateColumnName,
}

/// Failure of a planning operation, keeping the two classes structurally
/// separate so callers and tests can tell a defect from a planning error.
#[derive(Clone, Copy, Debug, PartialEq, Eq, Structural)]
pub enum MaterializeError {
    /// Fatal: an upstream stage violated this core's caller contract.
    Defect(DefectKind),
    /// Recoverable: reported to the end user by the statement handler.
    Planning(PlanningErrorKind),
}

} // verus!
