//! The persisted table's metadata record and its invariants.

use vstd::prelude::*;

use crate::types::{indices_distinct, indices_in_range, key_columns, Cardinality, ColumnOrder,
    DataType, TableVersion};

verus! {

/// What kind of persisted table a descriptor describes.
#[derive(Clone, Copy, Debug, PartialEq, Eq, Structural)]
pub enum TableType {
    Table,
    MaterializedView,
    Index,
    Internal,
}

/// How a new row whose primary key duplicates a stored row's key is
/// resolved. Passed through unchanged from the caller, never computed here.
#[derive(Clone, Copy, Debug, PartialEq, Eq, Structural)]
pub enum ConflictBehavior {
    NoCheck,
    Overwrite,
    IgnoreConflict,
    DoUpdateIfNotNull,
}

/// One column of a table: name, data type, and whether the column is hidden
/// from `SELECT *`.
#[derive(Clone, Debug)]
pub struct ColumnCatalog {
    pub name: String,
    pub data_type: DataType,
    pub is_hidden: bool,
}

/// Mathematical value of a column.
#[verifier::ext_equal]
pub struct ColumnCatalogView {
    pub name: Seq<char>,
    pub data_type: DataType,
    pub is_hidden: bool,
}

impl View for ColumnCatalog {
    type V = ColumnCatalogView;

    open spec fn view(&self) -> ColumnCatalogView {
        ColumnCatalogView { name: self.name@, data_type: self.data_type, is_hidden: self.is_hidden }
    }
}

/// The mathematical value of a column list.
pub open spec fn columns_view(cols: Seq<ColumnCatalog>) -> Seq<ColumnCatalogView> {
    cols.map_values(|c: ColumnCatalog| c@)
}

/// Table identity placeholder: identity fields are assigned by the catalog
/// service at commit time, never by this core.
pub const PLACEHOLDER_TABLE_ID: u32 = u32::MAX - 1;

/// Fragment identity placeholder, resolved by the scheduler.
pub const PLACEHOLDER_FRAGMENT_ID: u32 = u32::MAX - 1;

/// Owner of a freshly planned table until the session assigns one.
pub const DEFAULT_OWNER_ID: u32 = 1;

/// The persisted table's physical and logical metadata, constructed once
/// during planning and immutable thereafter.
#[derive(Clone, Debug)]
pub struct TableCatalog {
    /// Placeholder until assigned by the external catalog service.
    pub id: u32,
    pub name: String,
    pub owner: u32,
    /// The definition text of the statement that created the table.
    pub definition: String,
    pub version: Option<TableVersion>,
    /// Ordered, order-significant column list.
    pub columns: Vec<ColumnCatalog>,
    /// Defines physical row ordering within a shard.
    pub pk: Vec<ColumnOrder>,
    /// Identifies a changelog row's identity for upsert/delete matching;
    /// always a subset of the primary key's column set.
    pub stream_key: Vec<usize>,
    /// Column indices used to hash-shard rows across workers.
    pub distribution_key: Vec<usize>,
    pub table_type: TableType,
    pub conflict_behavior: ConflictBehavior,
    pub append_only: bool,
    /// Monotonic columns used for retraction elision; copied from the input.
    pub watermark_columns: Vec<usize>,
    pub cardinality: Cardinality,
    /// The synthetic row-id column, if the table has one.
    pub row_id_index: Option<usize>,
    /// Derived: equals the primary key length.
    pub read_prefix_len_hint: usize,
    /// Currently the identity mapping over all columns.
    pub value_indices: Vec<usize>,
    /// Placeholder until resolved by the scheduler.
    pub fragment_id: u32,
}

/// Mathematical value of a table descriptor.
#[verifier::ext_equal]
pub struct TableCatalogView {
    pub id: u32,
    pub name: Seq<char>,
    pub owner: u32,
    pub definition: Seq<char>,
    pub version: Option<TableVersion>,
    pub columns: Seq<ColumnCatalogView>,
    pub pk: Seq<ColumnOrder>,
    pub stream_key: Seq<usize>,
    pub distribution_key: Seq<usize>,
    pub table_type: TableType,
    pub conflict_behavior: ConflictBehavior,
    pub append_only: bool,
    pub watermark_columns: Seq<usize>,
    pub cardinality: Cardinality,
    pub row_id_index: Option<usize>,
    pub read_prefix_len_hint: usize,
    pub value_indices: Seq<usize>,
    pub fragment_id: u32,
}

impl View for TableCatalog {
    type V = TableCatalogView;

    open spec fn view(&self) -> TableCatalogView {
        TableCatalogView {
            id: self.id,
            name: self.name@,
            owner: self.owner,
            definition: self.definition@,
            version: self.version,
            columns: columns_view(self.columns@),
            pk: self.pk@,
            stream_key: self.stream_key@,
            distribution_key: self.distribution_key@,
            table_type: self.table_type,
            conflict_behavior: self.conflict_behavior,
            append_only: self.append_only,
            watermark_columns: self.watermark_columns@,
            cardinality: self.cardinality,
            row_id_index: self.row_id_index,
            read_prefix_len_hint: self.read_prefix_len_hint,
            value_indices: self.value_indices@,
            fragment_id: self.fragment_id,
        }
    }
}

impl TableCatalog {
    /// The invariants every constructed descriptor satisfies: a non-empty,
    /// duplicate-free primary key over the table's columns; a non-empty
    /// stream key whose column set is contained in the primary key's; a
    /// distribution key over the table's columns; a read-prefix hint equal
    /// to the primary key length; and the identity value-column mapping.
    pub open spec fn wf(self) -> bool {
        let n = self.columns@.len() as nat;
        &&& self.pk@.len() > 0
        &&& indices_in_range(key_columns(self.pk@), n)
        &&& indices_distinct(key_columns(self.pk@))
        &&& self.stream_key@.len() > 0
        &&& indices_in_range(self.stream_key@, n)
        &&& indices_distinct(self.stream_key@)
        &&& forall|i: int|
            0 <= i < self.stream_key@.len() ==> key_columns(self.pk@).contains(
                #[trigger] self.stream_key@[i],
            )
        &&& indices_in_range(self.distribution_key@, n)
        &&& indices_in_range(self.watermark_columns@, n)
        &&& self.read_prefix_len_hint == self.pk@.len()
        &&& self.value_indices@.len() == n
        &&& forall|i: int| 0 <= i < n ==> (#[trigger] self.value_indices@[i]) as int == i
        &&& match self.row_id_index {
            Some(i) => (i as nat) < n,
            None => true,
        }
    }

    /// The table's name.
    pub fn name(&self) -> (r: &str)
        ensures
            r@ == self.name@,
    {
        self.name.as_str()
    }

    /// The table's primary key.
    pub fn pk(&self) -> (r: &Vec<ColumnOrder>)
        ensures
            *r == self.pk,
    {
        &self.pk
    }

    /// The table's columns.
    pub fn columns(&self) -> (r: &Vec<ColumnCatalog>)
        ensures
            *r == self.columns,
    {
        &self.columns
    }

    /// The table's conflict behavior.
    pub fn conflict_behavior(&self) -> (r: ConflictBehavior)
        ensures
            r == self.conflict_behavior,
    {
        self.conflict_behavior
    }

    /// A value-equal copy of the descriptor (its mathematical value is
    /// preserved exactly).
    pub fn duplicate(&self) -> (r: TableCatalog)
        ensures
            r@ == self@,
    {
        let r = TableCatalog {
            id: self.id,
            name: self.name.clone(),
            owner: self.owner,
            definition: self.definition.clone(),
            version: self.version,
            columns: copy_columns(&self.columns),
            pk: copy_orders(&self.pk),
            stream_key: crate::types::copy_indices(&self.stream_key),
            distribution_key: crate::types::copy_indices(&self.distribution_key),
            table_type: self.table_type,
            conflict_behavior: self.conflict_behavior,
            append_only: self.append_only,
            watermark_columns: crate::types::copy_indices(&self.watermark_columns),
            cardinality: self.cardinality,
            row_id_index: self.row_id_index,
            read_prefix_len_hint: self.read_prefix_len_hint,
            value_indices: crate::types::copy_indices(&self.value_indices),
            fragment_id: self.fragment_id,
        };
        proof {
            assert(columns_view(r.columns@) =~= columns_view(self.columns@));
            assert(r@ =~= self@);
        }
        r
    }
}

/// Copies a column list, preserving each column's value.
pub fn copy_columns(v: &Vec<ColumnCatalog>) -> (r: Vec<ColumnCatalog>)
    ensures
        r@.len() == v@.len(),
        forall|i: int| 0 <= i < v@.len() ==> (#[trigger] r@[i])@ == v@[i]@,
{
    let mut out: Vec<ColumnCatalog> = Vec::new();
    let mut i: usize = 0;
    while i < v.len()
        invariant
            i <= v@.len(),
            out@.len() == i,
            forall|k: int| 0 <= k < i ==> (#[trigger] out@[k])@ == v@[k]@,
        decreases v@.len() - i,
    {
        let c = ColumnCatalog {
            name: v[i].name.clone(),
            data_type: v[i].data_type,
            is_hidden: v[i].is_hidden,
        };
        out.push(c);
        i += 1;
    }
    out
}

/// Copies an ordered key.
pub fn copy_orders(v: &Vec<ColumnOrder>) -> (r: Vec<ColumnOrder>)
    ensures
        r@ == v@,
{
    let mut out: Vec<ColumnOrder> = Vec::new();
    let mut i: usize = 0;
    while i < v.len()
        invariant
            i <= v@.len(),
            out@ == v@.subrange(0, i as int),
        decreases v@.len() - i,
    {
        out.push(v[i]);
        i += 1;
    }
    assert(out@ =~= v@);
    out
}

} // verus!
