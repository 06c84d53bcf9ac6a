//! Value types shared by the planning stages: sort orders, data types,
//! schema fields, distributions and distribution requirements.

use vstd::prelude::*;

verus! {

/// Sort direction of one primary-key or order-by column.
#[derive(Clone, Copy, Debug, PartialEq, Eq, Structural)]
pub enum OrderDirection {
    Ascending,
    Descending,
}

/// One (column index, sort direction) pair of a primary key or an order-by
/// request.
#[derive(Clone, Copy, Debug, PartialEq, Eq, Structural)]
pub struct ColumnOrder {
    pub column_index: usize,
    pub direction: OrderDirection,
}

impl ColumnOrder {
    pub fn new(column_index: usize, direction: OrderDirection) -> (r: Self)
        ensures
            r == (ColumnOrder { column_index, direction }),
    {
        ColumnOrder { column_index, direction }
    }

    /// An ascending order on the given column, the default for key columns.
    pub fn ascending(column_index: usize) -> (r: Self)
        ensures
            r == asc(column_index),
    {
        ColumnOrder { column_index, direction: OrderDirection::Ascending }
    }
}

/// Ascending order on a column, as a spec-level constructor.
pub open spec fn asc(column_index: usize) -> ColumnOrder {
    ColumnOrder { column_index, direction: OrderDirection::Ascending }
}

/// The column indices of an ordered key, in key order.
pub open spec fn key_columns(pk: Seq<ColumnOrder>) -> Seq<usize> {
    pk.map_values(|o: ColumnOrder| o.column_index)
}

/// An ordered sequence of (column, direction) pairs requested by the caller
/// for a view or index's natural ordering.
#[derive(Clone, Debug)]
pub struct Order {
    pub column_orders: Vec<ColumnOrder>,
}

impl Order {
    /// The unconstrained sort order: no ordering is required.
    pub fn any() -> (r: Self)
        ensures
            r.column_orders@ =~= Seq::<ColumnOrder>::empty(),
    {
        Order { column_orders: Vec::new() }
    }

    pub fn new(column_orders: Vec<ColumnOrder>) -> (r: Self)
        ensures
            r.column_orders@ == column_orders@,
    {
        Order { column_orders }
    }
}

/// Data type of a column.
#[derive(Clone, Copy, Debug, PartialEq, Eq, Structural)]
pub enum DataType {
    Boolean,
    Int16,
    Int32,
    Int64,
    Decimal,
    Date,
    Timestamp,
    Varchar,
}

/// One column of a plan node's schema.
#[derive(Clone, Debug)]
pub struct Field {
    pub name: String,
    pub data_type: DataType,
}

/// Mathematical value of a schema field.
#[verifier::ext_equal]
pub struct FieldView {
    pub name: Seq<char>,
    pub data_type: DataType,
}

impl View for Field {
    type V = FieldView;

    open spec fn view(&self) -> FieldView {
        FieldView { name: self.name@, data_type: self.data_type }
    }
}

/// The physical partitioning a plan node's output currently has: either all
/// rows on one worker, or hash-sharded by the given column indices.
#[derive(Clone, Debug)]
pub enum Distribution {
    Single,
    HashShard(Vec<usize>),
}

/// The column indices a distribution hash-shards by; empty for `Single`.
pub open spec fn spec_dist_columns(d: Distribution) -> Seq<usize> {
    match d {
        Distribution::Single => Seq::empty(),
        Distribution::HashShard(cols) => cols@,
    }
}

impl Distribution {
    /// The list of column indices used to hash-shard rows across workers;
    /// empty when all rows live on a single worker.
    pub fn dist_column_indices(&self) -> (r: Vec<usize>)
        ensures
            r@ == spec_dist_columns(*self),
    {
        match self {
            Distribution::Single => Vec::new(),
            Distribution::HashShard(cols) => copy_indices(cols),
        }
    }
}

/// A required (not yet physically bound) distribution: unconstrained, a
/// single worker, a logical shard-by-key request over a column set, or a
/// fully resolved hash-shard request.
#[derive(Clone, Debug)]
pub enum RequiredDist {
    Any,
    Single,
    ShardByKey(Vec<usize>),
    HashShard(Vec<usize>),
}

/// Whether a physical distribution satisfies a requirement:
/// `Any` is always satisfied; `Single` only by `Single`; a shard-by-key
/// request by any non-empty hash-sharding on a subset of the key columns;
/// a hash-shard request only by exactly that sharding.
pub open spec fn spec_satisfies(d: Distribution, r: RequiredDist) -> bool {
    match r {
        RequiredDist::Any => true,
        RequiredDist::Single => d is Single,
        RequiredDist::ShardByKey(key) => {
            &&& d is HashShard
            &&& spec_dist_columns(d).len() > 0
            &&& forall|i: int|
                0 <= i < spec_dist_columns(d).len() ==> key@.contains(
                    #[trigger] spec_dist_columns(d)[i],
                )
        },
        RequiredDist::HashShard(cols) => d is HashShard && spec_dist_columns(d) == cols@,
    }
}

/// The distribution an enforcement stage binds a requirement to.
/// `Any` imposes nothing, so it has no bound form.
pub open spec fn spec_required_to_dist(r: RequiredDist) -> Distribution
    recommends
        !(r is Any),
{
    match r {
        RequiredDist::Any => Distribution::Single,
        RequiredDist::Single => Distribution::Single,
        RequiredDist::ShardByKey(key) => Distribution::HashShard(key),
        RequiredDist::HashShard(cols) => Distribution::HashShard(cols),
    }
}

/// Cardinality estimate of a plan node's output: a lower bound and an
/// optional upper bound on the row count.
#[derive(Clone, Copy, Debug, PartialEq, Eq)]
pub struct Cardinality {
    pub lo: u64,
    pub hi: Option<u64>,
}

impl Cardinality {
    /// The estimate that says nothing: at least zero rows, no upper bound.
    pub fn unknown() -> (r: Self)
        ensures
            r == (Cardinality { lo: 0u64, hi: None::<u64> }),
    {
        Cardinality { lo: 0, hi: None }
    }
}

/// Version of a table's schema, bumped by schema-change statements.
#[derive(Clone, Copy, Debug, PartialEq, Eq, Structural)]
pub struct TableVersion {
    pub version_id: u64,
    pub next_column_id: u32,
}

/// Whether all the given column indices lie below `n`.
pub open spec fn indices_in_range(s: Seq<usize>, n: nat) -> bool {
    forall|i: int| 0 <= i < s.len() ==> (#[trigger] s[i]) < n
}

/// Whether the given column indices are pairwise distinct.
pub open spec fn indices_distinct(s: Seq<usize>) -> bool {
    forall|i: int, j: int| 0 <= i < j < s.len() ==> s[i] != s[j]
}

/// Checks that every index in `v` lies below `n`.
pub fn check_in_range(v: &Vec<usize>, n: usize) -> (r: bool)
    ensures
        r == indices_in_range(v@, n as nat),
{
    let mut i: usize = 0;
    while i < v.len()
        invariant
            0 <= i <= v@.len(),
            forall|k: int| 0 <= k < i ==> (#[trigger] v@[k]) < n,
        decreases v@.len() - i,
    {
        if v[i] >= n {
            return false;
        }
        i += 1;
    }
    true
}

/// Checks that the indices in `v` are pairwise distinct.
pub fn check_distinct(v: &Vec<usize>) -> (r: bool)
    ensures
        r == indices_distinct(v@),
{
    let mut i: usize = 0;
    while i < v.len()
        invariant
            0 <= i <= v@.len(),
            forall|p: int, q: int| 0 <= p < q < i ==> v@[p] != v@[q],
        decreases v@.len() - i,
    {
        let mut j: usize = 0;
        while j < i
            invariant
                0 <= j <= i < v@.len(),
                forall|p: int, q: int| 0 <= p < q < i ==> v@[p] != v@[q],
                forall|q: int| 0 <= q < j ==> v@[q] != v@[i as int],
            decreases i - j,
        {
            if v[j] == v[i] {
                assert(v@[j as int] == v@[i as int]);
                return false;
            }
            j += 1;
        }
        i += 1;
    }
    true
}

/// Copies a list of column indices.
pub fn copy_indices(v: &Vec<usize>) -> (r: Vec<usize>)
    ensures
        r@ == v@,
{
    let mut out: Vec<usize> = Vec::new();
    let mut i: usize = 0;
    while i < v.len()
        invariant
            0 <= i <= v@.len(),
            out@ == v@.subrange(0, i as int),
        decreases v@.len() - i,
    {
        out.push(v[i]);
        i += 1;
    }
    assert(out@ =~= v@);
    out
}

/// Copies a schema, preserving every field's name and data type.
pub fn copy_fields(v: &Vec<Field>) -> (r: Vec<Field>)
    ensures
        r@.len() == v@.len(),
        forall|i: int| 0 <= i < v@.len() ==> (#[trigger] r@[i])@ == v@[i]@,
{
    let mut out: Vec<Field> = Vec::new();
    let mut i: usize = 0;
    while i < v.len()
        invariant
            0 <= i <= v@.len(),
            out@.len() == i,
            forall|k: int| 0 <= k < i ==> (#[trigger] out@[k])@ == v@[k]@,
        decreases v@.len() - i,
    {
        let f = Field { name: v[i].name.clone(), data_type: v[i].data_type };
        out.push(f);
        i += 1;
    }
    out
}

/// Copies a distribution.
pub fn copy_distribution(d: &Distribution) -> (r: Distribution)
    ensures
        r is Single <==> d is Single,
        spec_dist_columns(r) == spec_dist_columns(*d),
{
    match d {
        Distribution::Single => Distribution::Single,
        Distribution::HashShard(cols) => Distribution::HashShard(copy_indices(cols)),
    }
}

/// Checks whether a physical distribution satisfies a requirement.
#[verifier::loop_isolation(false)]
pub fn satisfies(d: &Distribution, r: &RequiredDist) -> (b: bool)
    ensures
        b == spec_satisfies(*d, *r),
{
    match r {
        RequiredDist::Any => true,
        RequiredDist::Single => match d {
            Distribution::Single => true,
            Distribution::HashShard(_) => false,
        },
        RequiredDist::ShardByKey(key) => match d {
            Distribution::Single => false,
            Distribution::HashShard(cols) => {
                assert(spec_dist_columns(*d) == cols@);
                if cols.len() == 0 {
                    return false;
                }
                let mut i: usize = 0;
                while i < cols.len()
                    invariant
                        0 <= i <= cols@.len(),
                        forall|k: int| 0 <= k < i ==> key@.contains(#[trigger] cols@[k]),
                    decreases cols@.len() - i,
                {
                    if !contains_index(key, cols[i]) {
                        assert(!key@.contains(spec_dist_columns(*d)[i as int]));
                        return false;
                    }
                    i += 1;
                }
                true
            },
        },
        RequiredDist::HashShard(want) => match d {
            Distribution::Single => false,
            Distribution::HashShard(cols) => {
                assert(spec_dist_columns(*d) == cols@);
                if cols.len() != want.len() {
                    return false;
                }
                let mut i: usize = 0;
                while i < cols.len()
                    invariant
                        0 <= i <= cols@.len(),
                        cols@.len() == want@.len(),
                        forall|k: int| 0 <= k < i ==> cols@[k] == want@[k],
                    decreases cols@.len() - i,
                {
                    if cols[i] != want[i] {
                        assert(spec_dist_columns(*d)[i as int] != want@[i as int]);
                        return false;
                    }
                    i += 1;
                }
                assert(cols@ =~= want@);
                true
            },
        },
    }
}

/// Checks whether `v` contains the index `x`.
pub fn contains_index(v: &Vec<usize>, x: usize) -> (r: bool)
    ensures
        r == v@.contains(x),
{
    let mut i: usize = 0;
    while i < v.len()
        invariant
            0 <= i <= v@.len(),
            forall|k: int| 0 <= k < i ==> v@[k] != x,
        decreases v@.len() - i,
    {
        if v[i] == x {
            assert(v@[i as int] == x);
            return true;
        }
        i += 1;
    }
    false
}

} // verus!
