//! The materialize node: wraps one input plan node and the table descriptor
//! it writes into, resolves the distribution the input must satisfy, derives
//! the table's keys, and renders the physical operator record.

use vstd::prelude::*;
use vstd::string::StringExecFns;

use fixedbitset::FixedBitSet;

use crate::catalog::{
    copy_orders, ColumnCatalog, ConflictBehavior, TableCatalog, TableType, DEFAULT_OWNER_ID,
    PLACEHOLDER_FRAGMENT_ID, PLACEHOLDER_TABLE_ID,
};
use crate::error::{DefectKind, MaterializeError, PlanningErrorKind};
use crate::fd::{fds_view, FunctionalDependency};
use crate::keys::{derive_columns, derive_pk, derived_keys_ok, has_duplicate_names, key_derivable,
    visible_below};
use crate::bitset::fixed_bits;
use crate::plan::{
    check_req, copy_fds, enforce_if_not_satisfies, is_stream_join, req_wf, same_plan_meta,
    schema_of, spec_is_stream_join, stream_key_of, PlanArena, PlanNodeData,
};
use crate::types::{
    asc, check_distinct, check_in_range, copy_distribution, copy_fields, copy_indices,
    indices_distinct, indices_in_range, key_columns, spec_dist_columns, spec_satisfies,
    Cardinality, ColumnOrder, Distribution, Field, Order, OrderDirection, RequiredDist,
    TableVersion,
};

verus! {

/// The stream-plan metadata a materialize node exposes to its parents:
/// pass-through of its input, except that the stream key is the table's.
pub struct PlanBase {
    pub fields: Vec<Field>,
    pub stream_key: Vec<usize>,
    pub functional_dependencies: Vec<FunctionalDependency>,
    pub distribution: Distribution,
    pub append_only: bool,
    pub emit_on_window_close: bool,
    pub watermark_columns: Vec<usize>,
}

/// Materializes a stream into a persisted, distributed table.
pub struct StreamMaterialize {
    pub base: PlanBase,
    /// Child of the materialize node, as an arena index.
    pub input: usize,
    pub table: TableCatalog,
}

/// The rendered physical materialize-operator record handed to the
/// fragment-building collaborator. The table identifier is deliberately
/// left at zero: it is generated by the catalog service, not here.
pub struct MaterializeNodeBody {
    pub table_id: u32,
    pub column_orders: Vec<ColumnOrder>,
    pub table: TableCatalog,
}

/// One attribute of the explain listing: a name and its rendered values.
pub struct DistillAttr {
    pub key: String,
    pub values: Vec<String>,
}

/// How a column is shown in the explain listing: hidden columns carry a
/// marker suffix.
pub open spec fn shown_name(name: Seq<char>, is_hidden: bool) -> Seq<char> {
    if is_hidden {
        name + "(hidden)"@
    } else {
        name
    }
}

/// The explain label of a conflict behavior.
pub open spec fn conflict_label(c: ConflictBehavior) -> Seq<char> {
    match c {
        ConflictBehavior::NoCheck => "NoCheck"@,
        ConflictBehavior::Overwrite => "Overwrite"@,
        ConflictBehavior::IgnoreConflict => "IgnoreConflict"@,
        ConflictBehavior::DoUpdateIfNotNull => "DoUpdateIfNotNull"@,
    }
}

/// Whether `create` succeeds on the given input node and arguments: the
/// ordering stays inside the schema; the distribution declared by the
/// caller fits the table kind (unless a single-worker input forces a
/// single distribution); the output names are usable; and a key is
/// derivable from the ordering and the input's stream key.
pub open spec fn create_succeeds(
    node: PlanNodeData,
    user_dby: RequiredDist,
    obs: Seq<ColumnOrder>,
    out_names: Seq<String>,
    bits: Set<usize>,
    table_type: TableType,
) -> bool {
    let n = node.fields@.len() as nat;
    let fds = fds_view(node.functional_dependencies@);
    &&& indices_in_range(key_columns(obs), n)
    &&& (node.distribution is Single || match table_type {
        TableType::MaterializedView => user_dby is Any && (stream_key_of(node) matches Some(skin)
            && skin.len() > 0),
        TableType::Index => user_dby is HashShard && req_wf(user_dby, n),
        _ => false,
    })
    &&& !has_duplicate_names(out_names)
    &&& visible_below(bits, n as int) == out_names.len()
    &&& (stream_key_of(node) matches Some(skin) && key_derivable(obs, skin, fds, n))
}

/// Whether `create_for_table` succeeds: the distribution declared by the
/// caller is a usable shard-by-key request (unless a single-worker input
/// forces a single distribution), and the explicit key columns are a
/// non-empty, duplicate-free list inside the schema.
pub open spec fn create_for_table_succeeds(
    node: PlanNodeData,
    user_dby: RequiredDist,
    pk_column_indices: Seq<usize>,
    row_id_index: Option<usize>,
) -> bool {
    let n = node.fields@.len() as nat;
    &&& (node.distribution is Single || (user_dby is ShardByKey && req_wf(user_dby, n)))
    &&& pk_column_indices.len() > 0
    &&& indices_distinct(pk_column_indices)
    &&& indices_in_range(pk_column_indices, n)
    &&& match row_id_index {
        Some(i) => (i as nat) < n,
        None => true,
    }
}

impl StreamMaterialize {
    /// The arena index of the node's child.
    pub open spec fn spec_input(self) -> usize {
        self.input
    }

    /// The table descriptor the node writes into.
    pub open spec fn spec_table(self) -> TableCatalog {
        self.table
    }

    /// Consistency of the node: a well-formed descriptor over as many
    /// columns as the node's schema has, whose stream key the node exposes.
    pub open spec fn wf(self) -> bool {
        &&& self.spec_table().wf()
        &&& self.base.fields@.len() == self.spec_table().columns@.len()
        &&& self.base.stream_key@ == self.spec_table().stream_key@
        &&& indices_in_range(self.base.watermark_columns@, self.base.fields@.len() as nat)
    }

    /// Wraps an input node and a table descriptor into a materialize node.
    /// The node exposes its input's schema, distribution, flags, watermark
    /// columns and functional dependencies, and the table's stream key.
    pub fn new(arena: &PlanArena, input: usize, table: TableCatalog) -> (r: Self)
        requires
            arena.wf(),
            input < arena.nodes@.len(),
            table.wf(),
            table.columns@.len() == arena.nodes@[input as int].fields@.len(),
        ensures
            r.wf(),
            r.spec_input() == input,
            r.spec_table() == table,
            r.base.fields@.map_values(|f: Field| f@) == schema_of(arena.nodes@[input as int]),
            r.base.stream_key@ == table.stream_key@,
            (r.base.distribution is Single) == (arena.nodes@[input as int].distribution
                is Single),
            spec_dist_columns(r.base.distribution) == spec_dist_columns(
                arena.nodes@[input as int].distribution,
            ),
            r.base.append_only == arena.nodes@[input as int].append_only,
            r.base.emit_on_window_close == arena.nodes@[input as int].emit_on_window_close,
            r.base.watermark_columns@ == arena.nodes@[input as int].watermark_columns@,
            fds_view(r.base.functional_dependencies@) == fds_view(
                arena.nodes@[input as int].functional_dependencies@,
            ),
    {
        let node = arena.node(input);
        let base = PlanBase {
            fields: copy_fields(&node.fields),
            stream_key: copy_indices(&table.stream_key),
            functional_dependencies: copy_fds(&node.functional_dependencies),
            distribution: copy_distribution(&node.distribution),
            append_only: node.append_only,
            emit_on_window_close: node.emit_on_window_close,
            watermark_columns: copy_indices(&node.watermark_columns),
        };
        proof {
            assert(base.fields@.map_values(|f: Field| f@) =~= schema_of(
                arena.nodes@[input as int],
            ));
            assert(arena.nodes@[input as int].wf());
        }
        StreamMaterialize { base, input, table }
    }

    /// Rewrites the input to satisfy the distribution the persisted table
    /// needs. A single-worker input forces a single distribution. A `Table`
    /// must come with a usable shard-by-key request and an `Index` with a
    /// resolved hash-shard request, used as-is. A `MaterializedView` must
    /// come unconstrained; the resolver shards by all stream-key columns so
    /// rows of one changelog identity land on one worker — except over a
    /// stream join, whose own distribution is kept to avoid re-partitioning
    /// its state during backfill. `Internal` is never created here.
    pub fn rewrite_input(
        arena: &mut PlanArena,
        input: usize,
        user_distributed_by: RequiredDist,
        table_type: TableType,
    ) -> (r: Result<usize, MaterializeError>)
        requires
            old(arena).wf(),
            input < old(arena).nodes@.len(),
        ensures
            final(arena).wf(),
            final(arena).nodes@.len() <= old(arena).nodes@.len() + 1,
            forall|i: int|
                0 <= i < old(arena).nodes@.len() ==> final(arena).nodes@[i] == old(
                    arena,
                ).nodes@[i],
            ({
                let node = old(arena).nodes@[input as int];
                let n = node.fields@.len() as nat;
                &&& (r == Result::<usize, MaterializeError>::Err(
                    MaterializeError::Defect(DefectKind::TableDistributionNotShardByKey),
                )) <==> (!(node.distribution is Single) && table_type == TableType::Table && !(
                user_distributed_by is ShardByKey && req_wf(user_distributed_by, n)))
                &&& (r == Result::<usize, MaterializeError>::Err(
                    MaterializeError::Defect(DefectKind::ViewDistributionNotAny),
                )) <==> (!(node.distribution is Single) && table_type
                    == TableType::MaterializedView && !(user_distributed_by is Any))
                &&& (r == Result::<usize, MaterializeError>::Err(
                    MaterializeError::Defect(DefectKind::IndexDistributionNotHashShard),
                )) <==> (!(node.distribution is Single) && table_type == TableType::Index && !(
                user_distributed_by is HashShard && req_wf(user_distributed_by, n)))
                &&& (r == Result::<usize, MaterializeError>::Err(
                    MaterializeError::Defect(DefectKind::InternalTableKind),
                )) <==> (!(node.distribution is Single) && table_type == TableType::Internal)
                &&& (r == Result::<usize, MaterializeError>::Err(
                    MaterializeError::Planning(PlanningErrorKind::NoUniqueKey),
                )) <==> (!(node.distribution is Single) && table_type
                    == TableType::MaterializedView && user_distributed_by is Any && !(
                stream_key_of(node) matches Some(skin) && skin.len() > 0))
                &&& (r is Err ==> *final(arena) == *old(arena))
                &&& match r {
                    Ok(rid) => {
                        &&& rid < final(arena).nodes@.len()
                        &&& same_plan_meta(node, final(arena).nodes@[rid as int])
                        &&& (node.distribution is Single ==> rid == input && *final(arena)
                            == *old(arena) && node.distribution is Single)
                        &&& (!(node.distribution is Single) ==> match table_type {
                            TableType::Table => spec_satisfies(
                                final(arena).nodes@[rid as int].distribution,
                                user_distributed_by,
                            ),
                            TableType::MaterializedView => {
                                if spec_is_stream_join(node.kind) {
                                    // The join's own distribution is kept:
                                    // no re-sharding stage is inserted.
                                    rid == input && *final(arena) == *old(arena)
                                } else {
                                    &&& final(arena).nodes@[rid as int].distribution
                                        is HashShard
                                    &&& spec_dist_columns(
                                        final(arena).nodes@[rid as int].distribution,
                                    ).len() > 0
                                    &&& (stream_key_of(node) matches Some(skin)
                                        && forall|i: int|
                                        0 <= i < spec_dist_columns(
                                            final(arena).nodes@[rid as int].distribution,
                                        ).len() ==> skin.contains(
                                            #[trigger] spec_dist_columns(
                                                final(arena).nodes@[rid as int].distribution,
                                            )[i],
                                        ))
                                }
                            },
                            TableType::Index => spec_satisfies(
                                final(arena).nodes@[rid as int].distribution,
                                user_distributed_by,
                            ),
                            TableType::Internal => false,
                        })
                    },
                    Err(e) => {
                        ||| e == MaterializeError::Defect(
                            DefectKind::TableDistributionNotShardByKey,
                        )
                        ||| e == MaterializeError::Defect(DefectKind::ViewDistributionNotAny)
                        ||| e == MaterializeError::Defect(
                            DefectKind::IndexDistributionNotHashShard,
                        )
                        ||| e == MaterializeError::Defect(DefectKind::InternalTableKind)
                        ||| e == MaterializeError::Planning(PlanningErrorKind::NoUniqueKey)
                    },
                }
            }),
    {
        let n = {
            let node = arena.node(input);
            node.fields.len()
        };
        let input_is_single = {
            let node = arena.node(input);
            match node.distribution {
                Distribution::Single => true,
                Distribution::HashShard(_) => false,
            }
        };
        if input_is_single {
            // A single-writer table needs no sharding decision.
            let rid = enforce_if_not_satisfies(arena, input, &RequiredDist::Single);
            return Ok(rid);
        }
        match table_type {
            TableType::Table => {
                let usable = match &user_distributed_by {
                    RequiredDist::ShardByKey(_) => check_req(&user_distributed_by, n),
                    _ => false,
                };
                if !usable {
                    return Err(MaterializeError::Defect(
                        DefectKind::TableDistributionNotShardByKey,
                    ));
                }
                Ok(enforce_if_not_satisfies(arena, input, &user_distributed_by))
            },
            TableType::MaterializedView => {
                match &user_distributed_by {
                    RequiredDist::Any => {},
                    _ => {
                        return Err(MaterializeError::Defect(DefectKind::ViewDistributionNotAny));
                    },
                }
                // Shard by all stream-key columns, so rows sharing a
                // changelog identity always route to the same worker.
                let skin = {
                    let node = arena.node(input);
                    match &node.stream_key {
                        Some(sk) => {
                            if sk.len() == 0 {
                                None
                            } else {
                                Some(copy_indices(sk))
                            }
                        },
                        None => None,
                    }
                };
                let key = match skin {
                    Some(k) => k,
                    None => {
                        return Err(MaterializeError::Planning(PlanningErrorKind::NoUniqueKey));
                    },
                };
                let required = RequiredDist::ShardByKey(key);
                let joins = {
                    let node = arena.node(input);
                    is_stream_join(node.kind)
                };
                if joins {
                    // Keep the join's own distribution: re-sharding a view
                    // over a join by its own key re-partitions the joined
                    // table's state during backfill.
                    return Ok(input);
                }
                Ok(enforce_if_not_satisfies(arena, input, &required))
            },
            TableType::Index => {
                let usable = match &user_distributed_by {
                    RequiredDist::HashShard(_) => check_req(&user_distributed_by, n),
                    _ => false,
                };
                if !usable {
                    return Err(MaterializeError::Defect(
                        DefectKind::IndexDistributionNotHashShard,
                    ));
                }
                Ok(enforce_if_not_satisfies(arena, input, &user_distributed_by))
            },
            TableType::Internal => Err(MaterializeError::Defect(DefectKind::InternalTableKind)),
        }
    }

    /// Assembles the immutable table descriptor: the rewritten input's
    /// distribution key, flags and watermark columns; the derived columns;
    /// the explicit or derived keys; and the kind-specific fields. Identity
    /// fields are placeholders to be assigned by the catalog service.
    fn derive_table_catalog(
        arena: &PlanArena,
        rewritten_input: usize,
        name: String,
        user_order_by: &Order,
        columns: Vec<ColumnCatalog>,
        definition: String,
        conflict_behavior: ConflictBehavior,
        pk_column_indices: Option<Vec<usize>>,
        row_id_index: Option<usize>,
        table_type: TableType,
        version: Option<TableVersion>,
        cardinality: Cardinality,
    ) -> (r: Result<TableCatalog, MaterializeError>)
        requires
            arena.wf(),
            rewritten_input < arena.nodes@.len(),
            columns@.len() == arena.nodes@[rewritten_input as int].fields@.len(),
        ensures
            ({
                let node = arena.nodes@[rewritten_input as int];
                let n = node.fields@.len() as nat;
                let fds = fds_view(node.functional_dependencies@);
                match r {
                    Ok(t) => {
                        &&& t.wf()
                        &&& t.name@ == name@
                        &&& t.definition@ == definition@
                        &&& t.columns@ == columns@
                        &&& t.table_type == table_type
                        &&& t.conflict_behavior == conflict_behavior
                        &&& t.append_only == node.append_only
                        &&& t.watermark_columns@ == node.watermark_columns@
                        &&& t.distribution_key@ == spec_dist_columns(node.distribution)
                        &&& t.row_id_index == row_id_index
                        &&& t.version == version
                        &&& t.cardinality == cardinality
                        &&& t.id == PLACEHOLDER_TABLE_ID
                        &&& t.fragment_id == PLACEHOLDER_FRAGMENT_ID
                        &&& t.owner == DEFAULT_OWNER_ID
                        &&& t.read_prefix_len_hint == t.pk@.len()
                        &&& match pk_column_indices {
                            Some(k) => {
                                &&& t.pk@ == k@.map_values(|c: usize| asc(c))
                                &&& t.stream_key@ == k@
                            },
                            None => stream_key_of(node) matches Some(skin) && derived_keys_ok(
                                n,
                                fds,
                                skin,
                                user_order_by.column_orders@,
                                t.pk@,
                                t.stream_key@,
                            ),
                        }
                    },
                    Err(e) => match pk_column_indices {
                        Some(k) => !(k@.len() > 0 && indices_distinct(k@) && indices_in_range(
                            k@,
                            columns@.len() as nat,
                        ) && (match row_id_index {
                            Some(i) => (i as nat) < columns@.len() as nat,
                            None => true,
                        })),
                        None => !(indices_in_range(key_columns(user_order_by.column_orders@), n)
                            && (stream_key_of(node) matches Some(skin) && key_derivable(
                            user_order_by.column_orders@,
                            skin,
                            fds,
                            n,
                        )) && (match row_id_index {
                            Some(i) => (i as nat) < columns@.len() as nat,
                            None => true,
                        })),
                    },
                }
            }),
            ({
                let node = arena.nodes@[rewritten_input as int];
                let n = node.fields@.len() as nat;
                let fds = fds_view(node.functional_dependencies@);
                (r is Ok) <==> ((match pk_column_indices {
                    Some(k) => k@.len() > 0 && indices_distinct(k@) && indices_in_range(
                        k@,
                        columns@.len() as nat,
                    ),
                    None => indices_in_range(key_columns(user_order_by.column_orders@), n) && (
                    stream_key_of(node) matches Some(skin) && key_derivable(
                        user_order_by.column_orders@,
                        skin,
                        fds,
                        n,
                    )),
                }) && (match row_id_index {
                    Some(i) => (i as nat) < columns@.len() as nat,
                    None => true,
                }))
            }),
    {
        let node = arena.node(rewritten_input);
        let n_cols = columns.len();

        match row_id_index {
            Some(i) => {
                if i >= n_cols {
                    return Err(MaterializeError::Defect(DefectKind::ColumnIndexOutOfRange));
                }
            },
            None => {},
        }

        let (table_pk, stream_key): (Vec<ColumnOrder>, Vec<usize>) = match pk_column_indices {
            Some(k) => {
                // Explicit-key path: the caller's key columns, each
                // ascending; the stream key is the identical column list.
                if !check_in_range(&k, n_cols) {
                    return Err(MaterializeError::Defect(DefectKind::ColumnIndexOutOfRange));
                }
                if k.len() == 0 || !check_distinct(&k) {
                    return Err(MaterializeError::Defect(DefectKind::InvalidExplicitKey));
                }
                let mut pk: Vec<ColumnOrder> = Vec::new();
                let mut i: usize = 0;
                while i < k.len()
                    invariant
                        i <= k@.len(),
                        pk@.len() == i,
                        forall|q: int| 0 <= q < i ==> (#[trigger] pk@[q]) == asc(k@[q]),
                    decreases k@.len() - i,
                {
                    pk.push(ColumnOrder {
                        column_index: k[i],
                        direction: OrderDirection::Ascending,
                    });
                    i += 1;
                }
                proof {
                    assert(pk@ =~= k@.map_values(|c: usize| asc(c)));
                    assert(key_columns(pk@) =~= k@);
                }
                (pk, k)
            },
            None => {
                match derive_pk(node, user_order_by) {
                    Ok(keys) => keys,
                    Err(e) => {
                        return Err(e);
                    },
                }
            },
        };

        let mut value_indices: Vec<usize> = Vec::new();
        let mut i: usize = 0;
        while i < n_cols
            invariant
                i <= n_cols,
                value_indices@.len() == i,
                forall|q: int| 0 <= q < i ==> (#[trigger] value_indices@[q]) as int == q,
            decreases n_cols - i,
        {
            value_indices.push(i);
            i += 1;
        }

        let read_prefix_len_hint = table_pk.len();
        proof {
            assert(forall|q: int|
                0 <= q < stream_key@.len() ==> key_columns(table_pk@).contains(
                    #[trigger] stream_key@[q],
                )) by {
                assert forall|q: int|
                    0 <= q < stream_key@.len() implies key_columns(table_pk@).contains(
                    stream_key@[q],
                ) by {
                    match pk_column_indices {
                        Some(_) => {
                            assert(key_columns(table_pk@)[q] == stream_key@[q]);
                        },
                        None => {
                            assert(crate::fd::index_set(stream_key@).contains(stream_key@[q]));
                            crate::keys::lemma_index_set_is_contains(stream_key@);
                            crate::keys::lemma_index_set_is_contains(key_columns(table_pk@));
                        },
                    }
                }
            }
        }
        let t = TableCatalog {
            id: PLACEHOLDER_TABLE_ID,
            name,
            owner: DEFAULT_OWNER_ID,
            definition,
            version,
            columns,
            pk: table_pk,
            stream_key,
            distribution_key: {
                let node2 = arena.node(rewritten_input);
                node2.distribution.dist_column_indices()
            },
            table_type,
            conflict_behavior,
            append_only: node.append_only,
            watermark_columns: copy_indices(&node.watermark_columns),
            cardinality,
            row_id_index,
            read_prefix_len_hint,
            value_indices,
            fragment_id: PLACEHOLDER_FRAGMENT_ID,
        };
        proof {
            assert(arena.nodes@[rewritten_input as int].wf());
        }
        Ok(t)
    }

    /// Creates a materialize node for a materialized view or an index.
    /// The columns are derived from the input schema and the caller's
    /// output names; the keys are derived from the requested ordering and
    /// the input's functional dependencies; the conflict behavior is
    /// no-check. For an index, rows are distributed by the caller's
    /// resolved hash-shard request.
    pub fn create(
        arena: &mut PlanArena,
        input: usize,
        name: String,
        user_distributed_by: RequiredDist,
        user_order_by: Order,
        user_cols: FixedBitSet,
        out_names: Vec<String>,
        definition: String,
        table_type: TableType,
        cardinality: Cardinality,
    ) -> (r: Result<Self, MaterializeError>)
        requires
            old(arena).wf(),
            input < old(arena).nodes@.len(),
            table_type == TableType::MaterializedView || table_type == TableType::Index,
        ensures
            final(arena).wf(),
            final(arena).nodes@.len() <= old(arena).nodes@.len() + 1,
            forall|i: int|
                0 <= i < old(arena).nodes@.len() ==> final(arena).nodes@[i] == old(
                    arena,
                ).nodes@[i],
            ({
                let node = old(arena).nodes@[input as int];
                let n = node.fields@.len() as nat;
                let fds = fds_view(node.functional_dependencies@);
                let obs = user_order_by.column_orders@;
                let bits = fixed_bits(user_cols);
                &&& (r is Ok) <==> create_succeeds(
                    node,
                    user_distributed_by,
                    obs,
                    out_names@,
                    bits,
                    table_type,
                )
                &&& match r {
                    Ok(m) => {
                        &&& m.wf()
                        &&& m.spec_input() < final(arena).nodes@.len()
                        &&& same_plan_meta(node, final(arena).nodes@[m.spec_input() as int])
                        &&& m.spec_table().table_type == table_type
                        &&& m.spec_table().conflict_behavior == ConflictBehavior::NoCheck
                        &&& m.spec_table().name@ == name@
                        &&& m.spec_table().definition@ == definition@
                        &&& m.spec_table().cardinality == cardinality
                        &&& m.spec_table().version is None
                        &&& m.spec_table().row_id_index is None
                        &&& m.spec_table().append_only == node.append_only
                        &&& m.spec_table().watermark_columns@ == node.watermark_columns@
                        &&& m.spec_table().columns@.len() == n
                        &&& (forall|i: int|
                            0 <= i < n ==> (#[trigger] m.spec_table().columns@[i]).is_hidden
                                == !bits.contains(i as usize))
                        &&& (forall|i: int|
                            0 <= i < n ==> (#[trigger] m.spec_table().columns@[i]).data_type
                                == schema_of(node)[i].data_type)
                        &&& (stream_key_of(node) matches Some(skin) && derived_keys_ok(
                            n,
                            fds,
                            skin,
                            obs,
                            m.spec_table().pk@,
                            m.spec_table().stream_key@,
                        ))
                        &&& m.spec_table().distribution_key@ == spec_dist_columns(
                            final(arena).nodes@[m.spec_input() as int].distribution,
                        )
                        // A view over a stream join keeps the join's own
                        // distribution: no re-sharding stage is inserted.
                        &&& (!(node.distribution is Single) && table_type
                            == TableType::MaterializedView && spec_is_stream_join(node.kind)
                            ==> m.spec_input() == input && final(arena).nodes@.len() == old(
                            arena,
                        ).nodes@.len())
                    },
                    Err(_) => true,
                }
            }),
    {
        let ghost old_node = old(arena).nodes@[input as int];
        let rewritten = match Self::rewrite_input(arena, input, user_distributed_by, table_type) {
            Ok(rid) => rid,
            Err(e) => {
                proof {
                    assert(!create_succeeds(
                        old_node,
                        user_distributed_by,
                        user_order_by.column_orders@,
                        out_names@,
                        fixed_bits(user_cols),
                        table_type,
                    ));
                }
                return Err(e);
            },
        };
        proof {
            let node_new = arena.nodes@[rewritten as int];
            assert(schema_of(node_new).len() == node_new.fields@.len());
            assert(schema_of(old_node).len() == old_node.fields@.len());
            assert(node_new.fields@.len() == old_node.fields@.len());
        }
        let columns = {
            let node = arena.node(rewritten);
            match derive_columns(&node.fields, out_names, &user_cols) {
                Ok(cols) => cols,
                Err(e) => {
                    proof {
                        assert(!create_succeeds(
                            old_node,
                            user_distributed_by,
                            user_order_by.column_orders@,
                            out_names@,
                            fixed_bits(user_cols),
                            table_type,
                        ));
                    }
                    return Err(e);
                },
            }
        };
        let table = match Self::derive_table_catalog(
            arena,
            rewritten,
            name,
            &user_order_by,
            columns,
            definition,
            ConflictBehavior::NoCheck,
            None,
            None,
            table_type,
            None,
            Cardinality { lo: cardinality.lo, hi: cardinality.hi },
        ) {
            Ok(t) => t,
            Err(e) => {
                proof {
                    let node_new = arena.nodes@[rewritten as int];
                    assert(stream_key_of(node_new) == stream_key_of(old_node));
                    assert(fds_view(node_new.functional_dependencies@) == fds_view(
                        old_node.functional_dependencies@,
                    ));
                    assert(!create_succeeds(
                        old_node,
                        user_distributed_by,
                        user_order_by.column_orders@,
                        out_names@,
                        fixed_bits(user_cols),
                        table_type,
                    ));
                }
                return Err(e);
            },
        };
        let m = Self::new(arena, rewritten, table);
        proof {
            let node_new = arena.nodes@[rewritten as int];
            assert(stream_key_of(node_new) == stream_key_of(old_node));
            assert(fds_view(node_new.functional_dependencies@) == fds_view(
                old_node.functional_dependencies@,
            ));
            assert(schema_of(node_new) == schema_of(old_node));
            assert forall|i: int|
                0 <= i < old_node.fields@.len() implies (#[trigger] m.spec_table().columns@[i]).data_type
                == schema_of(old_node)[i].data_type by {
                assert(schema_of(node_new)[i].data_type == node_new.fields@[i]@.data_type);
            }
            assert(create_succeeds(
                old_node,
                user_distributed_by,
                user_order_by.column_orders@,
                out_names@,
                fixed_bits(user_cols),
                table_type,
            ));
        }
        Ok(m)
    }

    /// Creates a materialize node for a `TABLE`. The columns are passed in
    /// directly rather than derived, so column identity established at the
    /// binding step is preserved; the primary key is exactly the caller's
    /// key columns, each ascending, and the stream key equals it.
    pub fn create_for_table(
        arena: &mut PlanArena,
        input: usize,
        name: String,
        user_distributed_by: RequiredDist,
        user_order_by: Order,
        columns: Vec<ColumnCatalog>,
        definition: String,
        conflict_behavior: ConflictBehavior,
        pk_column_indices: Vec<usize>,
        row_id_index: Option<usize>,
        version: Option<TableVersion>,
    ) -> (r: Result<Self, MaterializeError>)
        requires
            old(arena).wf(),
            input < old(arena).nodes@.len(),
            columns@.len() == old(arena).nodes@[input as int].fields@.len(),
        ensures
            final(arena).wf(),
            final(arena).nodes@.len() <= old(arena).nodes@.len() + 1,
            forall|i: int|
                0 <= i < old(arena).nodes@.len() ==> final(arena).nodes@[i] == old(
                    arena,
                ).nodes@[i],
            ({
                let node = old(arena).nodes@[input as int];
                &&& (r is Ok) <==> create_for_table_succeeds(
                    node,
                    user_distributed_by,
                    pk_column_indices@,
                    row_id_index,
                )
                &&& match r {
                    Ok(m) => {
                        &&& m.wf()
                        &&& m.spec_input() < final(arena).nodes@.len()
                        &&& same_plan_meta(node, final(arena).nodes@[m.spec_input() as int])
                        &&& m.spec_table().table_type == TableType::Table
                        // The primary key is the caller's key-column list,
                        // order preserved, each ascending; the stream key
                        // equals it.
                        &&& m.spec_table().pk@ == pk_column_indices@.map_values(
                            |c: usize| asc(c),
                        )
                        &&& m.spec_table().stream_key@ == pk_column_indices@
                        // Conflict behavior flows through unchanged.
                        &&& m.spec_table().conflict_behavior == conflict_behavior
                        &&& m.spec_table().name@ == name@
                        &&& m.spec_table().definition@ == definition@
                        &&& m.spec_table().columns@ == columns@
                        &&& m.spec_table().version == version
                        &&& m.spec_table().row_id_index == row_id_index
                        // Tables have unknown cardinality.
                        &&& m.spec_table().cardinality == (Cardinality { lo: 0u64, hi: None::<u64> })
                        &&& m.spec_table().append_only == node.append_only
                        &&& m.spec_table().distribution_key@ == spec_dist_columns(
                            final(arena).nodes@[m.spec_input() as int].distribution,
                        )
                    },
                    Err(_) => true,
                }
            }),
    {
        let ghost old_node = old(arena).nodes@[input as int];
        let rewritten = match Self::rewrite_input(
            arena,
            input,
            user_distributed_by,
            TableType::Table,
        ) {
            Ok(rid) => rid,
            Err(e) => {
                proof {
                    assert(!create_for_table_succeeds(
                        old_node,
                        user_distributed_by,
                        pk_column_indices@,
                        row_id_index,
                    ));
                }
                return Err(e);
            },
        };
        proof {
            let node_new = arena.nodes@[rewritten as int];
            assert(schema_of(node_new).len() == node_new.fields@.len());
            assert(schema_of(old_node).len() == old_node.fields@.len());
            assert(node_new.fields@.len() == old_node.fields@.len());
        }
        let table = match Self::derive_table_catalog(
            arena,
            rewritten,
            name,
            &user_order_by,
            columns,
            definition,
            conflict_behavior,
            Some(pk_column_indices),
            row_id_index,
            TableType::Table,
            version,
            Cardinality::unknown(),
        ) {
            Ok(t) => t,
            Err(e) => {
                proof {
                    assert(!create_for_table_succeeds(
                        old_node,
                        user_distributed_by,
                        pk_column_indices@,
                        row_id_index,
                    ));
                }
                return Err(e);
            },
        };
        let m = Self::new(arena, rewritten, table);
        proof {
            assert(create_for_table_succeeds(
                old_node,
                user_distributed_by,
                pk_column_indices@,
                row_id_index,
            ));
        }
        Ok(m)
    }

    /// The materialize node's table descriptor.
    pub fn table(&self) -> (r: &TableCatalog)
        ensures
            *r == self.spec_table(),
    {
        &self.table
    }

    /// The table's name.
    pub fn name(&self) -> (r: &str)
        ensures
            r@ == self.spec_table().name@,
    {
        self.table.name()
    }

    /// The arena index of the node's child.
    pub fn input(&self) -> (r: usize)
        ensures
            r == self.spec_input(),
    {
        self.input
    }

    /// Substitutes the node's child. The new child must expose the same
    /// field data types; the node's own schema field types, stream key and
    /// table descriptor are preserved exactly, so later optimizer passes
    /// can relocate the node without key-semantics drift. A child of a
    /// different shape is a defect.
    pub fn clone_with_input(&self, arena: &PlanArena, input: usize) -> (r: Result<
        Self,
        MaterializeError,
    >)
        requires
            arena.wf(),
            input < arena.nodes@.len(),
            self.wf(),
        ensures
            ({
                let node = arena.nodes@[input as int];
                let same_types = schema_of(node).len() == self.base.fields@.len() && (forall|
                    i: int,
                |
                    0 <= i < self.base.fields@.len() ==> (#[trigger] schema_of(node)[i]).data_type
                        == self.base.fields@[i].data_type);
                &&& (r is Ok) <==> same_types
                &&& match r {
                    Ok(m) => {
                        &&& m.wf()
                        &&& m.spec_input() == input
                        &&& m.spec_table()@ == self.spec_table()@
                        &&& m.base.stream_key@ == self.base.stream_key@
                        &&& m.base.fields@.len() == self.base.fields@.len()
                        &&& forall|i: int|
                            0 <= i < m.base.fields@.len()
                                ==> (#[trigger] m.base.fields@[i]).data_type
                                == self.base.fields@[i].data_type
                    },
                    Err(e) => e == MaterializeError::Defect(DefectKind::SchemaMismatch),
                }
            }),
    {
        let node = arena.node(input);
        if node.fields.len() != self.base.fields.len() {
            proof {
                assert(schema_of(arena.nodes@[input as int]).len()
                    == arena.nodes@[input as int].fields@.len());
            }
            return Err(MaterializeError::Defect(DefectKind::SchemaMismatch));
        }
        let mut i: usize = 0;
        while i < node.fields.len()
            invariant
                i <= node.fields@.len(),
                node.fields@.len() == self.base.fields@.len(),
                *node == arena.nodes@[input as int],
                forall|k: int|
                    0 <= k < i ==> (#[trigger] schema_of(arena.nodes@[input as int])[k]).data_type
                        == self.base.fields@[k].data_type,
            decreases node.fields@.len() - i,
        {
            if !data_type_eq(node.fields[i].data_type, self.base.fields[i].data_type) {
                proof {
                    assert(schema_of(arena.nodes@[input as int])[i as int].data_type
                        == arena.nodes@[input as int].fields@[i as int]@.data_type);
                }
                return Err(MaterializeError::Defect(DefectKind::SchemaMismatch));
            }
            proof {
                assert(schema_of(arena.nodes@[input as int])[i as int].data_type
                    == arena.nodes@[input as int].fields@[i as int]@.data_type);
            }
            i += 1;
        }
        let dup = self.table.duplicate();
        proof {
            assert(dup.pk@ == self.table.pk@);
            assert(dup.stream_key@ == self.table.stream_key@);
            assert(dup.distribution_key@ == self.table.distribution_key@);
            assert(dup.watermark_columns@ == self.table.watermark_columns@);
            assert(dup.value_indices@ == self.table.value_indices@);
            assert(dup.columns@.len() == self.table.columns@.len()) by {
                assert(crate::catalog::columns_view(dup.columns@).len() == dup.columns@.len());
                assert(crate::catalog::columns_view(self.table.columns@).len()
                    == self.table.columns@.len());
            }
            assert(dup.wf());
        }
        let m = Self::new(arena, input, dup);
        proof {
            assert forall|i: int|
                0 <= i < m.base.fields@.len() implies (#[trigger] m.base.fields@[i]).data_type
                == self.base.fields@[i].data_type by {
                assert(m.base.fields@.map_values(|f: Field| f@)[i] == m.base.fields@[i]@);
                assert(schema_of(arena.nodes@[input as int])[i].data_type
                    == self.base.fields@[i].data_type);
            }
            assert(m.base.fields@.len() == self.base.fields@.len()) by {
                assert(m.base.fields@.map_values(|f: Field| f@).len() == m.base.fields@.len());
                assert(schema_of(arena.nodes@[input as int]).len() == self.base.fields@.len());
            }
        }
        Ok(m)
    }

    /// The explain attribute list: columns (hidden ones marked), stream-key
    /// and primary-key column names, the conflict behavior, and — only when
    /// any exist — the watermark columns.
    pub fn distill(&self) -> (r: Vec<DistillAttr>)
        requires
            self.wf(),
        ensures
            ({
                let t = self.spec_table();
                let wm = self.base.watermark_columns@;
                &&& r@.len() == (if wm.len() > 0 {
                    5int
                } else {
                    4int
                })
                &&& r@[0].key@ == "columns"@
                &&& r@[0].values@.len() == t.columns@.len()
                &&& (forall|i: int|
                    0 <= i < t.columns@.len() ==> (#[trigger] r@[0].values@[i])@ == shown_name(
                        t.columns@[i].name@,
                        t.columns@[i].is_hidden,
                    ))
                &&& r@[1].key@ == "stream_key"@
                &&& r@[1].values@.len() == t.stream_key@.len()
                &&& (forall|i: int|
                    0 <= i < t.stream_key@.len() ==> (#[trigger] r@[1].values@[i])@
                        == t.columns@[t.stream_key@[i] as int].name@)
                &&& r@[2].key@ == "pk_columns"@
                &&& r@[2].values@.len() == t.pk@.len()
                &&& (forall|i: int|
                    0 <= i < t.pk@.len() ==> (#[trigger] r@[2].values@[i])@
                        == t.columns@[t.pk@[i].column_index as int].name@)
                &&& r@[3].key@ == "pk_conflict"@
                &&& r@[3].values@.len() == 1
                &&& r@[3].values@[0]@ == conflict_label(t.conflict_behavior)
                &&& (wm.len() > 0 ==> {
                    &&& r@[4].key@ == "watermark_columns"@
                    &&& r@[4].values@.len() == wm.len()
                    &&& (forall|i: int|
                        0 <= i < wm.len() ==> (#[trigger] r@[4].values@[i])@ == shown_name(
                            t.columns@[wm[i] as int].name@,
                            t.columns@[wm[i] as int].is_hidden,
                        ))
                })
            }),
    {
        let t = &self.table;
        let mut out: Vec<DistillAttr> = Vec::new();

        let mut column_names: Vec<String> = Vec::new();
        let mut i: usize = 0;
        while i < t.columns.len()
            invariant
                i <= t.columns@.len(),
                column_names@.len() == i,
                forall|k: int|
                    0 <= k < i ==> (#[trigger] column_names@[k])@ == shown_name(
                        t.columns@[k].name@,
                        t.columns@[k].is_hidden,
                    ),
            decreases t.columns@.len() - i,
        {
            column_names.push(name_with_hidden(&t.columns[i]));
            i += 1;
        }
        out.push(DistillAttr { key: "columns".to_owned(), values: column_names });

        let mut stream_key_names: Vec<String> = Vec::new();
        let mut j: usize = 0;
        while j < t.stream_key.len()
            invariant
                j <= t.stream_key@.len(),
                stream_key_names@.len() == j,
                self.wf(),
                t == self.spec_table(),
                forall|k: int|
                    0 <= k < j ==> (#[trigger] stream_key_names@[k])@ == t.columns@[t.stream_key@[k] as int].name@,
            decreases t.stream_key@.len() - j,
        {
            let idx = t.stream_key[j];
            stream_key_names.push(t.columns[idx].name.clone());
            j += 1;
        }
        out.push(DistillAttr { key: "stream_key".to_owned(), values: stream_key_names });

        let mut pk_names: Vec<String> = Vec::new();
        let mut p: usize = 0;
        while p < t.pk.len()
            invariant
                p <= t.pk@.len(),
                pk_names@.len() == p,
                self.wf(),
                t == self.spec_table(),
                forall|k: int|
                    0 <= k < p ==> (#[trigger] pk_names@[k])@ == t.columns@[t.pk@[k].column_index as int].name@,
            decreases t.pk@.len() - p,
        {
            proof {
                assert(key_columns(t.pk@)[p as int] == t.pk@[p as int].column_index);
                assert(key_columns(t.pk@)[p as int] < t.columns@.len());
            }
            let idx = t.pk[p].column_index;
            pk_names.push(t.columns[idx].name.clone());
            p += 1;
        }
        out.push(DistillAttr { key: "pk_columns".to_owned(), values: pk_names });

        let mut conflict: Vec<String> = Vec::new();
        conflict.push(conflict_to_string(t.conflict_behavior));
        out.push(DistillAttr { key: "pk_conflict".to_owned(), values: conflict });

        if self.base.watermark_columns.len() > 0 {
            let mut wm_names: Vec<String> = Vec::new();
            let mut w: usize = 0;
            while w < self.base.watermark_columns.len()
                invariant
                    w <= self.base.watermark_columns@.len(),
                    wm_names@.len() == w,
                    self.wf(),
                    t == self.spec_table(),
                    forall|k: int|
                        0 <= k < w ==> (#[trigger] wm_names@[k])@ == shown_name(
                            t.columns@[self.base.watermark_columns@[k] as int].name@,
                            t.columns@[self.base.watermark_columns@[k] as int].is_hidden,
                        ),
                decreases self.base.watermark_columns@.len() - w,
            {
                let idx = self.base.watermark_columns[w];
                wm_names.push(name_with_hidden(&t.columns[idx]));
                w += 1;
            }
            out.push(DistillAttr { key: "watermark_columns".to_owned(), values: wm_names });
        }
        out
    }

    /// Renders the physical materialize-operator record for the
    /// fragment-building collaborator: the primary key as ordered
    /// (column index, direction) pairs and the full table descriptor, still
    /// carrying placeholder identity. The table id is left at zero: it is
    /// generated by the catalog service.
    pub fn to_stream_prost_body(&self) -> (r: MaterializeNodeBody)
        ensures
            r.table_id == 0,
            r.column_orders@ == self.spec_table().pk@,
            r.table@ == self.spec_table()@,
    {
        MaterializeNodeBody {
            table_id: 0,
            column_orders: copy_orders(&self.table.pk),
            table: self.table.duplicate(),
        }
    }
}

/// Compares two data types.
fn data_type_eq(a: crate::types::DataType, b: crate::types::DataType) -> (r: bool)
    ensures
        r == (a == b),
{
    a == b
}

/// A column's explain name: hidden columns carry the marker suffix.
fn name_with_hidden(c: &ColumnCatalog) -> (r: String)
    ensures
        r@ == shown_name(c.name@, c.is_hidden),
{
    if c.is_hidden {
        let mut s = c.name.clone();
        s.append("(hidden)");
        s
    } else {
        c.name.clone()
    }
}

/// The explain label of a conflict behavior.
fn conflict_to_string(c: ConflictBehavior) -> (r: String)
    ensures
        r@ == conflict_label(c),
{
    match c {
        ConflictBehavior::NoCheck => "NoCheck".to_owned(),
        ConflictBehavior::Overwrite => "Overwrite".to_owned(),
        ConflictBehavior::IgnoreConflict => "IgnoreConflict".to_owned(),
        ConflictBehavior::DoUpdateIfNotNull => "DoUpdateIfNotNull".to_owned(),
    }
}

/// Every well-formed descriptor keeps the key invariants: the stream-key
/// column set is contained in the primary key's column set, and the primary
/// key is non-empty.
pub proof fn lemma_descriptor_key_invariants(t: TableCatalog)
    requires
        t.wf(),
    ensures
        t.pk@.len() > 0,
        t.stream_key@.len() > 0,
        forall|i: int|
            0 <= i < t.stream_key@.len() ==> key_columns(t.pk@).contains(
                #[trigger] t.stream_key@[i],
            ),
{
}

} // verus!
