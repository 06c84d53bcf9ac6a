use fixedbitset::FixedBitSet;

use stream_materialize::catalog::{ColumnCatalog, ConflictBehavior, TableType};
use stream_materialize::error::{DefectKind, MaterializeError, PlanningErrorKind};
use stream_materialize::fd::FunctionalDependency;
use stream_materialize::materialize::StreamMaterialize;
use stream_materialize::plan::{NodeCaps, NodeKind, PlanArena, PlanNodeData};
use stream_materialize::types::{
    Cardinality, ColumnOrder, DataType, Distribution, Field, Order, OrderDirection, RequiredDist,
};

fn field(name: &str, data_type: DataType) -> Field {
    Field { name: name.to_string(), data_type }
}

fn all_visible(n: usize) -> FixedBitSet {
    let mut b = FixedBitSet::with_capacity(n);
    for i in 0..n {
        b.insert(i);
    }
    b
}

#[allow(clippy::too_many_arguments)]
fn node(
    kind: NodeKind,
    fields: Vec<Field>,
    stream_key: Option<Vec<usize>>,
    distribution: Distribution,
    fds: Vec<FunctionalDependency>,
    watermark_columns: Vec<usize>,
) -> PlanNodeData {
    PlanNodeData {
        kind,
        caps: NodeCaps::stream_default(),
        fields,
        stream_key,
        distribution,
        append_only: false,
        emit_on_window_close: false,
        watermark_columns,
        functional_dependencies: fds,
        children: Vec::new(),
    }
}

fn abc_fields() -> Vec<Field> {
    vec![
        field("a", DataType::Int64),
        field("b", DataType::Int32),
        field("c", DataType::Varchar),
    ]
}

fn names(list: &[&str]) -> Vec<String> {
    list.iter().map(|s| s.to_string()).collect()
}

/// Materialized view over a 3-column input (a, b, c) with requested order-by
/// (b ascending) and the dependency {b, c} -> a: the primary key extends the
/// ordering with c, the stream key is {b, c}, and rows are sharded by it.
#[test]
fn mv_derived_key_scenario() {
    let mut arena = PlanArena::new();
    let input = arena
        .add_node(node(
            NodeKind::Other,
            abc_fields(),
            Some(vec![1, 2]),
            Distribution::HashShard(vec![0]),
            vec![FunctionalDependency::new(vec![1, 2], vec![0])],
            vec![],
        ))
        .unwrap();
    let before = arena.len();
    let m = StreamMaterialize::create(
        &mut arena,
        input,
        "mv".to_string(),
        RequiredDist::Any,
        Order::new(vec![ColumnOrder::new(1, OrderDirection::Ascending)]),
        all_visible(3),
        names(&["a", "b", "c"]),
        "create materialized view mv".to_string(),
        TableType::MaterializedView,
        Cardinality::unknown(),
    )
    .unwrap();
    let t = m.table();
    assert_eq!(
        t.pk,
        vec![
            ColumnOrder::new(1, OrderDirection::Ascending),
            ColumnOrder::new(2, OrderDirection::Ascending),
        ]
    );
    assert_eq!(t.stream_key, vec![1, 2]);
    assert_eq!(t.distribution_key, vec![1, 2]);
    assert_eq!(t.table_type, TableType::MaterializedView);
    assert_eq!(t.conflict_behavior, ConflictBehavior::NoCheck);
    assert_eq!(t.read_prefix_len_hint, 2);
    assert_eq!(t.value_indices, vec![0, 1, 2]);
    // Input was sharded by a, not the stream key: one exchange was inserted.
    assert_eq!(arena.len(), before + 1);
    assert_eq!(arena.node(m.input()).kind, NodeKind::StreamExchange);
    match &arena.node(m.input()).distribution {
        Distribution::HashShard(cols) => assert_eq!(cols, &vec![1, 2]),
        other => panic!("expected hash shard, got {:?}", other),
    }
}

/// Table created with explicit key columns [0] and no synthetic row id:
/// primary key [(0, ascending)], stream key {0}.
#[test]
fn table_explicit_key_single_column() {
    let mut arena = PlanArena::new();
    let input = arena
        .add_node(node(
            NodeKind::Other,
            abc_fields(),
            Some(vec![0]),
            Distribution::HashShard(vec![0]),
            vec![],
            vec![],
        ))
        .unwrap();
    let before = arena.len();
    let columns = vec![
        ColumnCatalog { name: "a".to_string(), data_type: DataType::Int64, is_hidden: false },
        ColumnCatalog { name: "b".to_string(), data_type: DataType::Int32, is_hidden: false },
        ColumnCatalog { name: "c".to_string(), data_type: DataType::Varchar, is_hidden: false },
    ];
    let m = StreamMaterialize::create_for_table(
        &mut arena,
        input,
        "t".to_string(),
        RequiredDist::ShardByKey(vec![0]),
        Order::any(),
        columns,
        "create table t".to_string(),
        ConflictBehavior::NoCheck,
        vec![0],
        None,
        None,
    )
    .unwrap();
    let t = m.table();
    assert_eq!(t.pk, vec![ColumnOrder::new(0, OrderDirection::Ascending)]);
    assert_eq!(t.stream_key, vec![0]);
    // The input already satisfied the shard-by-key request: no exchange.
    assert_eq!(arena.len(), before);
    assert_eq!(m.input(), input);
    assert_eq!(t.table_type, TableType::Table);
    assert!(t.row_id_index.is_none());
}

/// Explicit-key path keeps the caller's column order and makes the stream
/// key equal to the primary key; the conflict behavior flows unchanged.
#[test]
fn table_explicit_key_order_and_conflict() {
    let mut arena = PlanArena::new();
    let input = arena
        .add_node(node(
            NodeKind::Other,
            abc_fields(),
            Some(vec![0]),
            Distribution::HashShard(vec![2]),
            vec![],
            vec![],
        ))
        .unwrap();
    let columns = vec![
        ColumnCatalog { name: "a".to_string(), data_type: DataType::Int64, is_hidden: false },
        ColumnCatalog { name: "b".to_string(), data_type: DataType::Int32, is_hidden: false },
        ColumnCatalog { name: "c".to_string(), data_type: DataType::Varchar, is_hidden: false },
    ];
    let m = StreamMaterialize::create_for_table(
        &mut arena,
        input,
        "t2".to_string(),
        RequiredDist::ShardByKey(vec![2, 0]),
        Order::any(),
        columns,
        "create table t2".to_string(),
        ConflictBehavior::Overwrite,
        vec![2, 0],
        None,
        None,
    )
    .unwrap();
    let t = m.table();
    assert_eq!(
        t.pk,
        vec![
            ColumnOrder::new(2, OrderDirection::Ascending),
            ColumnOrder::new(0, OrderDirection::Ascending),
        ]
    );
    assert_eq!(t.stream_key, vec![2, 0]);
    assert_eq!(t.conflict_behavior, ConflictBehavior::Overwrite);
}

/// A view over a stream join keeps the join's own distribution: no
/// re-sharding stage is inserted and the table is sharded as the join was.
#[test]
fn mv_over_stream_join_keeps_distribution() {
    for kind in [
        NodeKind::StreamHashJoin,
        NodeKind::StreamTemporalJoin,
        NodeKind::StreamDeltaJoin,
    ] {
        let mut arena = PlanArena::new();
        let input = arena
            .add_node(node(
                kind,
                abc_fields(),
                Some(vec![1]),
                Distribution::HashShard(vec![0]),
                vec![FunctionalDependency::new(vec![1], vec![0, 2])],
                vec![],
            ))
            .unwrap();
        let before = arena.len();
        let m = StreamMaterialize::create(
            &mut arena,
            input,
            "mvj".to_string(),
            RequiredDist::Any,
            Order::any(),
            all_visible(3),
            names(&["a", "b", "c"]),
            "create materialized view mvj".to_string(),
            TableType::MaterializedView,
            Cardinality::unknown(),
        )
        .unwrap();
        assert_eq!(arena.len(), before, "no exchange inserted for {:?}", kind);
        assert_eq!(m.input(), input);
        assert_eq!(m.table().distribution_key, vec![0]);
    }
}

/// A table whose declared distribution is not a shard-by-key request, and an
/// index whose declared distribution is not a resolved hash-shard request,
/// fail with a defect rather than silently substituting a distribution.
#[test]
fn wrong_declared_distribution_is_a_defect() {
    let mut arena = PlanArena::new();
    let input = arena
        .add_node(node(
            NodeKind::Other,
            abc_fields(),
            Some(vec![0]),
            Distribution::HashShard(vec![0]),
            vec![],
            vec![],
        ))
        .unwrap();
    let columns = vec![
        ColumnCatalog { name: "a".to_string(), data_type: DataType::Int64, is_hidden: false },
        ColumnCatalog { name: "b".to_string(), data_type: DataType::Int32, is_hidden: false },
        ColumnCatalog { name: "c".to_string(), data_type: DataType::Varchar, is_hidden: false },
    ];
    let r = StreamMaterialize::create_for_table(
        &mut arena,
        input,
        "t".to_string(),
        RequiredDist::Any,
        Order::any(),
        columns,
        "create table t".to_string(),
        ConflictBehavior::NoCheck,
        vec![0],
        None,
        None,
    );
    assert_eq!(
        r.err().unwrap(),
        MaterializeError::Defect(DefectKind::TableDistributionNotShardByKey)
    );

    let r2 = StreamMaterialize::create(
        &mut arena,
        input,
        "idx".to_string(),
        RequiredDist::ShardByKey(vec![0]),
        Order::any(),
        all_visible(3),
        names(&["a", "b", "c"]),
        "create index idx".to_string(),
        TableType::Index,
        Cardinality::unknown(),
    );
    assert_eq!(
        r2.err().unwrap(),
        MaterializeError::Defect(DefectKind::IndexDistributionNotHashShard)
    );

    let r3 = StreamMaterialize::create(
        &mut arena,
        input,
        "mv".to_string(),
        RequiredDist::ShardByKey(vec![0]),
        Order::any(),
        all_visible(3),
        names(&["a", "b", "c"]),
        "create materialized view mv".to_string(),
        TableType::MaterializedView,
        Cardinality::unknown(),
    );
    assert_eq!(
        r3.err().unwrap(),
        MaterializeError::Defect(DefectKind::ViewDistributionNotAny)
    );
}

/// An input without a determinable row identity cannot back a view: the
/// derived-key path fails with a planning error, never an empty key.
#[test]
fn mv_without_stream_key_is_a_planning_error() {
    let mut arena = PlanArena::new();
    let input = arena
        .add_node(node(
            NodeKind::Other,
            abc_fields(),
            None,
            Distribution::HashShard(vec![0]),
            vec![],
            vec![],
        ))
        .unwrap();
    let r = StreamMaterialize::create(
        &mut arena,
        input,
        "mv".to_string(),
        RequiredDist::Any,
        Order::new(vec![ColumnOrder::new(0, OrderDirection::Ascending)]),
        all_visible(3),
        names(&["a", "b", "c"]),
        "create materialized view mv".to_string(),
        TableType::MaterializedView,
        Cardinality::unknown(),
    );
    assert_eq!(
        r.err().unwrap(),
        MaterializeError::Planning(PlanningErrorKind::NoUniqueKey)
    );
}

/// Every constructed descriptor keeps the key invariants: a non-empty
/// primary key whose column set contains the stream key.
#[test]
fn descriptor_key_invariants_hold() {
    let mut arena = PlanArena::new();
    let input = arena
        .add_node(node(
            NodeKind::Other,
            abc_fields(),
            Some(vec![1, 2]),
            Distribution::HashShard(vec![0]),
            vec![FunctionalDependency::new(vec![1, 2], vec![0])],
            vec![],
        ))
        .unwrap();
    let m = StreamMaterialize::create(
        &mut arena,
        input,
        "mv".to_string(),
        RequiredDist::Any,
        Order::new(vec![ColumnOrder::new(0, OrderDirection::Ascending)]),
        all_visible(3),
        names(&["a", "b", "c"]),
        "create materialized view mv".to_string(),
        TableType::MaterializedView,
        Cardinality::unknown(),
    )
    .unwrap();
    let t = m.table();
    assert!(!t.pk.is_empty());
    assert!(!t.stream_key.is_empty());
    let pk_cols: Vec<usize> = t.pk.iter().map(|o| o.column_index).collect();
    for k in &t.stream_key {
        assert!(pk_cols.contains(k));
    }
    assert_eq!(t.read_prefix_len_hint, t.pk.len());
    for d in &t.distribution_key {
        assert!(*d < t.columns.len());
    }
}

/// The stream key is minimized: an order-by column that other key columns
/// determine is kept in the primary key for ordering but dropped from the
/// stream key.
#[test]
fn stream_key_is_minimized() {
    let mut arena = PlanArena::new();
    let input = arena
        .add_node(node(
            NodeKind::Other,
            abc_fields(),
            Some(vec![1, 2]),
            Distribution::HashShard(vec![1, 2]),
            vec![FunctionalDependency::new(vec![1, 2], vec![0])],
            vec![],
        ))
        .unwrap();
    let m = StreamMaterialize::create(
        &mut arena,
        input,
        "mv".to_string(),
        RequiredDist::Any,
        Order::new(vec![ColumnOrder::new(0, OrderDirection::Ascending)]),
        all_visible(3),
        names(&["a", "b", "c"]),
        "create materialized view mv".to_string(),
        TableType::MaterializedView,
        Cardinality::unknown(),
    )
    .unwrap();
    let t = m.table();
    // The ordering column a is determined by {b, c}: kept in the primary
    // key, dropped from the stream key.
    assert_eq!(
        t.pk,
        vec![
            ColumnOrder::new(0, OrderDirection::Ascending),
            ColumnOrder::new(1, OrderDirection::Ascending),
            ColumnOrder::new(2, OrderDirection::Ascending),
        ]
    );
    assert_eq!(t.stream_key, vec![1, 2]);
}

/// A repeated output column name is rejected as a user-facing error.
#[test]
fn duplicate_output_name_is_rejected() {
    let mut arena = PlanArena::new();
    let input = arena
        .add_node(node(
            NodeKind::Other,
            abc_fields(),
            Some(vec![0]),
            Distribution::HashShard(vec![0]),
            vec![],
            vec![],
        ))
        .unwrap();
    let r = StreamMaterialize::create(
        &mut arena,
        input,
        "mv".to_string(),
        RequiredDist::Any,
        Order::any(),
        all_visible(3),
        names(&["x", "x", "y"]),
        "create materialized view mv".to_string(),
        TableType::MaterializedView,
        Cardinality::unknown(),
    );
    assert_eq!(
        r.err().unwrap(),
        MaterializeError::Planning(PlanningErrorKind::DuplicateColumnName)
    );
}

/// Columns outside the visible selection become hidden and keep their field
/// names; visible columns take the caller's output names in order.
#[test]
fn hidden_columns_follow_the_visible_selection() {
    let mut arena = PlanArena::new();
    let input = arena
        .add_node(node(
            NodeKind::Other,
            abc_fields(),
            Some(vec![0]),
            Distribution::HashShard(vec![0]),
            vec![FunctionalDependency::new(vec![0], vec![1, 2])],
            vec![],
        ))
        .unwrap();
    let mut visible = FixedBitSet::with_capacity(3);
    visible.insert(0);
    visible.insert(2);
    let m = StreamMaterialize::create(
        &mut arena,
        input,
        "mv".to_string(),
        RequiredDist::Any,
        Order::any(),
        visible,
        names(&["first", "second"]),
        "create materialized view mv".to_string(),
        TableType::MaterializedView,
        Cardinality::unknown(),
    )
    .unwrap();
    let cols = &m.table().columns;
    assert_eq!(cols.len(), 3);
    assert_eq!(cols[0].name, "first");
    assert!(!cols[0].is_hidden);
    assert_eq!(cols[1].name, "b");
    assert!(cols[1].is_hidden);
    assert_eq!(cols[2].name, "second");
    assert!(!cols[2].is_hidden);
}

/// A single-worker input forces a single distribution, whatever the caller
/// declared: the table ends with an empty distribution key.
#[test]
fn single_input_forces_single_distribution() {
    let mut arena = PlanArena::new();
    let input = arena
        .add_node(node(
            NodeKind::Other,
            abc_fields(),
            Some(vec![0]),
            Distribution::Single,
            vec![FunctionalDependency::new(vec![0], vec![1, 2])],
            vec![],
        ))
        .unwrap();
    let before = arena.len();
    let m = StreamMaterialize::create(
        &mut arena,
        input,
        "mv".to_string(),
        RequiredDist::Any,
        Order::any(),
        all_visible(3),
        names(&["a", "b", "c"]),
        "create materialized view mv".to_string(),
        TableType::MaterializedView,
        Cardinality::unknown(),
    )
    .unwrap();
    assert_eq!(arena.len(), before);
    assert_eq!(m.input(), input);
    assert!(m.table().distribution_key.is_empty());
}

/// An index is distributed exactly by the caller's resolved hash-shard
/// request, inserting an exchange when the input differs.
#[test]
fn index_uses_the_resolved_hash_shard() {
    let mut arena = PlanArena::new();
    let input = arena
        .add_node(node(
            NodeKind::Other,
            abc_fields(),
            Some(vec![1]),
            Distribution::HashShard(vec![0]),
            vec![FunctionalDependency::new(vec![1], vec![0, 2])],
            vec![],
        ))
        .unwrap();
    let before = arena.len();
    let m = StreamMaterialize::create(
        &mut arena,
        input,
        "idx".to_string(),
        RequiredDist::HashShard(vec![1]),
        Order::new(vec![ColumnOrder::new(1, OrderDirection::Ascending)]),
        all_visible(3),
        names(&["a", "b", "c"]),
        "create index idx".to_string(),
        TableType::Index,
        Cardinality::unknown(),
    )
    .unwrap();
    assert_eq!(arena.len(), before + 1);
    assert_eq!(m.table().distribution_key, vec![1]);
    assert_eq!(m.table().table_type, TableType::Index);
}

/// Invalid explicit key columns are defects: empty, repeated, or outside
/// the schema.
#[test]
fn invalid_explicit_keys_are_defects() {
    let columns = || {
        vec![
            ColumnCatalog { name: "a".to_string(), data_type: DataType::Int64, is_hidden: false },
            ColumnCatalog { name: "b".to_string(), data_type: DataType::Int32, is_hidden: false },
            ColumnCatalog { name: "c".to_string(), data_type: DataType::Varchar, is_hidden: false },
        ]
    };
    for (keys, expected) in [
        (vec![], MaterializeError::Defect(DefectKind::InvalidExplicitKey)),
        (vec![1, 1], MaterializeError::Defect(DefectKind::InvalidExplicitKey)),
        (vec![7], MaterializeError::Defect(DefectKind::ColumnIndexOutOfRange)),
    ] {
        let mut arena = PlanArena::new();
        let input = arena
            .add_node(node(
                NodeKind::Other,
                abc_fields(),
                Some(vec![0]),
                Distribution::HashShard(vec![1]),
                vec![],
                vec![],
            ))
            .unwrap();
        let r = StreamMaterialize::create_for_table(
            &mut arena,
            input,
            "t".to_string(),
            RequiredDist::ShardByKey(vec![1]),
            Order::any(),
            columns(),
            "create table t".to_string(),
            ConflictBehavior::NoCheck,
            keys,
            None,
            None,
        );
        assert_eq!(r.err().unwrap(), expected);
    }
}

/// A malformed plan node is rejected by the arena.
#[test]
fn malformed_node_is_rejected() {
    let mut arena = PlanArena::new();
    // Stream key outside the schema.
    let r = arena.add_node(node(
        NodeKind::Other,
        abc_fields(),
        Some(vec![9]),
        Distribution::Single,
        vec![],
        vec![],
    ));
    assert_eq!(
        r.err().unwrap(),
        MaterializeError::Defect(DefectKind::MalformedPlanNode)
    );
    // A functional dependency with an empty determinant.
    let r2 = arena.add_node(node(
        NodeKind::Other,
        abc_fields(),
        Some(vec![0]),
        Distribution::Single,
        vec![FunctionalDependency::new(vec![], vec![1])],
        vec![],
    ));
    assert_eq!(
        r2.err().unwrap(),
        MaterializeError::Defect(DefectKind::MalformedPlanNode)
    );
}

/// The `Internal` table kind never reaches the resolver legitimately.
#[test]
fn internal_table_kind_is_a_defect() {
    let mut arena = PlanArena::new();
    let input = arena
        .add_node(node(
            NodeKind::Other,
            abc_fields(),
            Some(vec![0]),
            Distribution::HashShard(vec![0]),
            vec![],
            vec![],
        ))
        .unwrap();
    let r = StreamMaterialize::rewrite_input(
        &mut arena,
        input,
        RequiredDist::Any,
        TableType::Internal,
    );
    assert_eq!(
        r.err().unwrap(),
        MaterializeError::Defect(DefectKind::InternalTableKind)
    );
}

/// A wrong number of output names for the visible columns is a defect of
/// the calling stage.
#[test]
fn wrong_output_name_count_is_a_defect() {
    let mut arena = PlanArena::new();
    let input = arena
        .add_node(node(
            NodeKind::Other,
            abc_fields(),
            Some(vec![0]),
            Distribution::HashShard(vec![0]),
            vec![FunctionalDependency::new(vec![0], vec![1, 2])],
            vec![],
        ))
        .unwrap();
    let r = StreamMaterialize::create(
        &mut arena,
        input,
        "mv".to_string(),
        RequiredDist::Any,
        Order::any(),
        all_visible(3),
        names(&["x", "y"]),
        "create materialized view mv".to_string(),
        TableType::MaterializedView,
        Cardinality::unknown(),
    );
    assert_eq!(
        r.err().unwrap(),
        MaterializeError::Defect(DefectKind::ColumnCountMismatch)
    );
}

/// An ordering column outside the schema is a defect of the calling stage.
#[test]
fn out_of_range_ordering_column_is_a_defect() {
    let mut arena = PlanArena::new();
    let input = arena
        .add_node(node(
            NodeKind::Other,
            abc_fields(),
            Some(vec![0]),
            Distribution::HashShard(vec![0]),
            vec![FunctionalDependency::new(vec![0], vec![1, 2])],
            vec![],
        ))
        .unwrap();
    let r = StreamMaterialize::create(
        &mut arena,
        input,
        "mv".to_string(),
        RequiredDist::Any,
        Order::new(vec![ColumnOrder::new(9, OrderDirection::Ascending)]),
        all_visible(3),
        names(&["a", "b", "c"]),
        "create materialized view mv".to_string(),
        TableType::MaterializedView,
        Cardinality::unknown(),
    );
    assert_eq!(
        r.err().unwrap(),
        MaterializeError::Defect(DefectKind::ColumnIndexOutOfRange)
    );
}
