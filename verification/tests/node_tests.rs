use fixedbitset::FixedBitSet;

use stream_materialize::catalog::{ConflictBehavior, TableType, PLACEHOLDER_TABLE_ID};
use stream_materialize::error::{DefectKind, MaterializeError};
use stream_materialize::fd::FunctionalDependency;
use stream_materialize::materialize::StreamMaterialize;
use stream_materialize::plan::{NodeCaps, NodeKind, PlanArena, PlanNodeData};
use stream_materialize::types::{
    Cardinality, ColumnOrder, DataType, Distribution, Field, Order, OrderDirection, RequiredDist,
};

fn field(name: &str, data_type: DataType) -> Field {
    Field { name: name.to_string(), data_type }
}

fn all_visible(n: usize) -> FixedBitSet {
    let mut b = FixedBitSet::with_capacity(n);
    for i in 0..n {
        b.insert(i);
    }
    b
}

fn two_col_node(kind: NodeKind, watermark: Vec<usize>) -> PlanNodeData {
    PlanNodeData {
        kind,
        caps: NodeCaps::stream_default(),
        fields: vec![field("k", DataType::Int64), field("v", DataType::Varchar)],
        stream_key: Some(vec![0]),
        distribution: Distribution::HashShard(vec![0]),
        append_only: true,
        emit_on_window_close: false,
        watermark_columns: watermark,
        functional_dependencies: vec![FunctionalDependency::new(vec![0], vec![1])],
        children: Vec::new(),
    }
}

fn mv(arena: &mut PlanArena, input: usize, watermark: bool) -> StreamMaterialize {
    StreamMaterialize::create(
        arena,
        input,
        "mv".to_string(),
        RequiredDist::Any,
        Order::new(vec![ColumnOrder::new(0, OrderDirection::Ascending)]),
        all_visible(2),
        vec!["key".to_string(), "val".to_string()],
        "create materialized view mv".to_string(),
        TableType::MaterializedView,
        Cardinality::unknown(),
    )
    .unwrap_or_else(|e| panic!("create failed: {:?} (watermark {})", e, watermark))
}

/// The wrapping node passes its input's metadata through and exposes the
/// table's stream key.
#[test]
fn node_metadata_passes_through() {
    let mut arena = PlanArena::new();
    let input = arena.add_node(two_col_node(NodeKind::Other, vec![0])).unwrap();
    let m = mv(&mut arena, input, true);
    assert!(m.base.append_only);
    assert!(!m.base.emit_on_window_close);
    assert_eq!(m.base.watermark_columns, vec![0]);
    assert_eq!(m.base.stream_key, m.table().stream_key);
    assert_eq!(m.base.fields.len(), 2);
    assert_eq!(m.name(), "mv");
    assert_eq!(m.table().id, PLACEHOLDER_TABLE_ID);
}

/// Substituting the child with a plan node of equal field types preserves
/// the node's own schema field types and stream key exactly, even when the
/// new child's field names differ.
#[test]
fn child_substitution_preserves_schema_and_stream_key() {
    let mut arena = PlanArena::new();
    let input = arena.add_node(two_col_node(NodeKind::Other, vec![])).unwrap();
    let m = mv(&mut arena, input, false);
    let renamed = PlanNodeData {
        fields: vec![field("k2", DataType::Int64), field("v2", DataType::Varchar)],
        ..two_col_node(NodeKind::Other, vec![])
    };
    let other = arena.add_node(renamed).unwrap();
    let m2 = m.clone_with_input(&arena, other).unwrap();
    assert_eq!(m2.input(), other);
    assert_eq!(m2.base.stream_key, m.base.stream_key);
    for (a, b) in m2.base.fields.iter().zip(m.base.fields.iter()) {
        assert_eq!(a.data_type, b.data_type);
    }
    assert_eq!(m2.table().pk, m.table().pk);
    assert_eq!(m2.table().stream_key, m.table().stream_key);
    assert_eq!(m2.table().name, m.table().name);
}

/// Substituting a child that changes a column's data type is a defect.
#[test]
fn child_substitution_with_changed_type_is_a_defect() {
    let mut arena = PlanArena::new();
    let input = arena.add_node(two_col_node(NodeKind::Other, vec![])).unwrap();
    let m = mv(&mut arena, input, false);
    let changed = PlanNodeData {
        fields: vec![field("k", DataType::Int32), field("v", DataType::Varchar)],
        ..two_col_node(NodeKind::Other, vec![])
    };
    let other = arena.add_node(changed).unwrap();
    let r = m.clone_with_input(&arena, other);
    assert_eq!(
        r.err().unwrap(),
        MaterializeError::Defect(DefectKind::SchemaMismatch)
    );
}

/// The explain attribute list names columns (hidden ones marked), stream
/// key, primary key, conflict behavior, and watermark columns only when
/// some exist.
#[test]
fn distill_lists_the_attributes() {
    let mut arena = PlanArena::new();
    let input = arena.add_node(two_col_node(NodeKind::Other, vec![0])).unwrap();
    let m = StreamMaterialize::create(
        &mut arena,
        input,
        "mv".to_string(),
        RequiredDist::Any,
        Order::new(vec![ColumnOrder::new(0, OrderDirection::Ascending)]),
        {
            let mut b = FixedBitSet::with_capacity(2);
            b.insert(1);
            b
        },
        vec!["val".to_string()],
        "create materialized view mv".to_string(),
        TableType::MaterializedView,
        Cardinality::unknown(),
    )
    .unwrap();
    let attrs = m.distill();
    assert_eq!(attrs.len(), 5);
    assert_eq!(attrs[0].key, "columns");
    assert_eq!(attrs[0].values, vec!["k(hidden)".to_string(), "val".to_string()]);
    assert_eq!(attrs[1].key, "stream_key");
    assert_eq!(attrs[1].values, vec!["k".to_string()]);
    assert_eq!(attrs[2].key, "pk_columns");
    assert_eq!(attrs[2].values, vec!["k".to_string()]);
    assert_eq!(attrs[3].key, "pk_conflict");
    assert_eq!(attrs[3].values, vec!["NoCheck".to_string()]);
    assert_eq!(attrs[4].key, "watermark_columns");
    assert_eq!(attrs[4].values, vec!["k(hidden)".to_string()]);
}

/// Without watermark columns the explain listing has four attributes.
#[test]
fn distill_omits_empty_watermarks() {
    let mut arena = PlanArena::new();
    let input = arena.add_node(two_col_node(NodeKind::Other, vec![])).unwrap();
    let m = mv(&mut arena, input, false);
    let attrs = m.distill();
    assert_eq!(attrs.len(), 4);
    assert_eq!(attrs[3].key, "pk_conflict");
}

/// The physical operator record carries a zero table id (assigned later by
/// the catalog service), the primary key as column orders, and the full
/// descriptor.
#[test]
fn physical_record_carries_key_and_descriptor() {
    let mut arena = PlanArena::new();
    let input = arena.add_node(two_col_node(NodeKind::Other, vec![])).unwrap();
    let m = mv(&mut arena, input, false);
    let body = m.to_stream_prost_body();
    assert_eq!(body.table_id, 0);
    assert_eq!(body.column_orders, m.table().pk);
    assert_eq!(body.table.name, m.table().name);
    assert_eq!(body.table.stream_key, m.table().stream_key);
    assert_eq!(body.table.conflict_behavior, ConflictBehavior::NoCheck);
}

/// Conflict behaviors flow unchanged into the descriptor and its explain
/// label.
#[test]
fn conflict_behavior_flows_through() {
    for (cb, label) in [
        (ConflictBehavior::Overwrite, "Overwrite"),
        (ConflictBehavior::IgnoreConflict, "IgnoreConflict"),
        (ConflictBehavior::DoUpdateIfNotNull, "DoUpdateIfNotNull"),
    ] {
        let mut arena = PlanArena::new();
        let input = arena.add_node(two_col_node(NodeKind::Other, vec![])).unwrap();
        let columns = vec![
            stream_materialize::catalog::ColumnCatalog {
                name: "k".to_string(),
                data_type: DataType::Int64,
                is_hidden: false,
            },
            stream_materialize::catalog::ColumnCatalog {
                name: "v".to_string(),
                data_type: DataType::Varchar,
                is_hidden: false,
            },
        ];
        let m = StreamMaterialize::create_for_table(
            &mut arena,
            input,
            "t".to_string(),
            RequiredDist::ShardByKey(vec![0]),
            Order::any(),
            columns,
            "create table t".to_string(),
            cb,
            vec![0],
            None,
            None,
        )
        .unwrap();
        assert_eq!(m.table().conflict_behavior, cb);
        let attrs = m.distill();
        assert_eq!(attrs[3].values, vec![label.to_string()]);
    }
}
