//! The plan tree as an arena of immutable nodes addressed by stable indices.
//!
//! Sharing a subtree is explicit (an index may be referenced by several
//! parents) and cycles are structurally impossible: a node's children only
//! ever point to earlier-constructed nodes. Each node carries an explicit
//! capability record instead of an open-ended trait hierarchy, and exposes
//! the metadata the materialization stage consumes: schema, current
//! distribution, stream key, functional dependencies, append-only and
//! emit-on-window-close flags, and watermark columns.

use vstd::prelude::*;

use crate::error::{DefectKind, MaterializeError};
use crate::fd::{fds_view, fds_wf, FunctionalDependency};
use crate::types::{
    check_distinct, check_in_range, copy_fields, copy_indices, indices_distinct, indices_in_range,
    satisfies, spec_dist_columns, spec_required_to_dist, spec_satisfies, Distribution, Field,
    FieldView, RequiredDist,
};

verus! {

/// Variant tag of a plan node. The materialization stage only tells joins,
/// redistribution stages and everything else apart.
#[derive(Clone, Copy, Debug, PartialEq, Eq, Structural)]
pub enum NodeKind {
    StreamHashJoin,
    StreamTemporalJoin,
    StreamDeltaJoin,
    StreamExchange,
    Other,
}

/// Whether the node is a stream join (hash, temporal or delta).
pub open spec fn spec_is_stream_join(k: NodeKind) -> bool {
    k == NodeKind::StreamHashJoin || k == NodeKind::StreamTemporalJoin || k
        == NodeKind::StreamDeltaJoin
}

/// Checks whether the node kind is a stream join.
pub fn is_stream_join(k: NodeKind) -> (r: bool)
    ensures
        r == spec_is_stream_join(k),
{
    k == NodeKind::StreamHashJoin || k == NodeKind::StreamTemporalJoin || k
        == NodeKind::StreamDeltaJoin
}

/// The capabilities a node declares: dispatch is by this explicit record,
/// not by open-ended dynamic dispatch.
#[derive(Clone, Copy, Debug, PartialEq, Eq, Structural)]
pub struct NodeCaps {
    pub schema_provider: bool,
    pub distribution_aware: bool,
    pub rewrite_children: bool,
    pub visit_expressions: bool,
    pub emit_physical: bool,
}

impl NodeCaps {
    /// The capabilities of an ordinary stream operator.
    pub fn stream_default() -> (r: Self)
        ensures
            r.schema_provider,
            r.distribution_aware,
    {
        NodeCaps {
            schema_provider: true,
            distribution_aware: true,
            rewrite_children: true,
            visit_expressions: false,
            emit_physical: true,
        }
    }
}

/// One immutable plan node: a dataflow stage's metadata as the
/// materialization planner consumes it.
#[derive(Clone, Debug)]
pub struct PlanNodeData {
    pub kind: NodeKind,
    pub caps: NodeCaps,
    pub fields: Vec<Field>,
    pub stream_key: Option<Vec<usize>>,
    pub distribution: Distribution,
    pub append_only: bool,
    pub emit_on_window_close: bool,
    pub watermark_columns: Vec<usize>,
    pub functional_dependencies: Vec<FunctionalDependency>,
    pub children: Vec<usize>,
}

/// The schema a node exposes, as a mathematical value.
pub open spec fn schema_of(n: PlanNodeData) -> Seq<FieldView> {
    n.fields@.map_values(|f: Field| f@)
}

/// The stream key a node exposes, as a mathematical value.
pub open spec fn stream_key_of(n: PlanNodeData) -> Option<Seq<usize>> {
    match n.stream_key {
        Some(v) => Some(v@),
        None => None,
    }
}

/// Whether two nodes expose the same observable metadata apart from their
/// distribution: schema, stream key, flags, watermark columns and
/// functional dependencies.
pub open spec fn same_plan_meta(a: PlanNodeData, b: PlanNodeData) -> bool {
    &&& schema_of(b) == schema_of(a)
    &&& stream_key_of(b) == stream_key_of(a)
    &&& b.append_only == a.append_only
    &&& b.emit_on_window_close == a.emit_on_window_close
    &&& b.watermark_columns@ == a.watermark_columns@
    &&& fds_view(b.functional_dependencies@) == fds_view(a.functional_dependencies@)
}

impl PlanNodeData {
    /// Internal consistency of one node: every column index it mentions
    /// lies inside its own schema, index lists are duplicate-free, and
    /// every functional dependency has a non-empty determinant.
    pub open spec fn wf(self) -> bool {
        let n = self.fields@.len() as nat;
        &&& match self.stream_key {
            Some(sk) => indices_in_range(sk@, n) && indices_distinct(sk@),
            None => true,
        }
        &&& indices_in_range(spec_dist_columns(self.distribution), n)
        &&& indices_distinct(spec_dist_columns(self.distribution))
        &&& indices_in_range(self.watermark_columns@, n)
        &&& indices_distinct(self.watermark_columns@)
        &&& fds_wf(fds_view(self.functional_dependencies@), n)
    }
}

/// Whether every child index points strictly below `bound`.
pub open spec fn children_below(s: Seq<usize>, bound: int) -> bool {
    forall|i: int| 0 <= i < s.len() ==> (#[trigger] s[i]) < bound
}

/// An arena of plan nodes. Nodes are never mutated after construction;
/// rewrites only append.
pub struct PlanArena {
    pub nodes: Vec<PlanNodeData>,
}

impl PlanArena {
    /// Every node is well formed and only points at earlier nodes.
    pub open spec fn wf(self) -> bool {
        forall|i: int|
            0 <= i < self.nodes@.len() ==> (#[trigger] self.nodes@[i]).wf() && children_below(
                self.nodes@[i].children@,
                i,
            )
    }

    pub fn new() -> (r: Self)
        ensures
            r.wf(),
            r.nodes@.len() == 0,
    {
        PlanArena { nodes: Vec::new() }
    }

    pub fn len(&self) -> (r: usize)
        ensures
            r == self.nodes@.len(),
    {
        self.nodes.len()
    }

    /// The node at the given index.
    pub fn node(&self, id: usize) -> (r: &PlanNodeData)
        requires
            id < self.nodes@.len(),
        ensures
            *r == self.nodes@[id as int],
    {
        &self.nodes[id]
    }

    /// Appends a node after checking that it is well formed and points only
    /// at existing nodes; a malformed node is a defect of the caller.
    pub fn add_node(&mut self, node: PlanNodeData) -> (r: Result<usize, MaterializeError>)
        requires
            old(self).wf(),
        ensures
            final(self).wf(),
            match r {
                Ok(id) => {
                    &&& final(self).nodes@ == old(self).nodes@.push(node)
                    &&& id == old(self).nodes@.len()
                    &&& node.wf()
                },
                Err(e) => {
                    &&& *final(self) == *old(self)
                    &&& e == MaterializeError::Defect(DefectKind::MalformedPlanNode)
                    &&& !(node.wf() && children_below(node.children@, old(self).nodes@.len() as int))
                },
            },
    {
        if !check_node(&node, self.nodes.len()) {
            return Err(MaterializeError::Defect(DefectKind::MalformedPlanNode));
        }
        let id = self.nodes.len();
        self.nodes.push(node);
        assert forall|i: int|
            0 <= i < self.nodes@.len() implies (#[trigger] self.nodes@[i]).wf() && children_below(
            self.nodes@[i].children@,
            i,
        ) by {
            if i < id {
                assert(old(self).nodes@[i].wf());
            }
        }
        Ok(id)
    }
}

/// Checks a node's internal consistency and that its children lie below
/// `bound`.
#[verifier::loop_isolation(false)]
fn check_node(node: &PlanNodeData, bound: usize) -> (r: bool)
    ensures
        r == (node.wf() && children_below(node.children@, bound as int)),
{
    let n = node.fields.len();
    let sk_ok = match &node.stream_key {
        Some(sk) => check_in_range(sk, n) && check_distinct(sk),
        None => true,
    };
    if !sk_ok {
        return false;
    }
    let dist_ok = match &node.distribution {
        Distribution::Single => true,
        Distribution::HashShard(cols) => check_in_range(cols, n) && check_distinct(cols),
    };
    if !dist_ok {
        return false;
    }
    if !(check_in_range(&node.watermark_columns, n) && check_distinct(&node.watermark_columns)) {
        return false;
    }
    let mut i: usize = 0;
    while i < node.functional_dependencies.len()
        invariant
            i <= node.functional_dependencies@.len(),
            forall|k: int|
                0 <= k < i ==> (#[trigger] fds_view(node.functional_dependencies@)[k]).wf(
                    n as nat,
                ),
        decreases node.functional_dependencies@.len() - i,
    {
        let fd = &node.functional_dependencies[i];
        if fd.from.len() == 0 || !check_in_range(&fd.from, n) || !check_in_range(&fd.to, n) {
            assert(!fds_view(node.functional_dependencies@)[i as int].wf(n as nat));
            return false;
        }
        assert(fds_view(node.functional_dependencies@)[i as int].wf(n as nat));
        i += 1;
    }
    let mut c: usize = 0;
    while c < node.children.len()
        invariant
            c <= node.children@.len(),
            forall|k: int| 0 <= k < c ==> (#[trigger] node.children@[k]) < bound,
        decreases node.children@.len() - c,
    {
        if node.children[c] >= bound {
            return false;
        }
        c += 1;
    }
    true
}

/// Copies an optional stream key.
pub fn copy_stream_key(sk: &Option<Vec<usize>>) -> (r: Option<Vec<usize>>)
    ensures
        match (sk, &r) {
            (Some(a), Some(b)) => a@ == b@,
            (None, None) => true,
            _ => false,
        },
{
    match sk {
        Some(v) => Some(copy_indices(v)),
        None => None,
    }
}

/// Copies a dependency list, preserving its mathematical value.
pub fn copy_fds(v: &Vec<FunctionalDependency>) -> (r: Vec<FunctionalDependency>)
    ensures
        fds_view(r@) == fds_view(v@),
{
    let mut out: Vec<FunctionalDependency> = Vec::new();
    let mut i: usize = 0;
    while i < v.len()
        invariant
            i <= v@.len(),
            out@.len() == i,
            forall|k: int| 0 <= k < i ==> (#[trigger] out@[k])@ == v@[k]@,
        decreases v@.len() - i,
    {
        let fd = FunctionalDependency {
            from: copy_indices(&v[i].from),
            to: copy_indices(&v[i].to),
        };
        out.push(fd);
        i += 1;
    }
    assert(fds_view(out@) =~= fds_view(v@));
    out
}

/// Whether a requirement can be bound against a schema of `n` columns: its
/// columns lie in range and are duplicate-free, and a shard-by-key request
/// names at least one column.
pub open spec fn req_wf(r: RequiredDist, n: nat) -> bool {
    match r {
        RequiredDist::Any => true,
        RequiredDist::Single => true,
        RequiredDist::ShardByKey(key) => indices_in_range(key@, n) && indices_distinct(key@)
            && key@.len() > 0,
        RequiredDist::HashShard(cols) => indices_in_range(cols@, n) && indices_distinct(cols@),
    }
}

/// Checks `req_wf` for a requirement against a schema of `n` columns.
pub fn check_req(r: &RequiredDist, n: usize) -> (b: bool)
    ensures
        b == req_wf(*r, n as nat),
{
    match r {
        RequiredDist::Any => true,
        RequiredDist::Single => true,
        RequiredDist::ShardByKey(key) => check_in_range(key, n) && check_distinct(key)
            && key.len() > 0,
        RequiredDist::HashShard(cols) => check_in_range(cols, n) && check_distinct(cols),
    }
}

/// Inserts a redistribution stage below `input`, bound to the required
/// distribution. The new stage preserves the node's schema, stream key,
/// flags, watermark columns and functional dependencies; only the
/// distribution changes. Row order is never required for redistribution.
#[verifier::loop_isolation(false)]
fn enforce(arena: &mut PlanArena, input: usize, required: &RequiredDist) -> (r: usize)
    requires
        old(arena).wf(),
        input < old(arena).nodes@.len(),
        !(*required is Any),
        req_wf(*required, old(arena).nodes@[input as int].fields@.len() as nat),
    ensures
        final(arena).wf(),
        final(arena).nodes@.len() == old(arena).nodes@.len() + 1,
        forall|i: int|
            0 <= i < old(arena).nodes@.len() ==> final(arena).nodes@[i] == old(arena).nodes@[i],
        r == old(arena).nodes@.len(),
        same_plan_meta(old(arena).nodes@[input as int], final(arena).nodes@[r as int]),
        final(arena).nodes@[r as int].kind == NodeKind::StreamExchange,
        final(arena).nodes@[r as int].children@ =~= seq![input],
        spec_satisfies(final(arena).nodes@[r as int].distribution, *required),
        spec_dist_columns(final(arena).nodes@[r as int].distribution) == spec_dist_columns(
            spec_required_to_dist(*required),
        ),
        (final(arena).nodes@[r as int].distribution is Single) == (spec_required_to_dist(
            *required,
        ) is Single),
    {
    let base = self_node(arena, input);
    let dist = match required {
        RequiredDist::Any => Distribution::Single,
        RequiredDist::Single => Distribution::Single,
        RequiredDist::ShardByKey(key) => Distribution::HashShard(copy_indices(key)),
        RequiredDist::HashShard(cols) => Distribution::HashShard(copy_indices(cols)),
    };
    proof {
        match required {
            RequiredDist::ShardByKey(key) => {
                assert forall|i: int|
                    0 <= i < spec_dist_columns(dist).len() implies key@.contains(
                    #[trigger] spec_dist_columns(dist)[i],
                ) by {
                    assert(spec_dist_columns(dist)[i] == key@[i]);
                }
            },
            _ => {},
        }
    }
    let node = PlanNodeData {
        kind: NodeKind::StreamExchange,
        caps: NodeCaps::stream_default(),
        fields: base.0,
        stream_key: base.1,
        distribution: dist,
        append_only: base.2,
        emit_on_window_close: base.3,
        watermark_columns: base.4,
        functional_dependencies: base.5,
        children: vec_of_one(input),
    };
    let id = arena.nodes.len();
    proof {
        let oldn = old(arena).nodes@[input as int];
        assert(oldn.wf());
        assert(schema_of(node) == schema_of(oldn));
        assert(node.fields@.len() == oldn.fields@.len()) by {
            assert(schema_of(node).len() == node.fields@.len());
            assert(schema_of(oldn).len() == oldn.fields@.len());
        }
        match &node.stream_key {
            Some(sk) => {
                match oldn.stream_key {
                    Some(osk) => {
                        assert(sk@ == osk@);
                    },
                    None => {
                        assert(false);
                    },
                }
            },
            None => {},
        }
    }
    assert(node.wf());
    assert(children_below(node.children@, id as int));
    arena.nodes.push(node);
    assert forall|i: int|
        0 <= i < arena.nodes@.len() implies (#[trigger] arena.nodes@[i]).wf() && children_below(
        arena.nodes@[i].children@,
        i,
    ) by {
        if i < id {
            assert(old(arena).nodes@[i].wf());
        }
    }
    id
}

/// Copies the metadata of the node at `input`, for building a stage that
/// passes it through: schema, stream key, append-only flag,
/// emit-on-window-close flag, watermark columns, functional dependencies.
fn self_node(arena: &PlanArena, input: usize) -> (r: (
    Vec<Field>,
    Option<Vec<usize>>,
    bool,
    bool,
    Vec<usize>,
    Vec<FunctionalDependency>,
))
    requires
        input < arena.nodes@.len(),
    ensures
        r.0@.map_values(|f: Field| f@) == schema_of(arena.nodes@[input as int]),
        (match (r.1, arena.nodes@[input as int].stream_key) {
            (Some(a), Some(b)) => a@ == b@,
            (None, None) => true,
            _ => false,
        }),
        r.2 == arena.nodes@[input as int].append_only,
        r.3 == arena.nodes@[input as int].emit_on_window_close,
        r.4@ == arena.nodes@[input as int].watermark_columns@,
        fds_view(r.5@) == fds_view(arena.nodes@[input as int].functional_dependencies@),
{
    let node = &arena.nodes[input];
    let fields = copy_fields(&node.fields);
    proof {
        assert(fields@.map_values(|f: Field| f@) =~= schema_of(arena.nodes@[input as int]));
    }
    (
        fields,
        copy_stream_key(&node.stream_key),
        node.append_only,
        node.emit_on_window_close,
        copy_indices(&node.watermark_columns),
        copy_fds(&node.functional_dependencies),
    )
}

/// A one-element child list.
fn vec_of_one(x: usize) -> (r: Vec<usize>)
    ensures
        r@ =~= seq![x],
{
    let mut v: Vec<usize> = Vec::new();
    v.push(x);
    v
}

/// Rewrites `input` to satisfy the required distribution: returns it
/// unchanged when its current distribution already satisfies the
/// requirement (enforcement is idempotent), and otherwise appends one
/// redistribution stage bound to the requirement.
pub fn enforce_if_not_satisfies(arena: &mut PlanArena, input: usize, required: &RequiredDist) -> (r:
    usize)
    requires
        old(arena).wf(),
        input < old(arena).nodes@.len(),
        req_wf(*required, old(arena).nodes@[input as int].fields@.len() as nat),
    ensures
        final(arena).wf(),
        final(arena).nodes@.len() <= old(arena).nodes@.len() + 1,
        forall|i: int|
            0 <= i < old(arena).nodes@.len() ==> final(arena).nodes@[i] == old(arena).nodes@[i],
        r < final(arena).nodes@.len(),
        spec_satisfies(old(arena).nodes@[input as int].distribution, *required) ==> r == input
            && *final(arena) == *old(arena),
        !spec_satisfies(old(arena).nodes@[input as int].distribution, *required) ==> {
            &&& r == old(arena).nodes@.len()
            &&& final(arena).nodes@.len() == old(arena).nodes@.len() + 1
            &&& final(arena).nodes@[r as int].kind == NodeKind::StreamExchange
            &&& final(arena).nodes@[r as int].children@ =~= seq![input]
            &&& spec_dist_columns(final(arena).nodes@[r as int].distribution)
                == spec_dist_columns(spec_required_to_dist(*required))
            &&& (final(arena).nodes@[r as int].distribution is Single) == (
            spec_required_to_dist(*required) is Single)
        },
        same_plan_meta(old(arena).nodes@[input as int], final(arena).nodes@[r as int]),
        spec_satisfies(final(arena).nodes@[r as int].distribution, *required),
{
    let node_dist_satisfies = {
        let node = &arena.nodes[input];
        satisfies(&node.distribution, required)
    };
    if node_dist_satisfies {
        return input;
    }
    enforce(arena, input, required)
}

} // verus!
