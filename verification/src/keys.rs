//! The column deriver and the key deriver.
//!
//! `derive_columns` turns the input schema, the caller's output names and
//! the visible-column selection into the table's column list.
//!
//! `derive_pk` produces the table's (primary key, stream key) on the
//! derived-key path: it keeps the requested ordering as the head of the
//! primary key, extends it with the input's stream-key columns one by one
//! until the accumulated column set functionally determines every column of
//! the row, and minimizes that set into the stream key.

use vstd::prelude::*;

use fixedbitset::FixedBitSet;

use crate::bitset::{bit_contains, fixed_bits};
use crate::error::{DefectKind, MaterializeError, PlanningErrorKind};
use crate::fd::{
    bit_set, determines_all, determines_all_columns, empty_bits, fds_view, index_set,
    lemma_index_set_push, mark, minimize_unique_key, FdView,
};
use crate::catalog::ColumnCatalog;
use crate::plan::{stream_key_of, PlanNodeData};
use crate::types::{
    asc, indices_distinct, indices_in_range, key_columns, ColumnOrder, Field, Order,
    OrderDirection,
};

verus! {

/// How many columns below `i` are visible (selected in `bits`).
pub open spec fn visible_below(bits: Set<usize>, i: int) -> nat
    decreases i,
{
    if i <= 0 {
        0
    } else {
        visible_below(bits, i - 1) + (if bits.contains((i - 1) as usize) {
            1nat
        } else {
            0nat
        })
    }
}

proof fn lemma_visible_below_monotone(bits: Set<usize>, i: int, j: int)
    requires
        0 <= i <= j,
    ensures
        visible_below(bits, i) <= visible_below(bits, j),
    decreases j,
{
    if i < j {
        lemma_visible_below_monotone(bits, i, j - 1);
    }
}

/// Whether some output name occurs twice.
pub open spec fn has_duplicate_names(names: Seq<String>) -> bool {
    exists|p: int, q: int| 0 <= p < q < names.len() && names[p]@ == names[q]@
}

/// Checks the output names for duplicates.
#[verifier::loop_isolation(false)]
fn check_duplicate_names(names: &Vec<String>) -> (r: bool)
    ensures
        r == has_duplicate_names(names@),
{
    let mut q: usize = 0;
    while q < names.len()
        invariant
            q <= names@.len(),
            forall|a: int, b: int| 0 <= a < b < q ==> names@[a]@ != names@[b]@,
        decreases names@.len() - q,
    {
        let mut p: usize = 0;
        while p < q
            invariant
                p <= q < names@.len(),
                forall|a: int| 0 <= a < p ==> names@[a]@ != names@[q as int]@,
            decreases q - p,
        {
            if names[p] == names[q] {
                assert(names@[p as int]@ == names@[q as int]@);
                return true;
            }
            p += 1;
        }
        q += 1;
    }
    false
}

/// Derives the table's column list from the input schema: every input field
/// becomes a column, visible columns (selected in `user_cols`) take the
/// caller's output names in order, hidden columns keep their field name.
/// A repeated output name is a user-facing planning error; a wrong number of
/// output names is a defect of the calling stage.
#[verifier::loop_isolation(false)]
pub fn derive_columns(fields: &Vec<Field>, out_names: Vec<String>, user_cols: &FixedBitSet) -> (r:
    Result<Vec<ColumnCatalog>, MaterializeError>)
    ensures
        ({
            let bits = fixed_bits(*user_cols);
            match r {
                Ok(cols) => {
                    &&& !has_duplicate_names(out_names@)
                    &&& visible_below(bits, fields@.len() as int) == out_names@.len()
                    &&& cols@.len() == fields@.len()
                    &&& forall|i: int|
                        0 <= i < cols@.len() ==> (#[trigger] cols@[i]).is_hidden == !bits.contains(
                            i as usize,
                        )
                    &&& forall|i: int|
                        0 <= i < cols@.len() ==> (#[trigger] cols@[i]).data_type
                            == fields@[i].data_type
                    &&& forall|i: int|
                        0 <= i < cols@.len() && bits.contains(i as usize) ==> (
                        #[trigger] cols@[i]).name@ == out_names@[visible_below(bits, i) as int]@
                    &&& forall|i: int|
                        0 <= i < cols@.len() && !bits.contains(i as usize) ==> (
                        #[trigger] cols@[i]).name@ == fields@[i].name@
                },
                Err(e) => {
                    &&& (e == MaterializeError::Planning(PlanningErrorKind::DuplicateColumnName))
                        <==> has_duplicate_names(out_names@)
                    &&& (e == MaterializeError::Defect(DefectKind::ColumnCountMismatch)) <==> (
                    !has_duplicate_names(out_names@) && visible_below(bits, fields@.len() as int)
                        != out_names@.len())
                    &&& (e == MaterializeError::Planning(PlanningErrorKind::DuplicateColumnName)
                        || e == MaterializeError::Defect(DefectKind::ColumnCountMismatch))
                },
            }
        }),
{
    let ghost bits = fixed_bits(*user_cols);
    if check_duplicate_names(&out_names) {
        return Err(MaterializeError::Planning(PlanningErrorKind::DuplicateColumnName));
    }
    let mut cols: Vec<ColumnCatalog> = Vec::new();
    let mut next_name: usize = 0;
    let mut i: usize = 0;
    while i < fields.len()
        invariant
            i <= fields@.len(),
            cols@.len() == i,
            next_name == visible_below(bits, i as int),
            next_name <= out_names@.len(),
            forall|k: int|
                0 <= k < i ==> (#[trigger] cols@[k]).is_hidden == !bits.contains(k as usize),
            forall|k: int|
                0 <= k < i ==> (#[trigger] cols@[k]).data_type == fields@[k].data_type,
            forall|k: int|
                0 <= k < i && bits.contains(k as usize) ==> (#[trigger] cols@[k]).name@
                    == out_names@[visible_below(bits, k) as int]@,
            forall|k: int|
                0 <= k < i && !bits.contains(k as usize) ==> (#[trigger] cols@[k]).name@
                    == fields@[k].name@,
        decreases fields@.len() - i,
    {
        let visible = bit_contains(user_cols, i);
        if visible {
            if next_name >= out_names.len() {
                proof {
                    lemma_visible_below_monotone(bits, i + 1 as int, fields@.len() as int);
                }
                return Err(MaterializeError::Defect(DefectKind::ColumnCountMismatch));
            }
            let c = ColumnCatalog {
                name: out_names[next_name].clone(),
                data_type: fields[i].data_type,
                is_hidden: false,
            };
            cols.push(c);
            next_name += 1;
        } else {
            let c = ColumnCatalog {
                name: fields[i].name.clone(),
                data_type: fields[i].data_type,
                is_hidden: true,
            };
            cols.push(c);
        }
        i += 1;
    }
    if next_name != out_names.len() {
        return Err(MaterializeError::Defect(DefectKind::ColumnCountMismatch));
    }
    Ok(cols)
}

/// Membership in a list's index set is membership in the list.
pub proof fn lemma_index_set_is_contains(s: Seq<usize>)
    ensures
        forall|c: usize| index_set(s).contains(c) <==> s.contains(c),
{
    assert forall|c: usize| index_set(s).contains(c) implies s.contains(c) by {
        let i = choose|i: int| 0 <= i < s.len() && (#[trigger] s[i]) == c;
        assert(0 <= i < s.len() && s[i] == c);
    }
    assert forall|c: usize| s.contains(c) implies index_set(s).contains(c) by {
        let i = choose|i: int| 0 <= i < s.len() && s[i] == c;
        assert(0 <= i < s.len() && (#[trigger] s[i]) == c);
    }
}

/// The requested ordering with repeated columns dropped: the first
/// occurrence of each column is kept, in order.
pub open spec fn dedup_orders(s: Seq<ColumnOrder>) -> Seq<ColumnOrder>
    decreases s.len(),
{
    if s.len() == 0 {
        Seq::empty()
    } else {
        let prefix = dedup_orders(s.drop_last());
        if key_columns(prefix).contains(s.last().column_index) {
            prefix
        } else {
            prefix.push(s.last())
        }
    }
}

/// The deduplicated ordering has duplicate-free columns, and mentions
/// exactly the columns of the original ordering.
pub proof fn lemma_dedup_orders(s: Seq<ColumnOrder>)
    ensures
        indices_distinct(key_columns(dedup_orders(s))),
        forall|c: usize|
            key_columns(dedup_orders(s)).contains(c) <==> key_columns(s).contains(c),
        dedup_orders(s).len() <= s.len(),
    decreases s.len(),
{
    if s.len() > 0 {
        lemma_dedup_orders(s.drop_last());
        let prefix = dedup_orders(s.drop_last());
        assert forall|c: usize|
            key_columns(s).contains(c) <==> (key_columns(s.drop_last()).contains(c) || s.last().column_index
                == c) by {
            if key_columns(s).contains(c) {
                let i = choose|i: int|
                    0 <= i < key_columns(s).len() && key_columns(s)[i] == c;
                if i < s.len() - 1 {
                    assert(key_columns(s.drop_last())[i] == c);
                }
            }
            if key_columns(s.drop_last()).contains(c) {
                let i = choose|i: int|
                    0 <= i < key_columns(s.drop_last()).len() && key_columns(s.drop_last())[i]
                        == c;
                assert(key_columns(s)[i] == c);
            }
            if s.last().column_index == c {
                assert(key_columns(s)[s.len() - 1] == c);
            }
        }
        if !key_columns(prefix).contains(s.last().column_index) {
            let d = prefix.push(s.last());
            assert forall|c: usize|
                key_columns(d).contains(c) <==> (key_columns(prefix).contains(c) || s.last().column_index
                    == c) by {
                if key_columns(d).contains(c) {
                    let i = choose|i: int|
                        0 <= i < key_columns(d).len() && key_columns(d)[i] == c;
                    if i < prefix.len() {
                        assert(key_columns(prefix)[i] == c);
                    }
                }
                if key_columns(prefix).contains(c) {
                    let i = choose|i: int|
                        0 <= i < key_columns(prefix).len() && key_columns(prefix)[i] == c;
                    assert(key_columns(d)[i] == c);
                }
                if s.last().column_index == c {
                    assert(key_columns(d)[prefix.len() as int] == c);
                }
            }
            assert forall|a: int, b: int|
                0 <= a < b < key_columns(d).len() implies key_columns(d)[a] != key_columns(
                d,
            )[b] by {
                if b < prefix.len() {
                    assert(key_columns(prefix)[a] == key_columns(d)[a]);
                    assert(key_columns(prefix)[b] == key_columns(d)[b]);
                } else {
                    assert(key_columns(d)[b] == s.last().column_index);
                    assert(key_columns(prefix)[a] == key_columns(d)[a]);
                    assert(key_columns(prefix).contains(key_columns(prefix)[a]));
                }
            }
        }
    }
}

/// Checks whether an ordered key already mentions a column.
fn contains_order_col(v: &Vec<ColumnOrder>, col: usize) -> (r: bool)
    ensures
        r == key_columns(v@).contains(col),
{
    let mut i: usize = 0;
    while i < v.len()
        invariant
            i <= v@.len(),
            forall|k: int| 0 <= k < i ==> key_columns(v@)[k] != col,
        decreases v@.len() - i,
    {
        if v[i].column_index == col {
            assert(key_columns(v@)[i as int] == col);
            return true;
        }
        assert(key_columns(v@)[i as int] == v@[i as int].column_index);
        i += 1;
    }
    false
}

/// Drops repeated columns from the requested ordering, keeping first
/// occurrences in order.
#[verifier::loop_isolation(false)]
fn dedup_order_exec(ob: &Vec<ColumnOrder>) -> (r: Vec<ColumnOrder>)
    ensures
        r@ == dedup_orders(ob@),
{
    let mut out: Vec<ColumnOrder> = Vec::new();
    let mut i: usize = 0;
    while i < ob.len()
        invariant
            i <= ob@.len(),
            out@ == dedup_orders(ob@.subrange(0, i as int)),
        decreases ob@.len() - i,
    {
        proof {
            assert(ob@.subrange(0, i + 1 as int).drop_last() =~= ob@.subrange(0, i as int));
            assert(ob@.subrange(0, i + 1 as int).last() == ob@[i as int]);
        }
        if !contains_order_col(&out, ob[i].column_index) {
            out.push(ob[i]);
        }
        i += 1;
    }
    assert(ob@.subrange(0, ob@.len() as int) =~= ob@);
    out
}

/// The columns appended to the requested ordering until the accumulated
/// set is unique-determining: the input's stream-key columns are walked in
/// order, already-accumulated ones are skipped, and the walk stops as soon
/// as the accumulated set determines every column (or the stream key is
/// exhausted).
pub open spec fn extend_until_unique(
    acc: Set<usize>,
    skin: Seq<usize>,
    fds: Seq<FdView>,
    n: nat,
) -> Seq<usize>
    decreases skin.len(),
{
    if determines_all(acc, fds, n) || skin.len() == 0 {
        Seq::empty()
    } else {
        let c = skin[0];
        if acc.contains(c) {
            extend_until_unique(acc, skin.drop_first(), fds, n)
        } else {
            seq![c] + extend_until_unique(acc.insert(c), skin.drop_first(), fds, n)
        }
    }
}

/// Whether the derived-key path succeeds: the input exposes a stream key,
/// the ordering's columns together with the stream-key columns determine
/// every column, and the derived primary key is non-empty.
pub open spec fn key_derivable(
    obs: Seq<ColumnOrder>,
    skin: Seq<usize>,
    fds: Seq<FdView>,
    n: nat,
) -> bool {
    &&& determines_all(index_set(key_columns(obs)).union(index_set(skin)), fds, n)
    &&& !(obs.len() == 0 && determines_all(Set::<usize>::empty(), fds, n))
}

/// Everything `derive_pk` promises of a derived (primary key, stream key)
/// pair: the primary key is non-empty and duplicate-free over the schema,
/// starts with the deduplicated requested ordering and continues with
/// ascending stream-key columns, exactly the ones `extend_until_unique`
/// walks; the stream key is a non-empty, inclusion-minimal
/// unique-determining subset of the primary key's columns.
pub open spec fn derived_keys_ok(
    n: nat,
    fds: Seq<FdView>,
    skin: Seq<usize>,
    obs: Seq<ColumnOrder>,
    pk: Seq<ColumnOrder>,
    sk: Seq<usize>,
) -> bool {
    &&& pk.len() > 0
    &&& indices_in_range(key_columns(pk), n)
    &&& indices_distinct(key_columns(pk))
    &&& pk =~= dedup_orders(obs) + extend_until_unique(
        index_set(key_columns(obs)),
        skin,
        fds,
        n,
    ).map_values(|c: usize| asc(c))
    &&& sk.len() > 0
    &&& indices_in_range(sk, n)
    &&& indices_distinct(sk)
    &&& index_set(sk).subset_of(index_set(key_columns(pk)))
    &&& determines_all(index_set(sk), fds, n)
    &&& forall|x: usize|
        index_set(sk).contains(x) ==> !determines_all(index_set(sk).remove(x), fds, n)
}

/// Derives (primary key, stream key) for a materialized view or index over
/// the given input node, from the requested ordering and the input's
/// functional dependencies. An ordering column outside the schema is a
/// defect of the calling stage; an input without a determinable row
/// identity is a user-facing planning failure, never an empty silent
/// result.
#[verifier::loop_isolation(false)]
pub fn derive_pk(node: &PlanNodeData, user_order_by: &Order) -> (r: Result<
    (Vec<ColumnOrder>, Vec<usize>),
    MaterializeError,
>)
    requires
        node.wf(),
    ensures
        ({
            let n = node.fields@.len() as nat;
            let fds = fds_view(node.functional_dependencies@);
            let obs = user_order_by.column_orders@;
            &&& (r == Result::<(Vec<ColumnOrder>, Vec<usize>), MaterializeError>::Err(
                MaterializeError::Defect(DefectKind::ColumnIndexOutOfRange),
            )) <==> !indices_in_range(key_columns(obs), n)
            &&& indices_in_range(key_columns(obs), n) ==> match stream_key_of(*node) {
                Some(skin) => {
                    &&& (r is Ok) <==> key_derivable(obs, skin, fds, n)
                    &&& (r matches Ok(keys) ==> derived_keys_ok(n, fds, skin, obs, keys.0@, keys.1@))
                    &&& (!key_derivable(obs, skin, fds, n) ==> r == Result::<
                        (Vec<ColumnOrder>, Vec<usize>),
                        MaterializeError,
                    >::Err(MaterializeError::Planning(PlanningErrorKind::NoUniqueKey)))
                },
                None => r == Result::<(Vec<ColumnOrder>, Vec<usize>), MaterializeError>::Err(
                    MaterializeError::Planning(PlanningErrorKind::NoUniqueKey),
                ),
            }
        }),
{
    let ghost n_spec = node.fields@.len() as nat;
    let ghost fds_spec = fds_view(node.functional_dependencies@);
    let ghost obs = user_order_by.column_orders@;
    let n = node.fields.len();
    let fds = &node.functional_dependencies;

    // Reject ordering columns outside the schema: a defect upstream.
    let mut i: usize = 0;
    while i < user_order_by.column_orders.len()
        invariant
            i <= obs.len(),
            forall|k: int| 0 <= k < i ==> key_columns(obs)[k] < n,
        decreases obs.len() - i,
    {
        if user_order_by.column_orders[i].column_index >= n {
            assert(key_columns(obs)[i as int] >= n);
            return Err(MaterializeError::Defect(DefectKind::ColumnIndexOutOfRange));
        }
        assert(key_columns(obs)[i as int] == obs[i as int].column_index);
        i += 1;
    }
    assert(indices_in_range(key_columns(obs), n_spec));

    let skin_vec = match &node.stream_key {
        Some(sk) => sk,
        None => {
            return Err(MaterializeError::Planning(PlanningErrorKind::NoUniqueKey));
        },
    };
    let ghost skin = skin_vec@;
    proof {
        assert(stream_key_of(*node) == Some(skin));
        assert(indices_in_range(skin, n_spec));
    }

    // The head of the primary key: the requested ordering, deduplicated.
    let mut pk = dedup_order_exec(&user_order_by.column_orders);
    proof {
        lemma_dedup_orders(obs);
        lemma_index_set_is_contains(key_columns(dedup_orders(obs)));
        lemma_index_set_is_contains(key_columns(obs));
        assert forall|q: int|
            0 <= q < key_columns(dedup_orders(obs)).len() implies (#[trigger] key_columns(
            dedup_orders(obs),
        )[q]) < n_spec by {
            let c = key_columns(dedup_orders(obs))[q];
            assert(key_columns(dedup_orders(obs)).contains(c));
            assert(key_columns(obs).contains(c));
            let w = choose|w: int| 0 <= w < key_columns(obs).len() && key_columns(obs)[w] == c;
        }
        assert(indices_in_range(key_columns(pk@), n_spec));
    }

    // Mark the accumulated columns.
    let mut acc_bits = empty_bits(n);
    let mut j: usize = 0;
    while j < pk.len()
        invariant
            acc_bits@.len() == n,
            j <= pk@.len(),
            pk@ == dedup_orders(obs),
            bit_set(acc_bits@) =~= index_set(key_columns(pk@.subrange(0, j as int))),
        decreases pk@.len() - j,
    {
        let ghost before = bit_set(acc_bits@);
        proof {
            assert(key_columns(pk@)[j as int] == pk@[j as int].column_index);
            assert(key_columns(pk@)[j as int] < n_spec);
        }
        mark(&mut acc_bits, pk[j].column_index);
        proof {
            assert(key_columns(pk@.subrange(0, j + 1 as int)) =~= key_columns(
                pk@.subrange(0, j as int),
            ).push(pk@[j as int].column_index));
            lemma_index_set_push(
                key_columns(pk@.subrange(0, j as int)),
                pk@[j as int].column_index,
            );
        }
        j += 1;
    }
    proof {
        assert(pk@.subrange(0, pk@.len() as int) =~= pk@);
        assert(bit_set(acc_bits@) =~= index_set(key_columns(dedup_orders(obs))));
        assert forall|c: usize|
            bit_set(acc_bits@).contains(c) <==> index_set(key_columns(obs)).contains(c) by {
            assert(index_set(key_columns(dedup_orders(obs))).contains(c) <==> key_columns(
                dedup_orders(obs),
            ).contains(c));
            assert(key_columns(dedup_orders(obs)).contains(c) <==> key_columns(obs).contains(c));
            assert(key_columns(obs).contains(c) <==> index_set(key_columns(obs)).contains(c));
        }
        assert(bit_set(acc_bits@) =~= index_set(key_columns(obs)));
    }

    // Extend with stream-key columns until the accumulated set determines
    // every column of the row.
    let ghost full_ext = extend_until_unique(index_set(key_columns(obs)), skin, fds_spec, n_spec);
    let mut done = determines_all_columns(&acc_bits, fds);
    let mut k: usize = 0;
    proof {
        assert(skin.subrange(0, skin.len() as int) =~= skin);
        assert(pk@.subrange(dedup_orders(obs).len() as int, pk@.len() as int) =~= Seq::<
            ColumnOrder,
        >::empty());
        assert(key_columns(Seq::<ColumnOrder>::empty()) =~= Seq::<usize>::empty());
        assert(full_ext =~= key_columns(
            pk@.subrange(dedup_orders(obs).len() as int, pk@.len() as int),
        ) + extend_until_unique(bit_set(acc_bits@), skin.subrange(0, skin.len() as int), fds_spec, n_spec));
    }
    while !done && k < skin_vec.len()
        invariant
            acc_bits@.len() == n,
            k <= skin.len(),
            pk@.len() >= dedup_orders(obs).len(),
            pk@.subrange(0, dedup_orders(obs).len() as int) =~= dedup_orders(obs),
            done == determines_all(bit_set(acc_bits@), fds_spec, n_spec),
            bit_set(acc_bits@) =~= index_set(key_columns(pk@)),
            index_set(key_columns(obs)).subset_of(bit_set(acc_bits@)),
            forall|q: int| 0 <= q < k ==> bit_set(acc_bits@).contains(#[trigger] skin[q]),
            indices_in_range(key_columns(pk@), n_spec),
            indices_distinct(key_columns(pk@)),
            forall|q: int|
                dedup_orders(obs).len() <= q < pk@.len() ==> (#[trigger] pk@[q]).direction
                    == OrderDirection::Ascending,
            dedup_orders(obs) + pk@.subrange(dedup_orders(obs).len() as int, pk@.len() as int)
                =~= pk@,
            full_ext =~= key_columns(
                pk@.subrange(dedup_orders(obs).len() as int, pk@.len() as int),
            ) + extend_until_unique(bit_set(acc_bits@), skin.subrange(k as int, skin.len() as int), fds_spec, n_spec),
        decreases skin.len() - k,
    {
        proof {
            assert(skin.subrange(k as int, skin.len() as int).len() > 0);
            assert(skin.subrange(k as int, skin.len() as int)[0] == skin[k as int]);
            assert(skin.subrange(k as int, skin.len() as int).drop_first() =~= skin.subrange(
                k + 1 as int,
                skin.len() as int,
            ));
        }
        let c = skin_vec[k];
        let ghost rest = skin.subrange(k as int, skin.len() as int);
        let ghost rest_next = skin.subrange(k + 1 as int, skin.len() as int);
        let ghost tail_old = pk@.subrange(dedup_orders(obs).len() as int, pk@.len() as int);
        let ghost acc_old = bit_set(acc_bits@);
        let already = all_marked_one(&acc_bits, c);
        if already {
            proof {
                assert(extend_until_unique(acc_old, rest, fds_spec, n_spec)
                    == extend_until_unique(acc_old, rest.drop_first(), fds_spec, n_spec));
                assert(rest.drop_first() =~= rest_next);
            }
        }
        if !already {
            let ghost pk_before = pk@;
            let ghost acc_before = bit_set(acc_bits@);
            mark(&mut acc_bits, c);
            pk.push(ColumnOrder { column_index: c, direction: OrderDirection::Ascending });
            proof {
                assert(key_columns(pk@) =~= key_columns(pk_before).push(c));
                lemma_index_set_push(key_columns(pk_before), c);
                assert(bit_set(acc_bits@) =~= index_set(key_columns(pk@)));
                assert(pk@.subrange(0, dedup_orders(obs).len() as int) =~= pk_before.subrange(
                    0,
                    dedup_orders(obs).len() as int,
                ));
                assert forall|a: int, b: int|
                    0 <= a < b < key_columns(pk@).len() implies key_columns(pk@)[a]
                    != key_columns(pk@)[b] by {
                    if b == key_columns(pk@).len() - 1 {
                        assert(key_columns(pk@)[b] == c);
                        assert(!acc_before.contains(c));
                        assert(key_columns(pk_before)[a] == key_columns(pk@)[a]);
                        assert(index_set(key_columns(pk_before)).contains(
                            key_columns(pk_before)[a],
                        ));
                    } else {
                        assert(key_columns(pk_before)[a] == key_columns(pk@)[a]);
                        assert(key_columns(pk_before)[b] == key_columns(pk@)[b]);
                    }
                }
                assert(dedup_orders(obs) + pk@.subrange(
                    dedup_orders(obs).len() as int,
                    pk@.len() as int,
                ) =~= pk@);
                assert(key_columns(
                    pk@.subrange(dedup_orders(obs).len() as int, pk@.len() as int),
                ) =~= key_columns(
                    pk_before.subrange(dedup_orders(obs).len() as int, pk_before.len() as int),
                ).push(c));
                // One step of the extension walk: the appended column plus
                // the rest of the walk on the grown set.
                assert(extend_until_unique(acc_old, rest, fds_spec, n_spec) == seq![c]
                    + extend_until_unique(acc_old.insert(c), rest.drop_first(), fds_spec, n_spec));
                assert(rest.drop_first() =~= rest_next);
                assert(bit_set(acc_bits@) == acc_old.insert(c));
                let ext_next = extend_until_unique(bit_set(acc_bits@), rest_next, fds_spec, n_spec);
                assert(key_columns(tail_old) + (seq![c] + ext_next) =~= key_columns(
                    tail_old,
                ).push(c) + ext_next);
                assert(full_ext =~= key_columns(
                    pk@.subrange(dedup_orders(obs).len() as int, pk@.len() as int),
                ) + ext_next);
            }
            done = determines_all_columns(&acc_bits, fds);
        }
        k += 1;
    }

    if !done {
        proof {
            assert(skin.subrange(skin.len() as int, skin.len() as int).len() == 0);
            assert(full_ext =~= key_columns(
                pk@.subrange(dedup_orders(obs).len() as int, pk@.len() as int),
            ));
            // Everything of the ordering and the stream key is accumulated.
            assert forall|c: usize| index_set(key_columns(obs)).union(index_set(skin)).contains(
                c,
            ) implies bit_set(acc_bits@).contains(c) by {
                if !index_set(key_columns(obs)).contains(c) {
                    let q = choose|q: int| 0 <= q < skin.len() && (#[trigger] skin[q]) == c;
                    assert(bit_set(acc_bits@).contains(skin[q]));
                }
            }
            if determines_all(index_set(key_columns(obs)).union(index_set(skin)), fds_spec, n_spec) {
                crate::fd::lemma_determines_monotone(
                    index_set(key_columns(obs)).union(index_set(skin)),
                    bit_set(acc_bits@),
                    fds_spec,
                    n_spec,
                );
            }
        }
        return Err(MaterializeError::Planning(PlanningErrorKind::NoUniqueKey));
    }

    if pk.len() == 0 {
        proof {
            assert(dedup_orders(obs).len() == 0);
            assert(obs.len() == 0) by {
                if obs.len() > 0 {
                    assert(key_columns(obs).contains(obs[0].column_index)) by {
                        assert(key_columns(obs)[0] == obs[0].column_index);
                    }
                    assert(key_columns(dedup_orders(obs)).contains(obs[0].column_index));
                }
            }
            assert(bit_set(acc_bits@) =~= Set::<usize>::empty());
        }
        return Err(MaterializeError::Planning(PlanningErrorKind::NoUniqueKey));
    }

    // Minimize the accumulated set into the stream key.
    let acc_cols = key_cols_exec(&pk);
    proof {
        assert(index_set(acc_cols@) =~= bit_set(acc_bits@));
    }
    let sk = minimize_unique_key(&acc_cols, fds, n);

    proof {
        // The walk consumed the extension exactly: once `done` holds, the
        // remaining extension is empty.
        assert(extend_until_unique(
            bit_set(acc_bits@),
            skin.subrange(k as int, skin.len() as int),
            fds_spec,
            n_spec,
        ) =~= Seq::<usize>::empty());
        assert(full_ext =~= key_columns(
            pk@.subrange(dedup_orders(obs).len() as int, pk@.len() as int),
        ));
        assert(pk@ =~= dedup_orders(obs) + full_ext.map_values(|c: usize| asc(c))) by {
            let tail = pk@.subrange(dedup_orders(obs).len() as int, pk@.len() as int);
            assert(key_columns(tail) =~= full_ext);
            assert forall|q: int| 0 <= q < tail.len() implies tail[q] == asc(full_ext[q]) by {
                assert(tail[q].direction == OrderDirection::Ascending);
                assert(key_columns(tail)[q] == tail[q].column_index);
            }
            assert(tail =~= full_ext.map_values(|c: usize| asc(c)));
        }
        assert(!(obs.len() == 0 && determines_all(Set::<usize>::empty(), fds_spec, n_spec)))
            by {
            if obs.len() == 0 && determines_all(Set::<usize>::empty(), fds_spec, n_spec) {
                assert(index_set(key_columns(obs)) =~= Set::<usize>::empty());
                assert(extend_until_unique(index_set(key_columns(obs)), skin, fds_spec, n_spec)
                    =~= Seq::<usize>::empty());
                assert(pk@.len() == 0);
            }
        }
        // Success is owed exactly when the combined column set determines
        // the row.
        assert(bit_set(acc_bits@).subset_of(index_set(key_columns(obs)).union(index_set(skin))))
            by {
            assert forall|c: usize| bit_set(acc_bits@).contains(c) implies index_set(
                key_columns(obs),
            ).union(index_set(skin)).contains(c) by {
                assert(index_set(key_columns(pk@)).contains(c));
                let q = choose|q: int|
                    0 <= q < key_columns(pk@).len() && (#[trigger] key_columns(pk@)[q]) == c;
                if q < dedup_orders(obs).len() {
                    assert(key_columns(dedup_orders(obs))[q] == c);
                    assert(key_columns(dedup_orders(obs)).contains(c));
                    assert(key_columns(obs).contains(c));
                    let w = choose|w: int|
                        0 <= w < key_columns(obs).len() && (#[trigger] key_columns(obs)[w]) == c;
                    assert(index_set(key_columns(obs)).contains(c));
                } else {
                    assert(key_columns(
                        pk@.subrange(dedup_orders(obs).len() as int, pk@.len() as int),
                    )[q - dedup_orders(obs).len()] == c);
                    assert(full_ext.contains(c));
                    lemma_extension_from_skin(
                        index_set(key_columns(obs)),
                        skin,
                        fds_spec,
                        n_spec,
                    );
                    assert(index_set(skin).contains(c));
                }
            }
        }
        crate::fd::lemma_determines_monotone(
            bit_set(acc_bits@),
            index_set(key_columns(obs)).union(index_set(skin)),
            fds_spec,
            n_spec,
        );
    }
    proof {
        assert(key_columns(pk@)[0] < n_spec);
        assert(n > 0);
    }
    Ok((pk, sk))
}

/// Every column the extension walk appends comes from the stream key.
proof fn lemma_extension_from_skin(acc: Set<usize>, skin: Seq<usize>, fds: Seq<FdView>, n: nat)
    ensures
        forall|c: usize|
            extend_until_unique(acc, skin, fds, n).contains(c) ==> index_set(skin).contains(c),
    decreases skin.len(),
{
    if !(determines_all(acc, fds, n) || skin.len() == 0) {
        let c0 = skin[0];
        lemma_extension_from_skin(acc, skin.drop_first(), fds, n);
        lemma_extension_from_skin(acc.insert(c0), skin.drop_first(), fds, n);
        assert forall|c: usize| extend_until_unique(acc, skin, fds, n).contains(
            c,
        ) implies index_set(skin).contains(c) by {
            if index_set(skin.drop_first()).contains(c) {
                let q = choose|q: int|
                    0 <= q < skin.drop_first().len() && (#[trigger] skin.drop_first()[q]) == c;
                assert(skin[q + 1] == c);
                assert(index_set(skin).contains(c));
            }
            if acc.contains(c0) {
                assert(extend_until_unique(acc, skin.drop_first(), fds, n).contains(c));
                if index_set(skin.drop_first()).contains(c) {
                } else {
                    assert(false);
                }
            } else {
                let ext = seq![c0] + extend_until_unique(acc.insert(c0), skin.drop_first(), fds, n);
                let q = choose|q: int| 0 <= q < ext.len() && ext[q] == c;
                if q == 0 {
                    assert(c == c0);
                    assert(skin[0] == c);
                    assert(index_set(skin).contains(c));
                } else {
                    assert(extend_until_unique(acc.insert(c0), skin.drop_first(), fds, n)[q - 1]
                        == c);
                    assert(extend_until_unique(acc.insert(c0), skin.drop_first(), fds, n).contains(
                        c,
                    ));
                }
            }
        }
    }
}

/// Whether one column is already accumulated.
fn all_marked_one(bits: &Vec<bool>, c: usize) -> (r: bool)
    requires
        c < bits@.len(),
    ensures
        r == bit_set(bits@).contains(c),
{
    bits[c]
}

/// The column indices of an ordered key, as a list.
fn key_cols_exec(pk: &Vec<ColumnOrder>) -> (r: Vec<usize>)
    ensures
        r@ == key_columns(pk@),
{
    let mut out: Vec<usize> = Vec::new();
    let mut i: usize = 0;
    while i < pk.len()
        invariant
            i <= pk@.len(),
            out@.len() == i,
            forall|k: int| 0 <= k < i ==> (#[trigger] out@[k]) == key_columns(pk@)[k],
        decreases pk@.len() - i,
    {
        out.push(pk[i].column_index);
        i += 1;
    }
    assert(out@ =~= key_columns(pk@));
    out
}

} // verus!
