//! Functional dependencies and their closure.
//!
//! A functional dependency states that the determinant columns jointly
//! determine the dependent columns for every row. The closure of a column
//! set is everything it determines; a set is unique-determining when its
//! closure covers every column of the row. The key deriver uses the closure
//! to test candidate keys and to minimize the stream key.

use vstd::prelude::*;

use crate::types::{indices_distinct, indices_in_range};

verus! {

/// One functional dependency: the `from` columns jointly determine the `to`
/// columns. A well-formed dependency has a non-empty determinant.
#[derive(Clone, Debug)]
pub struct FunctionalDependency {
    pub from: Vec<usize>,
    pub to: Vec<usize>,
}

/// Mathematical value of a functional dependency.
#[verifier::ext_equal]
pub struct FdView {
    pub from: Seq<usize>,
    pub to: Seq<usize>,
}

impl View for FunctionalDependency {
    type V = FdView;

    open spec fn view(&self) -> FdView {
        FdView { from: self.from@, to: self.to@ }
    }
}

impl FdView {
    pub open spec fn wf(self, n: nat) -> bool {
        &&& self.from.len() > 0
        &&& indices_in_range(self.from, n)
        &&& indices_in_range(self.to, n)
    }
}

/// The mathematical value of a dependency list.
pub open spec fn fds_view(fds: Seq<FunctionalDependency>) -> Seq<FdView> {
    fds.map_values(|fd: FunctionalDependency| fd@)
}

impl FunctionalDependency {
    pub fn new(from: Vec<usize>, to: Vec<usize>) -> (r: Self)
        ensures
            r.from@ == from@,
            r.to@ == to@,
    {
        FunctionalDependency { from, to }
    }
}

/// Whether every dependency speaks only of columns below `n` and has a
/// non-empty determinant.
pub open spec fn fds_wf(fds: Seq<FdView>, n: nat) -> bool {
    forall|i: int| 0 <= i < fds.len() ==> (#[trigger] fds[i]).wf(n)
}

/// The set of column indices whose bit is set.
pub open spec fn bit_set(b: Seq<bool>) -> Set<usize> {
    Set::new(|c: usize| c < b.len() && b[c as int])
}

/// The set of column indices occurring in a list.
pub open spec fn index_set(s: Seq<usize>) -> Set<usize> {
    Set::new(|c: usize| exists|i: int| 0 <= i < s.len() && (#[trigger] s[i]) == c)
}

/// Whether every determinant column of `fd` lies in `s`.
pub open spec fn fd_applies(fd: FdView, s: Set<usize>) -> bool {
    forall|k: int| 0 <= k < fd.from.len() ==> s.contains(#[trigger] fd.from[k])
}

/// One closure step restricted to the first `j` dependencies: `s` plus the
/// dependent columns of each applicable one among them.
pub open spec fn fd_step_upto(s: Set<usize>, fds: Seq<FdView>, j: int) -> Set<
    usize,
> {
    Set::new(
        |c: usize|
            s.contains(c) || exists|i: int|
                0 <= i < j && fd_applies(#[trigger] fds[i], s) && fds[i].to.contains(c),
    )
}

/// One full closure step: `s` plus the dependents of every applicable
/// dependency.
pub open spec fn fd_step(s: Set<usize>, fds: Seq<FdView>) -> Set<usize> {
    fd_step_upto(s, fds, fds.len() as int)
}

/// `k` closure steps from `s`.
pub open spec fn closure_upto(s: Set<usize>, fds: Seq<FdView>, k: nat) -> Set<usize>
    decreases k,
{
    if k == 0 {
        s
    } else {
        fd_step(closure_upto(s, fds, (k - 1) as nat), fds)
    }
}

/// The functional-dependency closure of `s` over the columns `0..n`.
/// `n` steps suffice: every productive step adds at least one of the `n`
/// columns, so the fixed point is reached within `n` steps.
pub open spec fn closure(s: Set<usize>, fds: Seq<FdView>, n: nat) -> Set<usize> {
    closure_upto(s, fds, n)
}

/// `s` functionally determines every column of a row with `n` columns:
/// `s` is unique-determining.
pub open spec fn determines_all(s: Set<usize>, fds: Seq<FdView>, n: nat) -> bool {
    forall|c: usize| c < n ==> closure(s, fds, n).contains(c)
}

/// A closure step is monotone in its starting set.
pub proof fn lemma_step_monotone(s1: Set<usize>, s2: Set<usize>, fds: Seq<FdView>)
    requires
        s1.subset_of(s2),
    ensures
        fd_step(s1, fds).subset_of(fd_step(s2, fds)),
{
    assert forall|c: usize| fd_step(s1, fds).contains(c) implies fd_step(s2, fds).contains(c) by {
        if s1.contains(c) {
            assert(s2.contains(c));
        } else {
            let i = choose|i: int|
                0 <= i < fds.len() && fd_applies(#[trigger] fds[i], s1) && fds[i].to.contains(c);
            assert(fd_applies(fds[i], s2));
        }
    }
}

/// The closure is monotone in its starting set.
pub proof fn lemma_closure_monotone(
    s1: Set<usize>,
    s2: Set<usize>,
    fds: Seq<FdView>,
    k: nat,
)
    requires
        s1.subset_of(s2),
    ensures
        closure_upto(s1, fds, k).subset_of(closure_upto(s2, fds, k)),
    decreases k,
{
    if k > 0 {
        lemma_closure_monotone(s1, s2, fds, (k - 1) as nat);
        lemma_step_monotone(closure_upto(s1, fds, (k - 1) as nat), closure_upto(s2, fds, (k - 1) as nat), fds);
    }
}

/// A superset of a unique-determining set is unique-determining.
pub proof fn lemma_determines_monotone(
    s1: Set<usize>,
    s2: Set<usize>,
    fds: Seq<FdView>,
    n: nat,
)
    requires
        s1.subset_of(s2),
        determines_all(s1, fds, n),
    ensures
        determines_all(s2, fds, n),
{
    lemma_closure_monotone(s1, s2, fds, n);
    assert forall|c: usize| c < n implies closure(s2, fds, n).contains(c) by {
        assert(closure(s1, fds, n).contains(c));
    }
}

/// With well-formed dependencies the empty set determines nothing: every
/// determinant is non-empty, so no dependency ever applies to it.
pub proof fn lemma_empty_not_determining(fds: Seq<FdView>, n: nat)
    requires
        n > 0,
        fds_wf(fds, n),
    ensures
        !determines_all(Set::<usize>::empty(), fds, n),
{
    lemma_empty_closure(fds, n, n);
    assert(!closure(Set::<usize>::empty(), fds, n).contains(0usize));
}

proof fn lemma_empty_closure(fds: Seq<FdView>, n: nat, k: nat)
    requires
        fds_wf(fds, n),
    ensures
        closure_upto(Set::<usize>::empty(), fds, k) =~= Set::<usize>::empty(),
    decreases k,
{
    if k > 0 {
        lemma_empty_closure(fds, n, (k - 1) as nat);
        let prev = closure_upto(Set::<usize>::empty(), fds, (k - 1) as nat);
        assert forall|c: usize| fd_step(prev, fds).contains(c) implies false by {
            let i = choose|i: int|
                0 <= i < fds.len() && fd_applies(#[trigger] fds[i], prev) && fds[i].to.contains(
                    c,
                );
            assert(fds[i].wf(n));
            assert(prev.contains(fds[i].from[0]));
        }
    }
}

/// Appending one index to a list inserts it into the list's index set.
pub proof fn lemma_index_set_push(s: Seq<usize>, x: usize)
    ensures
        index_set(s.push(x)) =~= index_set(s).insert(x),
{
    assert forall|c: usize| index_set(s.push(x)).contains(c) implies index_set(s).insert(
        x,
    ).contains(c) by {
        let i = choose|i: int| 0 <= i < s.push(x).len() && (#[trigger] s.push(x)[i]) == c;
        if i < s.len() {
            assert(s[i] == c);
        } else {
            assert(c == x);
        }
    }
    assert forall|c: usize| index_set(s).insert(x).contains(c) implies index_set(
        s.push(x),
    ).contains(c) by {
        if c == x {
            assert(s.push(x)[s.len() as int] == c);
        } else {
            let i = choose|i: int| 0 <= i < s.len() && (#[trigger] s[i]) == c;
            assert(s.push(x)[i] == c);
        }
    }
}

/// Extending a closure step by one dependency adds exactly that dependency's
/// dependents when it applies, and nothing otherwise.
proof fn lemma_step_upto_succ(s: Set<usize>, fds: Seq<FdView>, j: int)
    requires
        0 <= j < fds.len(),
    ensures
        fd_applies(fds[j], s) ==> fd_step_upto(s, fds, j + 1) =~= fd_step_upto(s, fds, j).union(
            index_set(fds[j].to),
        ),
        !fd_applies(fds[j], s) ==> fd_step_upto(s, fds, j + 1) =~= fd_step_upto(s, fds, j),
{
    if fd_applies(fds[j], s) {
        assert forall|c: usize| fd_step_upto(s, fds, j + 1).contains(c) implies fd_step_upto(
            s,
            fds,
            j,
        ).union(index_set(fds[j].to)).contains(c) by {
            if !s.contains(c) {
                let i = choose|i: int|
                    0 <= i < j + 1 && fd_applies(#[trigger] fds[i], s) && fds[i].to.contains(c);
                if i < j {
                    assert(fd_step_upto(s, fds, j).contains(c));
                } else {
                    let k = choose|k: int| 0 <= k < fds[j].to.len() && fds[j].to[k] == c;
                    assert(index_set(fds[j].to).contains(c));
                }
            }
        }
        assert forall|c: usize| fd_step_upto(s, fds, j).union(index_set(fds[j].to)).contains(
            c,
        ) implies fd_step_upto(s, fds, j + 1).contains(c) by {
            if fd_step_upto(s, fds, j).contains(c) {
                if !s.contains(c) {
                    let i = choose|i: int|
                        0 <= i < j && fd_applies(#[trigger] fds[i], s) && fds[i].to.contains(c);
                    assert(0 <= i < j + 1);
                }
            } else {
                let k = choose|k: int| 0 <= k < fds[j].to.len() && (#[trigger] fds[j].to[k]) == c;
                assert(fds[j].to.contains(c));
            }
        }
    } else {
        assert forall|c: usize| fd_step_upto(s, fds, j + 1).contains(c) implies fd_step_upto(
            s,
            fds,
            j,
        ).contains(c) by {
            if !s.contains(c) {
                let i = choose|i: int|
                    0 <= i < j + 1 && fd_applies(#[trigger] fds[i], s) && fds[i].to.contains(c);
                assert(i != j);
            }
        }
        assert forall|c: usize| fd_step_upto(s, fds, j).contains(c) implies fd_step_upto(
            s,
            fds,
            j + 1,
        ).contains(c) by {
            if !s.contains(c) {
                let i = choose|i: int|
                    0 <= i < j && fd_applies(#[trigger] fds[i], s) && fds[i].to.contains(c);
                assert(0 <= i < j + 1);
            }
        }
    }
}

/// Copies a bit vector.
pub fn copy_bits(v: &Vec<bool>) -> (r: Vec<bool>)
    ensures
        r@ == v@,
{
    let mut out: Vec<bool> = Vec::new();
    let mut i: usize = 0;
    while i < v.len()
        invariant
            0 <= i <= v@.len(),
            out@ == v@.subrange(0, i as int),
        decreases v@.len() - i,
    {
        out.push(v[i]);
        i += 1;
    }
    assert(out@ =~= v@);
    out
}

/// A bit vector of `n` zeroes.
pub fn empty_bits(n: usize) -> (r: Vec<bool>)
    ensures
        r@.len() == n,
        bit_set(r@) =~= Set::<usize>::empty(),
        forall|i: int| 0 <= i < n ==> !(#[trigger] r@[i]),
{
    let mut out: Vec<bool> = Vec::new();
    let mut i: usize = 0;
    while i < n
        invariant
            0 <= i <= n,
            out@.len() == i,
            forall|k: int| 0 <= k < i ==> !(#[trigger] out@[k]),
        decreases n - i,
    {
        out.push(false);
        i += 1;
    }
    out
}

/// Sets one bit, inserting the index into the represented set.
pub fn mark(bits: &mut Vec<bool>, i: usize)
    requires
        i < old(bits)@.len(),
    ensures
        final(bits)@.len() == old(bits)@.len(),
        bit_set(final(bits)@) =~= bit_set(old(bits)@).insert(i),
        final(bits)@ == old(bits)@.update(i as int, true),
{
    bits.set(i, true);
}

/// Whether every listed index is marked in the bit vector.
#[verifier::loop_isolation(false)]
pub fn all_marked(idxs: &Vec<usize>, bits: &Vec<bool>) -> (r: bool)
    requires
        indices_in_range(idxs@, bits@.len() as nat),
    ensures
        r == forall|k: int| 0 <= k < idxs@.len() ==> bit_set(bits@).contains(#[trigger] idxs@[k]),
{
    let mut k: usize = 0;
    while k < idxs.len()
        invariant
            0 <= k <= idxs@.len(),
            forall|q: int| 0 <= q < k ==> bit_set(bits@).contains(#[trigger] idxs@[q]),
        decreases idxs@.len() - k,
    {
        if !bits[idxs[k]] {
            assert(!bit_set(bits@).contains(idxs@[k as int]));
            return false;
        }
        k += 1;
    }
    true
}

/// Computes the functional-dependency closure of the marked columns by
/// iterating one closure step per column.
#[verifier::loop_isolation(false)]
pub fn fd_closure(start: &Vec<bool>, fds: &Vec<FunctionalDependency>) -> (r: Vec<bool>)
    requires
        fds_wf(fds_view(fds@), start@.len() as nat),
    ensures
        r@.len() == start@.len(),
        bit_set(r@) == closure(bit_set(start@), fds_view(fds@), start@.len() as nat),
{
    let n = start.len();
    let mut cur = copy_bits(start);
    let mut step: usize = 0;
    while step < n
        invariant
            cur@.len() == n,
            step <= n,
            bit_set(cur@) == closure_upto(bit_set(start@), fds_view(fds@), step as nat),
        decreases n - step,
    {
        let ghost s_cur = bit_set(cur@);
        let mut next = copy_bits(&cur);
        assert(bit_set(next@) =~= fd_step_upto(s_cur, fds_view(fds@), 0));
        let mut j: usize = 0;
        while j < fds.len()
            invariant
                next@.len() == n,
                cur@.len() == n,
                j <= fds_view(fds@).len(),
                bit_set(cur@) == s_cur,
                bit_set(next@) == fd_step_upto(s_cur, fds_view(fds@), j as int),
            decreases fds_view(fds@).len() - j,
        {
            assert(fds_view(fds@)[j as int].wf(n as nat));
            let applies = all_marked(&fds[j].from, &cur);
            proof {
                if applies {
                    assert forall|k: int| 0 <= k < fds_view(fds@)[j as int].from.len() implies s_cur.contains(
                        #[trigger] fds_view(fds@)[j as int].from[k],
                    ) by {}
                    assert(fd_applies(fds_view(fds@)[j as int], s_cur));
                } else {
                    let k = choose|k: int|
                        0 <= k < fds_view(fds@)[j as int].from.len() && !bit_set(cur@).contains(
                            #[trigger] fds_view(fds@)[j as int].from[k],
                        );
                    assert(!fd_applies(fds_view(fds@)[j as int], s_cur));
                }
                lemma_step_upto_succ(s_cur, fds_view(fds@), j as int);
            }
            if applies {
                let mut k: usize = 0;
                while k < fds[j].to.len()
                    invariant
                        next@.len() == n,
                        k <= fds_view(fds@)[j as int].to.len(),
                        bit_set(next@) == fd_step_upto(s_cur, fds_view(fds@), j as int).union(
                            index_set(fds_view(fds@)[j as int].to.subrange(0, k as int)),
                        ),
                    decreases fds_view(fds@)[j as int].to.len() - k,
                {
                    let ghost before = bit_set(next@);
                    let c = fds[j].to[k];
                    mark(&mut next, c);
                    proof {
                        let t = fds_view(fds@)[j as int].to;
                        assert(t.subrange(0, k + 1 as int) =~= t.subrange(0, k as int).push(t[k as int]));
                        lemma_index_set_push(t.subrange(0, k as int), c);
                        assert(bit_set(next@) =~= fd_step_upto(s_cur, fds_view(fds@), j as int).union(
                            index_set(t.subrange(0, k + 1 as int)),
                        ));
                    }
                    k += 1;
                }
                proof {
                    let t = fds_view(fds@)[j as int].to;
                    assert(t.subrange(0, t.len() as int) =~= t);
                    assert(bit_set(next@) =~= fd_step_upto(s_cur, fds_view(fds@), j + 1 as int));
                }
            } else {
                proof {
                    assert(bit_set(next@) =~= fd_step_upto(s_cur, fds_view(fds@), j + 1 as int));
                }
            }
            j += 1;
        }
        cur = next;
        step += 1;
    }
    cur
}

/// Whether the marked columns functionally determine every column of the
/// row. The row width is the length of the bit vector.
pub fn determines_all_columns(cand: &Vec<bool>, fds: &Vec<FunctionalDependency>) -> (r: bool)
    requires
        fds_wf(fds_view(fds@), cand@.len() as nat),
    ensures
        r == determines_all(bit_set(cand@), fds_view(fds@), cand@.len() as nat),
{
    let cl = fd_closure(cand, fds);
    let n = cl.len();
    let mut c: usize = 0;
    while c < n
        invariant
            c <= n,
            n == cl@.len(),
            cl@.len() == cand@.len(),
            bit_set(cl@) == closure(bit_set(cand@), fds_view(fds@), cand@.len() as nat),
            fds_wf(fds_view(fds@), cand@.len() as nat),
            forall|x: usize| x < c ==> closure(bit_set(cand@), fds_view(fds@), cand@.len() as nat).contains(
                x,
            ),
        decreases n - c,
    {
        if !cl[c] {
            assert(!bit_set(cl@).contains(c));
            return false;
        }
        assert(bit_set(cl@).contains(c));
        c += 1;
    }
    true
}

/// The set of columns still kept of a candidate key, skipping one position
/// (`skip` below the list length), or all kept positions when `skip` is the
/// list length or more.
pub open spec fn selected_except(acc: Seq<usize>, kept: Seq<bool>, skip: int) -> Set<usize> {
    selected_prefix(acc, kept, skip, acc.len() as int)
}

/// The kept columns among the first `p` positions, skipping position `skip`.
pub open spec fn selected_prefix(acc: Seq<usize>, kept: Seq<bool>, skip: int, p: int) -> Set<
    usize,
> {
    Set::new(
        |c: usize|
            exists|q: int| 0 <= q < p && (#[trigger] acc[q]) == c && kept[q] && q != skip,
    )
}

/// The set of columns kept of a candidate key.
pub open spec fn selected(acc: Seq<usize>, kept: Seq<bool>) -> Set<usize> {
    selected_except(acc, kept, -1)
}

proof fn lemma_selected_prefix_step(acc: Seq<usize>, kept: Seq<bool>, skip: int, p: int)
    requires
        0 <= p < acc.len(),
        kept.len() == acc.len(),
    ensures
        (kept[p] && p != skip) ==> selected_prefix(acc, kept, skip, p + 1) =~= selected_prefix(
            acc,
            kept,
            skip,
            p,
        ).insert(acc[p]),
        !(kept[p] && p != skip) ==> selected_prefix(acc, kept, skip, p + 1) =~= selected_prefix(
            acc,
            kept,
            skip,
            p,
        ),
{
    if kept[p] && p != skip {
        assert forall|c: usize| selected_prefix(acc, kept, skip, p + 1).contains(
            c,
        ) implies selected_prefix(acc, kept, skip, p).insert(acc[p]).contains(c) by {
            let q = choose|q: int|
                0 <= q < p + 1 && (#[trigger] acc[q]) == c && kept[q] && q != skip;
            if q < p {
                assert(selected_prefix(acc, kept, skip, p).contains(c));
            }
        }
        assert forall|c: usize| selected_prefix(acc, kept, skip, p).insert(acc[p]).contains(
            c,
        ) implies selected_prefix(acc, kept, skip, p + 1).contains(c) by {
            if selected_prefix(acc, kept, skip, p).contains(c) {
                let q = choose|q: int|
                    0 <= q < p && (#[trigger] acc[q]) == c && kept[q] && q != skip;
                assert(0 <= q < p + 1);
            } else {
                assert(acc[p] == c && kept[p] && p != skip);
            }
        }
    } else {
        assert forall|c: usize| selected_prefix(acc, kept, skip, p + 1).contains(
            c,
        ) implies selected_prefix(acc, kept, skip, p).contains(c) by {
            let q = choose|q: int|
                0 <= q < p + 1 && (#[trigger] acc[q]) == c && kept[q] && q != skip;
            assert(q != p);
        }
        assert forall|c: usize| selected_prefix(acc, kept, skip, p).contains(
            c,
        ) implies selected_prefix(acc, kept, skip, p + 1).contains(c) by {
            let q = choose|q: int|
                0 <= q < p && (#[trigger] acc[q]) == c && kept[q] && q != skip;
            assert(0 <= q < p + 1);
        }
    }
}

/// Builds the bit vector of the kept columns, skipping one position (pass
/// `acc.len()` or more to skip none).
#[verifier::loop_isolation(false)]
fn selected_bits(acc: &Vec<usize>, kept: &Vec<bool>, skip: usize, n: usize) -> (b: Vec<bool>)
    requires
        kept@.len() == acc@.len(),
        indices_in_range(acc@, n as nat),
    ensures
        b@.len() == n,
        bit_set(b@) == selected_except(acc@, kept@, skip as int),
{
    let mut b = empty_bits(n);
    assert(bit_set(b@) =~= selected_prefix(acc@, kept@, skip as int, 0));
    let mut p: usize = 0;
    while p < acc.len()
        invariant
            b@.len() == n,
            p <= acc@.len(),
            bit_set(b@) == selected_prefix(acc@, kept@, skip as int, p as int),
        decreases acc@.len() - p,
    {
        proof {
            lemma_selected_prefix_step(acc@, kept@, skip as int, p as int);
        }
        if kept[p] && p != skip {
            mark(&mut b, acc[p]);
        }
        p += 1;
    }
    b
}

/// Shrinks a unique-determining candidate key to an inclusion-minimal
/// unique-determining subset: afterwards, removing any kept column loses
/// the unique-determining property. Positions are tried from the last to
/// the first, so trailing candidate columns are dropped first. Keeps the
/// candidate's order and, with at least one column in the row, never
/// returns an empty key.
#[verifier::loop_isolation(false)]
pub fn minimize_unique_key(acc: &Vec<usize>, fds: &Vec<FunctionalDependency>, n: usize) -> (r:
    Vec<usize>)
    requires
        indices_in_range(acc@, n as nat),
        indices_distinct(acc@),
        fds_wf(fds_view(fds@), n as nat),
        determines_all(index_set(acc@), fds_view(fds@), n as nat),
    ensures
        indices_in_range(r@, n as nat),
        indices_distinct(r@),
        index_set(r@).subset_of(index_set(acc@)),
        determines_all(index_set(r@), fds_view(fds@), n as nat),
        forall|x: usize| index_set(r@).contains(x) ==> !determines_all(
            index_set(r@).remove(x),
            fds_view(fds@),
            n as nat,
        ),
        n > 0 ==> r@.len() > 0,
{
    let len = acc.len();
    let mut kept = empty_bits(len);
    let mut i: usize = 0;
    while i < len
        invariant
            kept@.len() == len,
            i <= len,
            forall|q: int| 0 <= q < i ==> (#[trigger] kept@[q]),
        decreases len - i,
    {
        kept.set(i, true);
        i += 1;
    }
    proof {
        assert forall|c: usize| index_set(acc@).contains(c) implies selected(acc@, kept@).contains(
            c,
        ) by {
            let q = choose|q: int| 0 <= q < acc@.len() && (#[trigger] acc@[q]) == c;
            assert(kept@[q] && q != -1);
        }
        assert(selected(acc@, kept@) =~= index_set(acc@));
    }
    let mut t: usize = len;
    while t > 0
        invariant
            kept@.len() == len,
            t <= len,
            determines_all(selected(acc@, kept@), fds_view(fds@), n as nat),
            forall|p: int|
                t <= p < len && (#[trigger] kept@[p]) ==> !determines_all(
                    selected(acc@, kept@).remove(acc@[p]),
                    fds_view(fds@),
                    n as nat,
                ),
        decreases t,
    {
        t -= 1;
        let trial = selected_bits(acc, &kept, t, n);
        let ghost old_sel = selected(acc@, kept@);
        proof {
            // Removing the column at position `t` from the kept set gives
            // exactly the trial set: distinctness keeps any other kept
            // position from contributing the same column back.
            assert forall|c: usize| old_sel.remove(acc@[t as int]).contains(
                c,
            ) implies selected_except(acc@, kept@, t as int).contains(c) by {
                let q = choose|q: int| 0 <= q < acc@.len() && (#[trigger] acc@[q]) == c && kept@[q] && q != -1;
                assert(q != t);
            }
            assert forall|c: usize| selected_except(acc@, kept@, t as int).contains(
                c,
            ) implies old_sel.remove(acc@[t as int]).contains(c) by {
                let q = choose|q: int|
                    0 <= q < acc@.len() && (#[trigger] acc@[q]) == c && kept@[q] && q != t;
                if c == acc@[t as int] {
                    assert(acc@[q] == acc@[t as int]);
                    assert(q == t);
                }
            }
            assert(selected_except(acc@, kept@, t as int) =~= old_sel.remove(acc@[t as int]));
        }
        if kept[t] {
            if determines_all_columns(&trial, fds) {
                let ghost kept_before = kept@;
                kept.set(t, false);
                proof {
                    assert forall|c: usize| selected(acc@, kept@).contains(
                        c,
                    ) implies selected_except(acc@, kept_before, t as int).contains(c) by {
                        let q = choose|q: int|
                            0 <= q < acc@.len() && (#[trigger] acc@[q]) == c && kept@[q] && q
                                != -1;
                        assert(q != t);
                    }
                    assert forall|c: usize| selected_except(acc@, kept_before, t as int).contains(
                        c,
                    ) implies selected(acc@, kept@).contains(c) by {
                        let q = choose|q: int|
                            0 <= q < acc@.len() && (#[trigger] acc@[q]) == c && kept_before[q]
                                && q != t;
                        assert(kept@[q]);
                    }
                    assert(selected(acc@, kept@) =~= selected_except(acc@, kept_before, t as int));
                    // Earlier minimality verdicts survive the shrink: a set
                    // that fails to determine the row keeps failing on any
                    // subset.
                    assert forall|p: int|
                        t <= p < len && (#[trigger] kept@[p]) implies !determines_all(
                        selected(acc@, kept@).remove(acc@[p]),
                        fds_view(fds@),
                        n as nat,
                    ) by {
                        assert(p != t);
                        assert(kept_before[p]);
                        if determines_all(selected(acc@, kept@).remove(acc@[p]), fds_view(fds@), n as nat) {
                            assert forall|c: usize| selected(acc@, kept@).remove(acc@[p]).contains(
                                c,
                            ) implies selected(acc@, kept_before).remove(acc@[p]).contains(c) by {
                                let q = choose|q: int|
                                    0 <= q < acc@.len() && (#[trigger] acc@[q]) == c && kept@[q]
                                        && q != -1;
                                assert(kept_before[q]);
                            }
                            lemma_determines_monotone(
                                selected(acc@, kept@).remove(acc@[p]),
                                selected(acc@, kept_before).remove(acc@[p]),
                                fds_view(fds@),
                                n as nat,
                            );
                        }
                    }
                }
            } else {
                proof {
                    assert forall|p: int|
                        t <= p < len && (#[trigger] kept@[p]) implies !determines_all(
                        selected(acc@, kept@).remove(acc@[p]),
                        fds_view(fds@),
                        n as nat,
                    ) by {
                        if p == t {
                            assert(selected(acc@, kept@).remove(acc@[p]) =~= bit_set(trial@));
                        }
                    }
                }
            }
        }
    }
    // Collect the kept columns in their original order.
    let mut out: Vec<usize> = Vec::new();
    let mut p: usize = 0;
    while p < len
        invariant
            p <= len,
            out@.len() <= p,
            index_set(out@) =~= selected_prefix(acc@, kept@, -1, p as int),
            forall|a: int, b2: int|
                0 <= a < b2 < out@.len() ==> out@[a] != out@[b2],
            forall|a: int| 0 <= a < out@.len() ==> (#[trigger] out@[a]) < n,
            forall|a: int|
                0 <= a < out@.len() ==> index_set(acc@).contains(#[trigger] out@[a]),
        decreases len - p,
    {
        proof {
            lemma_selected_prefix_step(acc@, kept@, -1, p as int);
        }
        if kept[p] {
            let ghost out_before = out@;
            proof {
                // The column at `p` is not yet collected: collected columns
                // come from earlier positions, and `acc` is distinct.
                if index_set(out_before).contains(acc@[p as int]) {
                    let q = choose|q: int|
                        0 <= q < acc@.len() && (#[trigger] acc@[q]) == acc@[p as int] && kept@[q]
                            && q != -1 && q < p;
                    assert(false);
                }
            }
            out.push(acc[p]);
            proof {
                lemma_index_set_push(out_before, acc@[p as int]);
                assert(index_set(acc@).contains(acc@[p as int]));
            }
        }
        p += 1;
    }
    proof {
        assert(index_set(out@) =~= selected(acc@, kept@));
        assert forall|x: usize| index_set(out@).contains(x) implies !determines_all(
            index_set(out@).remove(x),
            fds_view(fds@),
            n as nat,
        ) by {
            let q = choose|q: int|
                0 <= q < acc@.len() && (#[trigger] acc@[q]) == x && kept@[q] && q != -1;
            assert(kept@[q]);
            assert(!determines_all(selected(acc@, kept@).remove(acc@[q]), fds_view(fds@), n as nat));
        }
        if n > 0 && out@.len() == 0 {
            lemma_empty_not_determining(fds_view(fds@), n as nat);
            assert(index_set(out@) =~= Set::<usize>::empty());
            assert(false);
        }
    }
    out
}

} // verus!
