//! The task tree: grouping a flat task list into parents and subtasks,
//! and flattening the tree into indented rows.
use vstd::prelude::*;

use crate::models::{task_models, Task, TaskModel};
use std::collections::HashMap;

verus! {

broadcast use vstd::std_specs::hash::group_hash_axioms;

/// A node in the task tree: a task plus its children.
#[derive(Debug)]
pub struct TaskNode {
    pub task: Task,
    pub children: Vec<TaskNode>,
}

/// Flat representation of a tree row used for rendering.
#[derive(Debug)]
pub struct FlatRow {
    pub task: Task,
    pub depth: usize,
    pub has_children: bool,
    pub expanded: bool,
}

/// What a row holds, as mathematical values.
pub struct FlatRowModel {
    pub task: TaskModel,
    pub depth: int,
    pub has_children: bool,
    pub expanded: bool,
}

impl View for FlatRow {
    type V = FlatRowModel;

    open spec fn view(&self) -> FlatRowModel {
        FlatRowModel {
            task: self.task@,
            depth: self.depth as int,
            has_children: self.has_children,
            expanded: self.expanded,
        }
    }
}

impl Clone for FlatRow {
    fn clone(&self) -> (res: Self)
        ensures
            res@ == self@,
    {
        FlatRow {
            task: self.task.clone(),
            depth: self.depth,
            has_children: self.has_children,
            expanded: self.expanded,
        }
    }
}

/// The models of a sequence of rows.
pub open spec fn row_models(rows: Seq<FlatRow>) -> Seq<FlatRowModel> {
    rows.map_values(|r: FlatRow| r@)
}

// ---------------------------------------------------------------------
// Sequence facts
// ---------------------------------------------------------------------

pub proof fn lemma_filter_push<A>(s: Seq<A>, x: A, p: spec_fn(A) -> bool)
    ensures
        s.push(x).filter(p) == (if p(x) {
            s.filter(p).push(x)
        } else {
            s.filter(p)
        }),
{
    reveal(Seq::filter);
    assert(s.push(x).drop_last() =~= s);
}

pub proof fn lemma_filter_subset<A>(s: Seq<A>, p: spec_fn(A) -> bool)
    ensures
        forall|i: int| 0 <= i < s.filter(p).len() ==> s.contains(#[trigger] s.filter(p)[i]),
        forall|i: int| 0 <= i < s.filter(p).len() ==> p(#[trigger] s.filter(p)[i]),
    decreases s.len(),
{
    reveal(Seq::filter);
    if s.len() > 0 {
        lemma_filter_subset(s.drop_last(), p);
        let f = s.filter(p);
        let g = s.drop_last().filter(p);
        assert forall|i: int| 0 <= i < f.len() implies s.contains(#[trigger] f[i]) && p(f[i]) by {
            if i < g.len() {
                assert(f[i] == g[i]);
                let k = choose|k: int| 0 <= k < s.drop_last().len() && s.drop_last()[k] == g[i];
                assert(s[k] == f[i]);
            } else {
                assert(f[i] == s.last());
                assert(s[s.len() - 1] == f[i]);
            }
        }
    }
}

/// A relation that holds between every earlier and later element of `s`
/// still holds after filtering.
pub proof fn lemma_filter_keeps_order<A>(s: Seq<A>, p: spec_fn(A) -> bool, r: spec_fn(A, A) -> bool)
    requires
        forall|i: int, j: int| 0 <= i < j < s.len() ==> r(s[i], s[j]),
    ensures
        forall|i: int, j: int|
            0 <= i < j < s.filter(p).len() ==> r(s.filter(p)[i], s.filter(p)[j]),
    decreases s.len(),
{
    if s.len() > 0 {
        let init = s.drop_last();
        let x = s.last();
        assert(s =~= init.push(x));
        lemma_filter_push(init, x, p);
        lemma_filter_keeps_order(init, p, r);
        lemma_filter_subset(init, p);
        let g = init.filter(p);
        let f = s.filter(p);
        assert forall|i: int, j: int| 0 <= i < j < f.len() implies r(f[i], f[j]) by {
            if j < g.len() {
                assert(f[i] == g[i] && f[j] == g[j]);
            } else {
                assert(f[j] == x);
                assert(f[i] == g[i]);
                assert(init.contains(g[i]));
                let k = choose|k: int| 0 <= k < init.len() && init[k] == g[i];
                assert(s[k] == g[i]);
                assert(s[s.len() - 1] == x);
            }
        }
    } else {
        reveal(Seq::filter);
    }
}

pub proof fn lemma_filter_all<A>(s: Seq<A>, p: spec_fn(A) -> bool)
    requires
        forall|i: int| 0 <= i < s.len() ==> p(#[trigger] s[i]),
    ensures
        s.filter(p) == s,
    decreases s.len(),
{
    reveal(Seq::filter);
    if s.len() > 0 {
        lemma_filter_all(s.drop_last(), p);
        assert(s.drop_last().push(s.last()) =~= s);
    } else {
        assert(s.filter(p) =~= s);
    }
}

pub proof fn lemma_filter_empty<A>(s: Seq<A>, p: spec_fn(A) -> bool)
    requires
        forall|i: int| 0 <= i < s.len() ==> !p(#[trigger] s[i]),
    ensures
        s.filter(p) == Seq::<A>::empty(),
    decreases s.len(),
{
    reveal(Seq::filter);
    if s.len() > 0 {
        lemma_filter_empty(s.drop_last(), p);
    }
}

// ---------------------------------------------------------------------
// What the tree is built from
// ---------------------------------------------------------------------

/// The tasks of a sequence of nodes.
pub open spec fn node_tasks(ns: Seq<TaskNode>) -> Seq<TaskModel> {
    ns.map_values(|n: TaskNode| n.task@)
}

/// Whether some task has id `k`.
pub open spec fn has_id(ts: Seq<TaskModel>, k: i64) -> bool {
    exists|i: int| 0 <= i < ts.len() && ts[i].id == k
}

/// A task is a root when it has no parent, or its parent is not among `ts`.
pub open spec fn is_root(ts: Seq<TaskModel>, t: TaskModel) -> bool {
    match t.parent_id {
        None => true,
        Some(p) => !has_id(ts, p),
    }
}

/// The test "is a root among `ts`".
pub open spec fn root_in(ts: Seq<TaskModel>) -> spec_fn(TaskModel) -> bool {
    |t: TaskModel| is_root(ts, t)
}

/// The roots among `ts`, in order.
pub open spec fn roots_of(ts: Seq<TaskModel>) -> Seq<TaskModel> {
    ts.filter(root_in(ts))
}

/// The test "has parent `k`".
pub open spec fn parent_is(k: i64) -> spec_fn(TaskModel) -> bool {
    |t: TaskModel| t.parent_id == Some(k)
}

/// The tasks whose parent is `k`, in order.
pub open spec fn children_of(ts: Seq<TaskModel>, k: i64) -> Seq<TaskModel> {
    ts.filter(parent_is(k))
}

/// The test "has id `k`".
pub open spec fn id_is(k: i64) -> spec_fn(TaskModel) -> bool {
    |t: TaskModel| t.id == k
}

/// The tasks of `s` with id `k`, in order.
pub open spec fn with_id(s: Seq<TaskModel>, k: i64) -> Seq<TaskModel> {
    s.filter(id_is(k))
}

pub open spec fn sorted_by_id(s: Seq<TaskModel>) -> bool {
    forall|i: int, j: int| 0 <= i <= j < s.len() ==> s[i].id <= s[j].id
}

/// `out` is `inp` stably sorted by id: sorted, and for every id the tasks
/// with that id come in the same order as in `inp`.
pub open spec fn stable_sorted(out: Seq<TaskModel>, inp: Seq<TaskModel>) -> bool {
    &&& out.len() == inp.len()
    &&& sorted_by_id(out)
    &&& forall|k: i64| #[trigger] with_id(out, k) == with_id(inp, k)
}

/// No two tasks share an id.
pub open spec fn unique_ids(ts: Seq<TaskModel>) -> bool {
    forall|i: int, j: int| 0 <= i < j < ts.len() ==> ts[i].id != ts[j].id
}

// ---------------------------------------------------------------------
// Trees as values
// ---------------------------------------------------------------------

/// A task tree as mathematical values: a task and the trees below it.
pub struct TreeModel {
    pub task: TaskModel,
    pub children: Seq<TreeModel>,
}

/// The value of the tree rooted at `n`.
pub open spec fn tree_model(n: TaskNode) -> TreeModel
    decreases n,
{
    TreeModel { task: n.task@, children: forest_model(n.children@) }
}

/// The values of the trees of a forest, in order.
pub open spec fn forest_model(ns: Seq<TaskNode>) -> Seq<TreeModel>
    decreases ns,
{
    if ns.len() == 0 {
        Seq::empty()
    } else {
        seq![tree_model(ns[0])] + forest_model(ns.drop_first())
    }
}

pub proof fn lemma_forest_model(ns: Seq<TaskNode>)
    ensures
        forest_model(ns).len() == ns.len(),
        forall|i: int| 0 <= i < ns.len() ==> #[trigger] forest_model(ns)[i] == tree_model(ns[i]),
    decreases ns.len(),
{
    if ns.len() > 0 {
        lemma_forest_model(ns.drop_first());
        assert forall|i: int| 0 <= i < ns.len() implies #[trigger] forest_model(ns)[i] == tree_model(
            ns[i],
        ) by {
            if i > 0 {
                assert(ns.drop_first()[i - 1] == ns[i]);
            }
        }
    }
}

/// `s` with `x` placed after the last tree whose task id is at most `x`'s.
pub open spec fn insert_by_id(s: Seq<TreeModel>, x: TreeModel) -> Seq<TreeModel>
    decreases s.len(),
{
    if s.len() == 0 {
        seq![x]
    } else if s.last().task.id <= x.task.id {
        s.push(x)
    } else {
        insert_by_id(s.drop_last(), x).push(s.last())
    }
}

/// `s` stably sorted by task id: each tree in turn placed after the trees
/// before it whose id is at most its own.
pub open spec fn sort_by_id(s: Seq<TreeModel>) -> Seq<TreeModel>
    decreases s.len(),
{
    if s.len() == 0 {
        s
    } else {
        insert_by_id(sort_by_id(s.drop_last()), s.last())
    }
}

proof fn lemma_insert_by_id(s: Seq<TreeModel>, x: TreeModel, p: int)
    requires
        0 <= p <= s.len(),
        forall|j: int| 0 <= j < p ==> s[j].task.id <= x.task.id,
        forall|j: int| p <= j < s.len() ==> s[j].task.id > x.task.id,
    ensures
        insert_by_id(s, x) == s.insert(p, x),
    decreases s.len(),
{
    if s.len() == 0 {
        assert(s.insert(p, x) =~= seq![x]);
    } else if s.last().task.id <= x.task.id {
        assert(s[s.len() - 1] == s.last());
        assert(p == s.len());
        assert(s.insert(p, x) =~= s.push(x));
    } else {
        assert(s[s.len() - 1] == s.last());
        assert(p < s.len());
        lemma_insert_by_id(s.drop_last(), x, p);
        assert(s.insert(p, x) =~= s.drop_last().insert(p, x).push(s.last()));
    }
}

/// Building the tree of task `t` when the ids in `r` have already been
/// given their children, with at most `fuel` levels: if `t`'s id is among
/// them, `t` stays a leaf; otherwise its id is recorded, and the tasks whose
/// parent it is are built one after another in list order, then stably
/// sorted by id where `sorted` says so. Gives the tree and the ids recorded
/// by the end.
pub open spec fn grow(ts: Seq<TaskModel>, t: TaskModel, r: Seq<i64>, fuel: nat, sorted: bool) -> (
    TreeModel,
    Seq<i64>,
)
    decreases fuel, 0nat,
{
    if r.contains(t.id) || fuel == 0 {
        (TreeModel { task: t, children: Seq::empty() }, r)
    } else {
        let kids = grow_all(ts, children_of(ts, t.id), r.push(t.id), (fuel - 1) as nat, sorted);
        (TreeModel { task: t, children: if sorted {
            sort_by_id(kids.0)
        } else {
            kids.0
        } }, kids.1)
    }
}

/// Building the trees of `cs` one after another, from the first, each
/// seeing the ids recorded by those before it.
pub open spec fn grow_all(
    ts: Seq<TaskModel>,
    cs: Seq<TaskModel>,
    r: Seq<i64>,
    fuel: nat,
    sorted: bool,
) -> (Seq<TreeModel>, Seq<i64>)
    decreases fuel, cs.len() + 1,
{
    if cs.len() == 0 {
        (Seq::empty(), r)
    } else {
        let before = grow_all(ts, cs.drop_last(), r, fuel, sorted);
        let last = grow(ts, cs.last(), before.1, fuel, sorted);
        (before.0.push(last.0), last.1)
    }
}

/// The forest that `ts` gives: the roots built one after another in list
/// order, then, where `sorted` says so, stably sorted by id (each level
/// alike). Where ids repeat, the first node built with an id takes the
/// tasks whose parent has that id; later ones stay leaves.
pub open spec fn grown_forest(ts: Seq<TaskModel>, sorted: bool) -> Seq<TreeModel> {
    let f = grow_all(ts, roots_of(ts), Seq::empty(), ts.len(), sorted).0;
    if sorted {
        sort_by_id(f)
    } else {
        f
    }
}

/// The forest that `build_tree` gives for `ts`: every level stably sorted
/// by id.
pub open spec fn built_forest(ts: Seq<TaskModel>) -> Seq<TreeModel> {
    grown_forest(ts, true)
}

/// `nodes` is the forest `ts` gives, sorted by id or kept in list order as
/// `sorted` says, with at most one level per task and one more.
pub open spec fn grown_from(nodes: Seq<TaskNode>, ts: Seq<TaskModel>, sorted: bool) -> bool {
    &&& forest_model(nodes) == grown_forest(ts, sorted)
    &&& forall|i: int| 0 <= i < nodes.len() ==> depth_le(#[trigger] nodes[i], (ts.len() + 1) as nat)
}

/// How many trees of the forest, at any depth, have task id `k` and
/// children.
pub open spec fn parents_with_id(ms: Seq<TreeModel>, k: i64) -> nat
    decreases ms,
{
    if ms.len() == 0 {
        0
    } else {
        parents_in_tree(ms[0], k) + parents_with_id(ms.drop_first(), k)
    }
}

/// How many nodes of the tree `m` have task id `k` and children.
pub open spec fn parents_in_tree(m: TreeModel, k: i64) -> nat
    decreases m,
{
    (if m.task.id == k && m.children.len() > 0 {
        1nat
    } else {
        0nat
    }) + parents_with_id(m.children, k)
}

proof fn lemma_parents_push(ms: Seq<TreeModel>, m: TreeModel, k: i64)
    ensures
        parents_with_id(ms.push(m), k) == parents_with_id(ms, k) + parents_in_tree(m, k),
    decreases ms.len(),
{
    let s = ms.push(m);
    assert(s.len() > 0);
    if ms.len() == 0 {
        assert(s.drop_first() =~= Seq::<TreeModel>::empty());
        assert(s[0] == m);
        assert(parents_with_id(s.drop_first(), k) == 0);
        assert(parents_with_id(s, k) == parents_in_tree(s[0], k) + parents_with_id(s.drop_first(), k));
    } else {
        assert(s.drop_first() =~= ms.drop_first().push(m));
        assert(s[0] == ms[0]);
        lemma_parents_push(ms.drop_first(), m, k);
        assert(parents_with_id(s, k) == parents_in_tree(s[0], k) + parents_with_id(s.drop_first(), k));
    }
}

proof fn lemma_parents_insert(s: Seq<TreeModel>, x: TreeModel, k: i64)
    ensures
        parents_with_id(insert_by_id(s, x), k) == parents_with_id(s, k) + parents_in_tree(x, k),
    decreases s.len(),
{
    if s.len() == 0 {
        lemma_parents_push(s, x, k);
        assert(s.push(x) =~= seq![x]);
    } else if s.last().task.id <= x.task.id {
        lemma_parents_push(s, x, k);
    } else {
        lemma_parents_insert(s.drop_last(), x, k);
        lemma_parents_push(insert_by_id(s.drop_last(), x), s.last(), k);
        lemma_parents_push(s.drop_last(), s.last(), k);
        assert(s.drop_last().push(s.last()) =~= s);
    }
}

proof fn lemma_parents_sort(s: Seq<TreeModel>, k: i64)
    ensures
        parents_with_id(sort_by_id(s), k) == parents_with_id(s, k),
    decreases s.len(),
{
    if s.len() > 0 {
        lemma_parents_sort(s.drop_last(), k);
        lemma_parents_insert(sort_by_id(s.drop_last()), s.last(), k);
        lemma_parents_push(s.drop_last(), s.last(), k);
        assert(s.drop_last().push(s.last()) =~= s);
    }
}

/// Building records each id at most once, and only the node whose id it
/// recorded has children: every id has at most one node with children
/// among the trees built, and none unless it was recorded by them.
proof fn lemma_grow_parents(ts: Seq<TaskModel>, t: TaskModel, r: Seq<i64>, fuel: nat, sorted: bool)
    requires
        r.no_duplicates(),
    ensures
        ({
            let (m, r2) = grow(ts, t, r, fuel, sorted);
            &&& r2.len() >= r.len()
            &&& r2.take(r.len() as int) == r
            &&& r2.no_duplicates()
            &&& forall|k: i64|
                parents_in_tree(m, k) <= (if r2.skip(r.len() as int).contains(k) {
                    1nat
                } else {
                    0nat
                })
        }),
    decreases fuel, 0nat,
{
    if r.contains(t.id) || fuel == 0 {
        let m = TreeModel { task: t, children: Seq::empty() };
        assert forall|k: i64| parents_in_tree(m, k) == 0 by {}
        assert(r.take(r.len() as int) =~= r);
    } else {
        let r1 = r.push(t.id);
        assert(r1.no_duplicates()) by {
            assert forall|a: int, b: int| 0 <= a < b < r1.len() implies r1[a] != r1[b] by {
                if b == r1.len() - 1 {
                    assert(r.contains(r1[a]));
                }
            }
        }
        let cs = children_of(ts, t.id);
        let f = (fuel - 1) as nat;
        lemma_grow_all_parents(ts, cs, r1, f, sorted);
        let (ms, r2) = grow_all(ts, cs, r1, f, sorted);
        let m = TreeModel { task: t, children: if sorted {
            sort_by_id(ms)
        } else {
            ms
        } };
        assert(r2.take(r.len() as int) =~= r) by {
            assert(r2.take(r1.len() as int).take(r.len() as int) =~= r2.take(r.len() as int));
        }
        assert forall|k: i64|
            parents_in_tree(m, k) <= (if r2.skip(r.len() as int).contains(k) {
                1nat
            } else {
                0nat
            }) by {
            lemma_parents_sort(ms, k);
            assert(parents_with_id(m.children, k) == parents_with_id(ms, k));
            let added = r2.skip(r.len() as int);
            let added1 = r2.skip(r1.len() as int);
            assert(added[0] == t.id) by {
                assert(r2.take(r1.len() as int)[r.len() as int] == r1[r.len() as int]);
            }
            if added1.contains(k) {
                let q = choose|q: int| 0 <= q < added1.len() && added1[q] == k;
                assert(added[q + 1] == k);
                if k == t.id {
                    assert(r2[r.len() as int] == r2[r1.len() + q]);
                }
            }
            if k == t.id {
                assert(added.contains(k));
            }
        }
    }
}

proof fn lemma_grow_all_parents(
    ts: Seq<TaskModel>,
    cs: Seq<TaskModel>,
    r: Seq<i64>,
    fuel: nat,
    sorted: bool,
)
    requires
        r.no_duplicates(),
    ensures
        ({
            let (ms, r2) = grow_all(ts, cs, r, fuel, sorted);
            &&& r2.len() >= r.len()
            &&& r2.take(r.len() as int) == r
            &&& r2.no_duplicates()
            &&& forall|k: i64|
                parents_with_id(ms, k) <= (if r2.skip(r.len() as int).contains(k) {
                    1nat
                } else {
                    0nat
                })
        }),
    decreases fuel, cs.len() + 1,
{
    if cs.len() == 0 {
        assert(r.take(r.len() as int) =~= r);
        assert forall|k: i64| parents_with_id(Seq::<TreeModel>::empty(), k) == 0 by {}
    } else {
        lemma_grow_all_parents(ts, cs.drop_last(), r, fuel, sorted);
        let (a, r1) = grow_all(ts, cs.drop_last(), r, fuel, sorted);
        lemma_grow_parents(ts, cs.last(), r1, fuel, sorted);
        let (m, r2) = grow(ts, cs.last(), r1, fuel, sorted);
        assert(r2.take(r.len() as int) =~= r) by {
            assert(r2.take(r1.len() as int).take(r.len() as int) =~= r2.take(r.len() as int));
        }
        assert forall|k: i64|
            parents_with_id(a.push(m), k) <= (if r2.skip(r.len() as int).contains(k) {
                1nat
            } else {
                0nat
            }) by {
            lemma_parents_push(a, m, k);
            let e1 = r1.skip(r.len() as int);
            let e2 = r2.skip(r1.len() as int);
            let e = r2.skip(r.len() as int);
            assert(e =~= e1 + e2) by {
                assert(r2.take(r1.len() as int) == r1);
            }
            if e1.contains(k) {
                let q = choose|q: int| 0 <= q < e1.len() && e1[q] == k;
                assert(e[q] == k);
                if e2.contains(k) {
                    let q2 = choose|q2: int| 0 <= q2 < e2.len() && e2[q2] == k;
                    assert(e[e1.len() + q2] == k);
                    assert(r2[r.len() + q] == r2[r1.len() + q2]);
                }
            }
            if e2.contains(k) {
                let q2 = choose|q2: int| 0 <= q2 < e2.len() && e2[q2] == k;
                assert(e[e1.len() + q2] == k);
            }
        }
    }
}

/// In a forest built from a task list, sorted or not, at most one node per
/// id has children: where ids repeat, only one of the nodes sharing an id
/// holds subtasks.
pub proof fn law_one_parent_node_per_id(
    nodes: Seq<TaskNode>,
    ts: Seq<TaskModel>,
    sorted: bool,
    k: i64,
)
    requires
        grown_from(nodes, ts, sorted),
    ensures
        parents_with_id(forest_model(nodes), k) <= 1,
{
    let e = Seq::<i64>::empty();
    assert(e.no_duplicates());
    lemma_grow_all_parents(ts, roots_of(ts), e, ts.len(), sorted);
    lemma_parents_sort(grow_all(ts, roots_of(ts), e, ts.len(), sorted).0, k);
}

// ---------------------------------------------------------------------
// Stable sort of nodes by task id
// ---------------------------------------------------------------------

proof fn lemma_insert_sorted(out: Seq<TaskModel>, p: int, x: TaskModel, done: Seq<TaskModel>)
    requires
        0 <= p <= out.len(),
        stable_sorted(out, done),
        forall|j: int| 0 <= j < p ==> out[j].id <= x.id,
        forall|j: int| p <= j < out.len() ==> out[j].id > x.id,
    ensures
        stable_sorted(out.insert(p, x), done.push(x)),
{
    let o2 = out.insert(p, x);
    let a = out.take(p);
    let b = out.skip(p);
    assert(o2 =~= (a + seq![x]) + b);
    assert(out =~= a + b);
    assert forall|k: i64| #[trigger] with_id(o2, k) == with_id(done.push(x), k) by {
        let f = id_is(k);
        Seq::filter_distributes_over_add(a + seq![x], b, f);
        Seq::filter_distributes_over_add(a, seq![x], f);
        Seq::filter_distributes_over_add(a, b, f);
        lemma_filter_push(done, x, f);
        lemma_filter_push(Seq::<TaskModel>::empty(), x, f);
        assert(Seq::<TaskModel>::empty().push(x) =~= seq![x]);
        reveal(Seq::filter);
        assert(Seq::<TaskModel>::empty().filter(f) =~= Seq::<TaskModel>::empty());
        assert(with_id(out, k) == with_id(done, k));
        assert(with_id(o2, k) == with_id(a, k) + with_id(seq![x], k) + with_id(b, k));
        assert(with_id(out, k) == with_id(a, k) + with_id(b, k));
        if x.id == k {
            assert forall|j: int| 0 <= j < b.len() implies !f(#[trigger] b[j]) by {
                assert(b[j] == out[p + j]);
            }
            lemma_filter_empty(b, f);
            assert(with_id(seq![x], k) == seq![x]);
            assert(with_id(out, k) =~= with_id(a, k));
            assert(with_id(o2, k) =~= with_id(a, k).push(x));
        } else {
            assert(with_id(seq![x], k) == Seq::<TaskModel>::empty());
            assert(with_id(o2, k) =~= with_id(a, k) + with_id(b, k));
        }
    }
    assert forall|i: int, j: int| 0 <= i <= j < o2.len() implies o2[i].id <= o2[j].id by {
        if j < p {
        } else if i > p {
            assert(o2[i] == out[i - 1]);
            assert(o2[j] == out[j - 1]);
        } else if i == p {
            if j > p {
                assert(o2[j] == out[j - 1]);
            }
        } else {
            if j > p {
                assert(o2[j] == out[j - 1]);
            }
        }
    }
}

/// Sorts nodes by task id, keeping nodes with the same id in their order.
fn sort_nodes(v: Vec<TaskNode>) -> (out: Vec<TaskNode>)
    ensures
        stable_sorted(node_tasks(out@), node_tasks(v@)),
        forall|j: int| 0 <= j < out@.len() ==> v@.contains(#[trigger] out@[j]),
        forest_model(out@) == sort_by_id(forest_model(v@)),
{
    let ghost orig = v@;
    let n: usize = v.len();
    let mut rest = v;
    let mut out: Vec<TaskNode> = Vec::new();
    let mut i: usize = 0;
    proof {
        assert(orig.skip(0) =~= orig);
        reveal(Seq::filter);
        assert forall|k: i64| #[trigger] with_id(node_tasks(out@), k) == with_id(
            node_tasks(orig.take(0)),
            k,
        ) by {
            assert(node_tasks(out@) =~= Seq::<TaskModel>::empty());
            assert(node_tasks(orig.take(0)) =~= Seq::<TaskModel>::empty());
        }
        assert(orig.take(0) =~= Seq::<TaskNode>::empty());
        assert(forest_model(out@) =~= Seq::<TreeModel>::empty());
    }
    while rest.len() > 0
        invariant
            i <= orig.len(),
            orig.len() == n,
            rest@ == orig.skip(i as int),
            stable_sorted(node_tasks(out@), node_tasks(orig.take(i as int))),
            forall|j: int| 0 <= j < out@.len() ==> orig.contains(#[trigger] out@[j]),
            forest_model(out@) == sort_by_id(forest_model(orig.take(i as int))),
        decreases rest.len(),
    {
        let x = rest.remove(0);
        proof {
            assert(x == orig[i as int]);
            assert(rest@ =~= orig.skip(i + 1));
        }
        let mut p: usize = 0;
        while p < out.len() && out[p].task.id <= x.task.id
            invariant
                p <= out.len(),
                forall|j: int| 0 <= j < p ==> out@[j].task.id <= x.task.id,
            decreases out.len() - p,
        {
            p += 1;
        }
        let ghost old_out = out@;
        proof {
            let m = node_tasks(old_out);
            assert forall|j: int| p <= j < m.len() implies m[j].id > x.task.id by {
                if p < m.len() {
                    assert(m[p as int].id > x.task.id);
                    assert(m[p as int].id <= m[j].id);
                }
            }
            lemma_insert_sorted(m, p as int, x.task@, node_tasks(orig.take(i as int)));
            assert(node_tasks(old_out.insert(p as int, x)) =~= m.insert(p as int, x.task@));
            assert(node_tasks(orig.take(i + 1)) =~= node_tasks(orig.take(i as int)).push(x.task@));
        }
        proof {
            let fo = forest_model(old_out);
            let m = node_tasks(old_out);
            lemma_forest_model(old_out);
            assert forall|j: int| p <= j < fo.len() implies fo[j].task.id > x.task.id by {
                assert(fo[j].task.id == m[j].id);
            }
            assert forall|j: int| 0 <= j < p implies fo[j].task.id <= x.task.id by {
                assert(fo[j].task.id == old_out[j].task.id);
            }
            lemma_insert_by_id(fo, tree_model(x), p as int);
            let f1 = forest_model(orig.take(i + 1));
            lemma_forest_model(orig.take(i + 1));
            lemma_forest_model(orig.take(i as int));
            assert(f1.drop_last() =~= forest_model(orig.take(i as int)));
            assert(f1.last() == tree_model(x));
            lemma_forest_model(old_out.insert(p as int, x));
            assert(forest_model(old_out.insert(p as int, x)) =~= fo.insert(p as int, tree_model(x)));
        }
        out.insert(p, x);
        proof {
            assert forall|j: int| 0 <= j < out@.len() implies orig.contains(#[trigger] out@[j]) by {
                if j < p {
                    assert(out@[j] == old_out[j]);
                } else if j == p {
                    assert(out@[j] == orig[i as int]);
                } else {
                    assert(out@[j] == old_out[j - 1]);
                }
            }
        }
        i += 1;
    }
    proof {
        assert(orig.take(i as int) =~= orig);
    }
    out
}


// ---------------------------------------------------------------------
// Building the tree
// ---------------------------------------------------------------------

/// A node's children are the tasks whose parent is the node's task, stably
/// sorted by id.
pub open spec fn children_ok(n: TaskNode, ts: Seq<TaskModel>) -> bool {
    stable_sorted(node_tasks(n.children@), children_of(ts, n.task.id))
}

/// Every node of the tree rooted at `n` has the children `children_ok`
/// describes; where `exact` is false a node may also have none.
pub open spec fn tree_ok(n: TaskNode, ts: Seq<TaskModel>, exact: bool) -> bool
    decreases n,
{
    &&& (children_ok(n, ts) || (!exact && n.children@.len() == 0))
    &&& forall|i: int| 0 <= i < n.children@.len() ==> tree_ok(#[trigger] n.children@[i], ts, exact)
}

/// The tree rooted at `n` has at most `h` levels.
pub open spec fn depth_le(n: TaskNode, h: nat) -> bool
    decreases n,
{
    &&& h >= 1
    &&& forall|i: int|
        0 <= i < n.children@.len() ==> depth_le(#[trigger] n.children@[i], (h - 1) as nat)
}

pub proof fn lemma_depth_mono(n: TaskNode, h: nat, h2: nat)
    requires
        depth_le(n, h),
        h <= h2,
    ensures
        depth_le(n, h2),
    decreases n,
{
    assert forall|i: int| 0 <= i < n.children@.len() implies depth_le(
        #[trigger] n.children@[i],
        (h2 - 1) as nat,
    ) by {
        lemma_depth_mono(n.children@[i], (h - 1) as nat, (h2 - 1) as nat);
    }
}

/// Ids already handed their children: no repeats, each a task's id.
spec fn keys_ok(r: Seq<i64>, ts: Seq<TaskModel>) -> bool {
    &&& r.no_duplicates()
    &&& forall|j: int| 0 <= j < r.len() ==> has_id(ts, #[trigger] r[j])
}

/// Each task whose id was handed its children is a root or has its parent's
/// id handed too.
spec fn keys_closed(r: Seq<i64>, ts: Seq<TaskModel>) -> bool {
    forall|j: int|
        0 <= j < ts.len() && r.contains(#[trigger] ts[j].id) ==> (is_root(ts, ts[j]) || (
        ts[j].parent_id matches Some(p) && r.contains(p)))
}

/// Whether some task has id `x` and a parent among `added`.
spec fn child_of_added(ts: Seq<TaskModel>, x: i64, added: Seq<i64>) -> bool {
    exists|j: int|
        0 <= j < ts.len() && ts[j].id == x && (#[trigger] ts[j].parent_id matches Some(y)
            && added.contains(y))
}

/// Each added id is `top`, one of `firsts`, or the id of a task whose parent
/// id was added too.
spec fn keys_descend(added: Seq<i64>, firsts: Seq<i64>, ts: Seq<TaskModel>) -> bool {
    forall|m: int|
        0 <= m < added.len() ==> firsts.contains(#[trigger] added[m]) || child_of_added(
            ts,
            added[m],
            added,
        )
}

/// Under unique ids, `t` has not been built yet and may be.
spec fn fresh(t: TaskModel, r: Seq<i64>, ts: Seq<TaskModel>) -> bool {
    &&& unique_ids(ts)
    &&& ts.contains(t)
    &&& !r.contains(t.id)
    &&& (t.parent_id matches Some(p) ==> (has_id(ts, p) ==> r.contains(p)))
    &&& keys_closed(r, ts)
}

proof fn lemma_keys_len(r: Seq<i64>, ts: Seq<TaskModel>)
    requires
        keys_ok(r, ts),
    ensures
        r.len() <= ts.len(),
{
    let ids = ts.map_values(|t: TaskModel| t.id);
    r.unique_seq_to_set();
    ids.lemma_cardinality_of_set();
    assert forall|x: i64| r.to_set().contains(x) implies ids.to_set().contains(x) by {
        let j = choose|j: int| 0 <= j < r.len() && r[j] == x;
        assert(has_id(ts, r[j]));
        let i = choose|i: int| 0 <= i < ts.len() && ts[i].id == r[j];
        assert(ids[i] == x);
    }
    vstd::seq_lib::seq_to_set_is_finite(ids);
    vstd::set_lib::lemma_len_subset(r.to_set(), ids.to_set());
}

proof fn lemma_unique_same(ts: Seq<TaskModel>, a: TaskModel, b: TaskModel)
    requires
        unique_ids(ts),
        ts.contains(a),
        ts.contains(b),
        a.id == b.id,
    ensures
        a == b,
{
    let i = choose|i: int| 0 <= i < ts.len() && ts[i] == a;
    let j = choose|j: int| 0 <= j < ts.len() && ts[j] == b;
    if i < j {
        assert(ts[i].id != ts[j].id);
    } else if j < i {
        assert(ts[j].id != ts[i].id);
    }
}

proof fn lemma_filter_unique(s: Seq<TaskModel>, p: spec_fn(TaskModel) -> bool)
    requires
        unique_ids(s),
    ensures
        unique_ids(s.filter(p)),
    decreases s.len(),
{
    reveal(Seq::filter);
    if s.len() > 0 {
        let d = s.drop_last();
        assert(unique_ids(d));
        lemma_filter_unique(d, p);
        lemma_filter_subset(d, p);
        let f = d.filter(p);
        if p(s.last()) {
            assert forall|i: int, j: int| 0 <= i < j < f.push(s.last()).len() implies f.push(
                s.last(),
            )[i].id != f.push(s.last())[j].id by {
                if j == f.len() {
                    assert(d.contains(f[i]));
                    let k = choose|k: int| 0 <= k < d.len() && d[k] == f[i];
                    assert(s[k] == f[i]);
                    assert(s[k].id != s[s.len() - 1].id);
                }
            }
        }
    }
}

proof fn lemma_no_dup_split(a: Seq<i64>, b: Seq<i64>, x: i64)
    requires
        (a + b).no_duplicates(),
        a.contains(x),
    ensures
        !b.contains(x),
{
    if b.contains(x) {
        let i = choose|i: int| 0 <= i < a.len() && a[i] == x;
        let j = choose|j: int| 0 <= j < b.len() && b[j] == x;
        assert((a + b)[i] == (a + b)[a.len() + j]);
    }
}

/// Whether `k` occurs in `r`.
fn key_present(r: &Vec<i64>, k: i64) -> (res: bool)
    ensures
        res == r@.contains(k),
{
    let mut i: usize = 0;
    while i < r.len()
        invariant
            i <= r.len(),
            forall|j: int| 0 <= j < i ==> r@[j] != k,
        decreases r.len() - i,
    {
        if r[i] == k {
            return true;
        }
        i += 1;
    }
    false
}

/// Whether some task has id `k`.
fn id_present(tasks: &[Task], k: i64) -> (res: bool)
    ensures
        res == has_id(task_models(tasks@), k),
{
    let ghost ts = task_models(tasks@);
    let mut i: usize = 0;
    while i < tasks.len()
        invariant
            i <= tasks.len(),
            ts == task_models(tasks@),
            forall|j: int| 0 <= j < i ==> ts[j].id != k,
        decreases tasks.len() - i,
    {
        if tasks[i].id == k {
            proof {
                assert(ts[i as int].id == k);
            }
            return true;
        }
        i += 1;
    }
    false
}

/// The tasks whose parent is `k`, in order (copies).
fn children_group(tasks: &[Task], k: i64) -> (res: Vec<Task>)
    ensures
        task_models(res@) == children_of(task_models(tasks@), k),
{
    let ghost ts = task_models(tasks@);
    let mut out: Vec<Task> = Vec::new();
    let mut i: usize = 0;
    proof {
        reveal(Seq::filter);
        assert(task_models(out@) =~= ts.take(0).filter(parent_is(k)));
    }
    while i < tasks.len()
        invariant
            i <= tasks.len(),
            ts == task_models(tasks@),
            task_models(out@) == ts.take(i as int).filter(parent_is(k)),
        decreases tasks.len() - i,
    {
        proof {
            assert(ts.take(i + 1) =~= ts.take(i as int).push(ts[i as int]));
            lemma_filter_push(ts.take(i as int), ts[i as int], parent_is(k));
        }
        if tasks[i].parent_id == Some(k) {
            let c = tasks[i].clone();
            out.push(c);
            proof {
                assert(task_models(out@) =~= ts.take(i as int).filter(parent_is(k)).push(ts[i as int]));
            }
        }
        i += 1;
    }
    proof {
        assert(ts.take(i as int) =~= ts);
    }
    out
}

/// The roots among `tasks`, in order (copies).
fn root_tasks(tasks: &[Task]) -> (res: Vec<Task>)
    ensures
        task_models(res@) == roots_of(task_models(tasks@)),
{
    let ghost ts = task_models(tasks@);
    let mut out: Vec<Task> = Vec::new();
    let mut i: usize = 0;
    proof {
        reveal(Seq::filter);
        assert(task_models(out@) =~= ts.take(0).filter(root_in(ts)));
    }
    while i < tasks.len()
        invariant
            i <= tasks.len(),
            ts == task_models(tasks@),
            task_models(out@) == ts.take(i as int).filter(root_in(ts)),
        decreases tasks.len() - i,
    {
        proof {
            assert(ts.take(i + 1) =~= ts.take(i as int).push(ts[i as int]));
            lemma_filter_push(ts.take(i as int), ts[i as int], root_in(ts));
        }
        let root = match tasks[i].parent_id {
            None => true,
            Some(p) => !id_present(tasks, p),
        };
        if root {
            let c = tasks[i].clone();
            out.push(c);
            proof {
                assert(task_models(out@) =~= ts.take(i as int).filter(root_in(ts)).push(ts[i as int]));
            }
        }
        i += 1;
    }
    proof {
        assert(ts.take(i as int) =~= ts);
    }
    out
}

/// Builds the node of `t`. Its children are the tasks whose parent is
/// `t`'s id, unless that id was already handed its children (recorded in
/// `removed`), in which case it has none.
fn build_node(
    tasks: &[Task],
    t: Task,
    removed: &mut Vec<i64>,
    sorted: bool,
    Ghost(ts): Ghost<Seq<TaskModel>>,
    Ghost(fuel): Ghost<nat>,
) -> (n: TaskNode)
    requires
        ts == task_models(tasks@),
        keys_ok(old(removed)@, ts),
        has_id(ts, t.id),
        ts.len() <= fuel + old(removed)@.len(),
    ensures
        n.task@ == t@,
        tree_model(n) == grow(ts, t@, old(removed)@, fuel, sorted).0,
        final(removed)@ == grow(ts, t@, old(removed)@, fuel, sorted).1,
        sorted ==> tree_ok(n, ts, false),
        sorted && !old(removed)@.contains(t.id) ==> children_ok(n, ts),
        keys_ok(final(removed)@, ts),
        final(removed)@.len() >= old(removed)@.len(),
        final(removed)@.take(old(removed)@.len() as int) == old(removed)@,
        depth_le(n, (final(removed)@.len() - old(removed)@.len() + 1) as nat),
        fresh(t@, old(removed)@, ts) ==> {
            &&& (sorted ==> tree_ok(n, ts, true))
            &&& keys_closed(final(removed)@, ts)
            &&& keys_descend(
                final(removed)@.skip(old(removed)@.len() as int),
                seq![t.id],
                ts,
            )
        },
    decreases ts.len() - old(removed)@.len(),
{
    let ghost old_r = removed@;
    let ghost uniq = fresh(t@, old_r, ts);
    if key_present(removed, t.id) {
        let n = TaskNode { task: t, children: Vec::new() };
        proof {
            assert(forest_model(n.children@) =~= Seq::<TreeModel>::empty());
            assert(removed@.take(old_r.len() as int) =~= old_r);
            assert(node_tasks(n.children@) =~= Seq::<TaskModel>::empty());
        }
        return n;
    }
    removed.push(t.id);
    let ghost r0 = removed@;
    proof {
        assert(r0 == old_r.push(t.id));
        assert(keys_ok(r0, ts)) by {
            assert forall|a: int, b: int| 0 <= a < b < r0.len() implies r0[a] != r0[b] by {
                if b == r0.len() - 1 {
                    assert(old_r.contains(r0[a]));
                }
            }
        }
        lemma_keys_len(r0, ts);
        if uniq {
            assert forall|j: int|
                0 <= j < ts.len() && r0.contains(#[trigger] ts[j].id) implies (is_root(ts, ts[j]) || (
            ts[j].parent_id matches Some(p) && r0.contains(p))) by {
                assert(ts.contains(ts[j]));
                if !old_r.contains(ts[j].id) {
                    assert(ts[j].id == t.id) by {
                        let q = choose|q: int| 0 <= q < r0.len() && r0[q] == ts[j].id;
                        if q < old_r.len() {
                            assert(old_r[q] == r0[q]);
                        }
                    }
                    lemma_unique_same(ts, ts[j], t@);
                    if !is_root(ts, ts[j]) {
                        let p = ts[j].parent_id->0;
                        assert(has_id(ts, p));
                        assert(old_r.contains(p));
                        assert(r0[old_r.index_of(p)] == p);
                    }
                } else {
                    if !is_root(ts, ts[j]) {
                        let p = ts[j].parent_id->0;
                        assert(old_r.contains(p));
                        assert(r0[old_r.index_of(p)] == p);
                    }
                }
            }
        }
    }
    let group = children_group(tasks, t.id);
    let ghost gm = task_models(group@);
    proof {
        lemma_filter_subset(ts, parent_is(t.id));
        if uniq {
            lemma_filter_unique(ts, parent_is(t.id));
        }
    }
    let mut built: Vec<TaskNode> = Vec::new();
    let mut i: usize = 0;
    proof {
        assert(node_tasks(built@) =~= gm.take(0));
        assert(gm.take(0) =~= Seq::<TaskModel>::empty());
        assert(forest_model(built@) =~= Seq::<TreeModel>::empty());
        assert(removed@.skip(r0.len() as int) =~= Seq::<i64>::empty());
        assert(removed@.take(r0.len() as int) =~= r0);
    }
    while i < group.len()
        invariant
            ts == task_models(tasks@),
            gm == task_models(group@),
            gm == children_of(ts, t.id),
            forall|j: int| 0 <= j < gm.len() ==> ts.contains(#[trigger] gm[j]),
            forall|j: int| 0 <= j < gm.len() ==> (#[trigger] gm[j]).parent_id == Some(t.id),
            has_id(ts, t.id),
            uniq ==> unique_ids(gm),
            uniq == fresh(t@, old_r, ts),
            fuel > 0,
            ts.len() <= fuel + old_r.len(),
            forest_model(built@) == grow_all(ts, gm.take(i as int), r0, (fuel - 1) as nat, sorted).0,
            removed@ == grow_all(ts, gm.take(i as int), r0, (fuel - 1) as nat, sorted).1,
            i <= group.len(),
            built@.len() == i,
            node_tasks(built@) == gm.take(i as int),
            sorted ==> forall|j: int| 0 <= j < i ==> tree_ok(#[trigger] built@[j], ts, false),
            forall|j: int|
                0 <= j < i ==> depth_le(
                    #[trigger] built@[j],
                    (removed@.len() - r0.len() + 1) as nat,
                ),
            r0 == old_r.push(t.id),
            old_r == old(removed)@,
            removed@.len() <= ts.len(),
            keys_ok(removed@, ts),
            removed@.len() >= r0.len(),
            removed@.take(r0.len() as int) == r0,
            uniq ==> {
                &&& (sorted ==> forall|j: int| 0 <= j < i ==> tree_ok(#[trigger] built@[j], ts, true))
                &&& keys_closed(removed@, ts)
                &&& keys_descend(
                    removed@.skip(r0.len() as int),
                    gm.take(i as int).map_values(|c: TaskModel| c.id),
                    ts,
                )
            },
        decreases group.len() - i,
    {
        let c = group[i].clone();
        let ghost before = removed@;
        proof {
            assert(gm[i as int] == c@);
            let k = choose|k: int| 0 <= k < ts.len() && ts[k] == c@;
            assert(has_id(ts, ts[k].id));
            assert(removed@ =~= r0 + removed@.skip(r0.len() as int));
            if uniq {
                let e = removed@.skip(r0.len() as int);
                let firsts = gm.take(i as int).map_values(|x: TaskModel| x.id);
                assert(ts.contains(t@));
                // c is no root: its parent t is a task.
                assert(!is_root(ts, c@));
                if old_r.contains(c.id) {
                    assert(old_r.contains(ts[k].id));
                }
                if c.id == t.id {
                    lemma_unique_same(ts, c@, t@);
                }
                if e.contains(c.id) {
                    let m = choose|m: int| 0 <= m < e.len() && e[m] == c.id;
                    if firsts.contains(e[m]) {
                        let q = choose|q: int| 0 <= q < firsts.len() && firsts[q] == e[m];
                        assert(gm[q].id == gm[i as int].id);
                    } else {
                        assert(child_of_added(ts, e[m], e));
                        let jj = choose|jj: int|
                            0 <= jj < ts.len() && ts[jj].id == e[m] && (
                            #[trigger] ts[jj].parent_id matches Some(y) && e.contains(y));
                        lemma_unique_same(ts, ts[jj], c@);
                        assert(r0[old_r.len() as int] == t.id);
                        assert(r0.contains(t.id));
                        lemma_no_dup_split(r0, e, t.id);
                    }
                }
                assert(!removed@.contains(c.id));
                assert(removed@.contains(t.id)) by {
                    assert(removed@[old_r.len() as int] == t.id);
                }
            }
        }
        let child = build_node(tasks, c, removed, sorted, Ghost(ts), Ghost((fuel - 1) as nat));
        proof {
            lemma_keys_len(removed@, ts);
            let added = removed@.len() - r0.len();
            assert forall|j: int| 0 <= j < i implies depth_le(
                #[trigger] built@[j],
                (added + 1) as nat,
            ) by {
                lemma_depth_mono(built@[j], (before.len() - r0.len() + 1) as nat, (added + 1) as nat);
            }
            lemma_depth_mono(child, (removed@.len() - before.len() + 1) as nat, (added + 1) as nat);
            assert(removed@.take(r0.len() as int) =~= before.take(r0.len() as int));
        }
        let ghost built_before = built@;
        built.push(child);
        proof {
            assert(gm.take(i + 1).drop_last() =~= gm.take(i as int));
            assert(gm.take(i + 1).last() == c@);
            lemma_forest_model(built@);
            lemma_forest_model(built_before);
            assert(forest_model(built@) =~= forest_model(built_before).push(tree_model(child)));
            assert(node_tasks(built@) =~= gm.take(i + 1));
            if sorted {
                assert forall|j: int| 0 <= j < i + 1 implies tree_ok(#[trigger] built@[j], ts, false) by {
                    if j < i {
                        assert(built@[j] == built_before[j]);
                    }
                }
            }
            if uniq {
                if sorted {
                    assert forall|j: int| 0 <= j < i + 1 implies tree_ok(#[trigger] built@[j], ts, true) by {
                        if j < i {
                            assert(built@[j] == built_before[j]);
                        }
                    }
                }
                let e0 = before.skip(r0.len() as int);
                let d = removed@.skip(before.len() as int);
                let e1 = removed@.skip(r0.len() as int);
                assert(e1 =~= e0 + d);
                let f0 = gm.take(i as int).map_values(|x: TaskModel| x.id);
                let f1 = gm.take(i + 1).map_values(|x: TaskModel| x.id);
                assert(f1 =~= f0.push(c.id));
                assert forall|m: int| 0 <= m < e1.len() implies f1.contains(#[trigger] e1[m])
                    || child_of_added(ts, e1[m], e1) by {
                    if m < e0.len() {
                        assert(e1[m] == e0[m]);
                        if f0.contains(e0[m]) {
                            let q = choose|q: int| 0 <= q < f0.len() && f0[q] == e0[m];
                            assert(f1[q] == e0[m]);
                        } else {
                            assert(child_of_added(ts, e0[m], e0));
                            let jj = choose|jj: int|
                                0 <= jj < ts.len() && ts[jj].id == e0[m] && (
                                #[trigger] ts[jj].parent_id matches Some(y) && e0.contains(y));
                            let y = ts[jj].parent_id->0;
                            let q = choose|q: int| 0 <= q < e0.len() && e0[q] == y;
                            assert(e1[q] == y);
                        }
                    } else {
                        let mm = m - e0.len();
                        assert(e1[m] == d[mm]);
                        if seq![c.id].contains(d[mm]) {
                            assert(f1[i as int] == c.id);
                        } else {
                            assert(child_of_added(ts, d[mm], d));
                            let jj = choose|jj: int|
                                0 <= jj < ts.len() && ts[jj].id == d[mm] && (
                                #[trigger] ts[jj].parent_id matches Some(y) && d.contains(y));
                            let y = ts[jj].parent_id->0;
                            let q = choose|q: int| 0 <= q < d.len() && d[q] == y;
                            assert(e1[e0.len() + q] == y);
                        }
                    }
                }
            }
        }
        i += 1;
    }
    proof {
        assert(gm.take(i as int) =~= gm);
    }
    let ghost unsorted = built@;
    let kids = if sorted {
        sort_nodes(built)
    } else {
        built
    };
    let n = TaskNode { task: t, children: kids };
    proof {
        let final_r = removed@;
        assert forall|j: int| 0 <= j < n.children@.len() implies (sorted ==> tree_ok(
            #[trigger] n.children@[j],
            ts,
            false,
        )) && depth_le(n.children@[j], (final_r.len() - r0.len() + 1) as nat) && (uniq && sorted
            ==> tree_ok(n.children@[j], ts, true)) by {
            let q = choose|q: int| 0 <= q < unsorted.len() && unsorted[q] == n.children@[j];
            if !sorted {
                assert(unsorted[j] == n.children@[j]);
            }
        }
        if sorted {
            assert(children_ok(n, ts));
        }
        assert(final_r.take(old_r.len() as int) =~= old_r) by {
            assert(final_r.take(r0.len() as int) == r0);
        }
        if uniq {
            let all = final_r.skip(old_r.len() as int);
            let e = final_r.skip(r0.len() as int);
            assert(final_r[old_r.len() as int] == t.id) by {
                assert(final_r.take(r0.len() as int)[old_r.len() as int] == r0[old_r.len() as int]);
            }
            assert(all =~= seq![t.id] + e);
            let firsts = gm.map_values(|x: TaskModel| x.id);
            assert(gm.take(i as int) =~= gm);
            assert forall|m: int| 0 <= m < all.len() implies seq![t.id].contains(#[trigger] all[m])
                || child_of_added(ts, all[m], all) by {
                if m == 0 {
                    assert(seq![t.id][0] == t.id);
                } else {
                    assert(all[m] == e[m - 1]);
                    assert(all[0] == t.id);
                    if firsts.contains(e[m - 1]) {
                        let q = choose|q: int| 0 <= q < firsts.len() && firsts[q] == e[m - 1];
                        let k = choose|k: int| 0 <= k < ts.len() && ts[k] == gm[q];
                        assert(ts[k].id == all[m]);
                        assert(all.contains(t.id));
                    } else {
                        let jj = choose|jj: int|
                            0 <= jj < ts.len() && ts[jj].id == e[m - 1] && (
                            #[trigger] ts[jj].parent_id matches Some(y) && e.contains(y));
                        let y = ts[jj].parent_id->0;
                        let q = choose|q: int| 0 <= q < e.len() && e[q] == y;
                        assert(all[q + 1] == y);
                    }
                }
            }
        }
    }
    n
}

/// What `build_tree` gives for tasks `ts`: exactly `built_forest(ts)`; so
/// the roots of `ts` stably sorted by id, and under each node the tasks
/// whose parent it is, stably sorted by id (where ids repeat, only the first
/// node built with an id has them, the others none); at most one level per
/// task and one more.
pub open spec fn built_from(nodes: Seq<TaskNode>, ts: Seq<TaskModel>) -> bool {
    &&& grown_from(nodes, ts, true)
    &&& stable_sorted(node_tasks(nodes), roots_of(ts))
    &&& forall|i: int| 0 <= i < nodes.len() ==> tree_ok(#[trigger] nodes[i], ts, false)
    &&& unique_ids(ts) ==> forall|i: int| 0 <= i < nodes.len() ==> tree_ok(#[trigger] nodes[i], ts, true)
    &&& forall|i: int| 0 <= i < nodes.len() ==> depth_le(#[trigger] nodes[i], (ts.len() + 1) as nat)
}

/// Tasks whose parent is missing from the list, and tasks without one, stay
/// visible: each is one of the top-level nodes.
pub proof fn law_orphans_stay_visible(nodes: Seq<TaskNode>, ts: Seq<TaskModel>, i: int)
    requires
        built_from(nodes, ts),
        0 <= i < ts.len(),
        is_root(ts, ts[i]),
    ensures
        node_tasks(nodes).contains(ts[i]),
{
    let t = ts[i];
    let r = roots_of(ts);
    ts.lemma_filter_contains(root_in(ts), i);
    let k = choose|k: int| 0 <= k < r.len() && r[k] == t;
    r.lemma_filter_contains(id_is(t.id), k);
    assert(with_id(node_tasks(nodes), t.id) == with_id(r, t.id));
    node_tasks(nodes).lemma_filter_contains_rev(id_is(t.id), t);
}

/// Whether `n` is `root` or a node below it.
pub open spec fn node_in_tree(root: TaskNode, n: TaskNode) -> bool
    decreases root,
{
    root == n || exists|i: int|
        0 <= i < root.children@.len() && node_in_tree(#[trigger] root.children@[i], n)
}

/// Whether `n` is a node of the forest `nodes`.
pub open spec fn node_in_forest(nodes: Seq<TaskNode>, n: TaskNode) -> bool {
    exists|k: int| 0 <= k < nodes.len() && node_in_tree(#[trigger] nodes[k], n)
}

/// The task of `ts` that is `t`'s parent, when `t` is not a root.
pub open spec fn parent_task(ts: Seq<TaskModel>, t: TaskModel) -> TaskModel
    recommends
        !is_root(ts, t),
{
    let j = choose|j: int| 0 <= j < ts.len() && t.parent_id == Some(ts[j].id);
    ts[j]
}

/// Whether following parents from `t`, at most `steps` times, reaches a root
/// of `ts`.
pub open spec fn reaches_root(ts: Seq<TaskModel>, t: TaskModel, steps: nat) -> bool
    decreases steps,
{
    is_root(ts, t) || (steps > 0 && reaches_root(ts, parent_task(ts, t), (steps - 1) as nat))
}

proof fn lemma_tree_ok_below(root: TaskNode, n: TaskNode, ts: Seq<TaskModel>, exact: bool)
    requires
        tree_ok(root, ts, exact),
        node_in_tree(root, n),
    ensures
        tree_ok(n, ts, exact),
    decreases root,
{
    if root != n {
        let i = choose|i: int|
            0 <= i < root.children@.len() && node_in_tree(#[trigger] root.children@[i], n);
        lemma_tree_ok_below(root.children@[i], n, ts, exact);
    }
}

proof fn lemma_child_in_tree(root: TaskNode, n: TaskNode, j: int)
    requires
        node_in_tree(root, n),
        0 <= j < n.children@.len(),
    ensures
        node_in_tree(root, n.children@[j]),
    decreases root,
{
    let c = n.children@[j];
    if root == n {
        assert(node_in_tree(c, c));
        assert(node_in_tree(root.children@[j], c));
    } else {
        let i = choose|i: int|
            0 <= i < root.children@.len() && node_in_tree(#[trigger] root.children@[i], n);
        lemma_child_in_tree(root.children@[i], n, j);
    }
}

/// When ids are unique, every task whose chain of parents ends at a root
/// (no cycle) is shown: some node of the forest holds it.
pub proof fn law_tasks_with_roots_are_shown(
    nodes: Seq<TaskNode>,
    ts: Seq<TaskModel>,
    t: TaskModel,
    steps: nat,
)
    requires
        built_from(nodes, ts),
        unique_ids(ts),
        ts.contains(t),
        reaches_root(ts, t, steps),
    ensures
        exists|n: TaskNode| node_in_forest(nodes, n) && n.task@ == t,
    decreases steps,
{
    if is_root(ts, t) {
        let i = choose|i: int| 0 <= i < ts.len() && ts[i] == t;
        law_orphans_stay_visible(nodes, ts, i);
        let k = choose|k: int| 0 <= k < node_tasks(nodes).len() && node_tasks(nodes)[k] == t;
        assert(node_in_tree(nodes[k], nodes[k]));
        assert(node_in_forest(nodes, nodes[k]));
    } else {
        let p = parent_task(ts, t);
        let j = choose|j: int| 0 <= j < ts.len() && t.parent_id == Some(ts[j].id);
        assert(ts.contains(p));
        law_tasks_with_roots_are_shown(nodes, ts, p, (steps - 1) as nat);
        let n = choose|n: TaskNode| node_in_forest(nodes, n) && n.task@ == p;
        let k = choose|k: int| 0 <= k < nodes.len() && node_in_tree(#[trigger] nodes[k], n);
        assert(tree_ok(nodes[k], ts, true));
        lemma_tree_ok_below(nodes[k], n, ts, true);
        assert(children_ok(n, ts));
        let i = choose|i: int| 0 <= i < ts.len() && ts[i] == t;
        let kids = children_of(ts, p.id);
        assert(parent_is(p.id)(ts[i]));
        ts.lemma_filter_contains(parent_is(p.id), i);
        let m = choose|m: int| 0 <= m < kids.len() && kids[m] == t;
        kids.lemma_filter_contains(id_is(t.id), m);
        let ct = node_tasks(n.children@);
        assert(with_id(ct, t.id) == with_id(kids, t.id));
        ct.lemma_filter_contains_rev(id_is(t.id), t);
        let c = choose|c: int| 0 <= c < ct.len() && ct[c] == t;
        lemma_child_in_tree(nodes[k], n, c);
        assert(node_in_forest(nodes, n.children@[c]));
    }
}

/// Build a tree from a flat task list. Tasks whose parent is not in the
/// provided list (filtered out, for example) are treated as roots so they
/// remain visible.
pub fn build_tree(tasks: &[Task]) -> (nodes: Vec<TaskNode>)
    ensures
        built_from(nodes@, task_models(tasks@)),
{
    build_forest(tasks, true)
}

/// Build a tree from a flat task list keeping the list's order at every
/// level: roots, and each node's children, come as the tasks come in the
/// list.
pub fn build_tree_in_order(tasks: &[Task]) -> (nodes: Vec<TaskNode>)
    ensures
        grown_from(nodes@, task_models(tasks@), false),
{
    build_forest(tasks, false)
}

/// The forest of `tasks`, each level stably sorted by id or kept in list
/// order as `sorted` says.
fn build_forest(tasks: &[Task], sorted: bool) -> (nodes: Vec<TaskNode>)
    ensures
        grown_from(nodes@, task_models(tasks@), sorted),
        sorted ==> built_from(nodes@, task_models(tasks@)),
{
    let ghost ts = task_models(tasks@);
    let ghost uniq = unique_ids(ts);
    let roots = root_tasks(tasks);
    let ghost rm = task_models(roots@);
    proof {
        lemma_filter_subset(ts, root_in(ts));
        if uniq {
            lemma_filter_unique(ts, root_in(ts));
        }
    }
    let mut removed: Vec<i64> = Vec::new();
    let mut nodes: Vec<TaskNode> = Vec::new();
    let mut i: usize = 0;
    proof {
        assert(node_tasks(nodes@) =~= rm.take(0));
        assert(rm.take(0) =~= Seq::<TaskModel>::empty());
        assert(forest_model(nodes@) =~= Seq::<TreeModel>::empty());
        assert(removed@ =~= Seq::<i64>::empty());
    }
    while i < roots.len()
        invariant
            ts == task_models(tasks@),
            rm == task_models(roots@),
            rm == roots_of(ts),
            forall|j: int| 0 <= j < rm.len() ==> ts.contains(#[trigger] rm[j]),
            forall|j: int| 0 <= j < rm.len() ==> is_root(ts, #[trigger] rm[j]),
            uniq == unique_ids(ts),
            uniq ==> unique_ids(rm),
            i <= roots.len(),
            nodes@.len() == i,
            node_tasks(nodes@) == rm.take(i as int),
            keys_ok(removed@, ts),
            forest_model(nodes@) == grow_all(ts, rm.take(i as int), Seq::empty(), ts.len(), sorted).0,
            removed@ == grow_all(ts, rm.take(i as int), Seq::empty(), ts.len(), sorted).1,
            sorted ==> forall|j: int| 0 <= j < i ==> tree_ok(#[trigger] nodes@[j], ts, false),
            forall|j: int| 0 <= j < i ==> depth_le(#[trigger] nodes@[j], (removed@.len() + 1) as nat),
            uniq ==> {
                &&& (sorted ==> forall|j: int| 0 <= j < i ==> tree_ok(#[trigger] nodes@[j], ts, true))
                &&& keys_closed(removed@, ts)
                &&& keys_descend(
                    removed@,
                    rm.take(i as int).map_values(|c: TaskModel| c.id),
                    ts,
                )
            },
        decreases roots.len() - i,
    {
        let r = roots[i].clone();
        let ghost before = removed@;
        proof {
            assert(rm[i as int] == r@);
            let k = choose|k: int| 0 <= k < ts.len() && ts[k] == r@;
            assert(has_id(ts, ts[k].id));
            if uniq {
                let firsts = rm.take(i as int).map_values(|x: TaskModel| x.id);
                if removed@.contains(r.id) {
                    let m = choose|m: int| 0 <= m < removed@.len() && removed@[m] == r.id;
                    if firsts.contains(removed@[m]) {
                        let q = choose|q: int| 0 <= q < firsts.len() && firsts[q] == removed@[m];
                        assert(rm[q].id == rm[i as int].id);
                    } else {
                        let jj = choose|jj: int|
                            0 <= jj < ts.len() && ts[jj].id == removed@[m] && (
                            #[trigger] ts[jj].parent_id matches Some(y) && removed@.contains(y));
                        lemma_unique_same(ts, ts[jj], r@);
                        let y = ts[jj].parent_id->0;
                        let q = choose|q: int| 0 <= q < removed@.len() && removed@[q] == y;
                        assert(has_id(ts, removed@[q]));
                    }
                }
            }
        }
        let node = build_node(tasks, r, &mut removed, sorted, Ghost(ts), Ghost(ts.len()));
        proof {
            assert forall|j: int| 0 <= j < i implies depth_le(
                #[trigger] nodes@[j],
                (removed@.len() + 1) as nat,
            ) by {
                lemma_depth_mono(nodes@[j], (before.len() + 1) as nat, (removed@.len() + 1) as nat);
            }
            lemma_depth_mono(node, (removed@.len() - before.len() + 1) as nat, (removed@.len() + 1) as nat);
        }
        let ghost nodes_before = nodes@;
        nodes.push(node);
        proof {
            assert(rm.take(i + 1).drop_last() =~= rm.take(i as int));
            assert(rm.take(i + 1).last() == r@);
            lemma_forest_model(nodes@);
            lemma_forest_model(nodes_before);
            assert(forest_model(nodes@) =~= forest_model(nodes_before).push(tree_model(node)));
            assert(node_tasks(nodes@) =~= rm.take(i + 1));
            if sorted {
                assert forall|j: int| 0 <= j < i + 1 implies tree_ok(#[trigger] nodes@[j], ts, false) by {
                    if j < i {
                        assert(nodes@[j] == nodes_before[j]);
                    }
                }
            }
            if uniq {
                if sorted {
                    assert forall|j: int| 0 <= j < i + 1 implies tree_ok(#[trigger] nodes@[j], ts, true) by {
                        if j < i {
                            assert(nodes@[j] == nodes_before[j]);
                        }
                    }
                }
                let d = removed@.skip(before.len() as int);
                assert(removed@ =~= before + d);
                let f0 = rm.take(i as int).map_values(|x: TaskModel| x.id);
                let f1 = rm.take(i + 1).map_values(|x: TaskModel| x.id);
                assert(f1 =~= f0.push(r.id));
                assert forall|m: int| 0 <= m < removed@.len() implies f1.contains(
                    #[trigger] removed@[m],
                ) || child_of_added(ts, removed@[m], removed@) by {
                    if m < before.len() {
                        assert(removed@[m] == before[m]);
                        if f0.contains(before[m]) {
                            let q = choose|q: int| 0 <= q < f0.len() && f0[q] == before[m];
                            assert(f1[q] == before[m]);
                        } else {
                            let jj = choose|jj: int|
                                0 <= jj < ts.len() && ts[jj].id == before[m] && (
                                #[trigger] ts[jj].parent_id matches Some(y) && before.contains(y));
                            let y = ts[jj].parent_id->0;
                            let q = choose|q: int| 0 <= q < before.len() && before[q] == y;
                            assert(removed@[q] == y);
                        }
                    } else {
                        let mm = m - before.len();
                        assert(removed@[m] == d[mm]);
                        if seq![r.id].contains(d[mm]) {
                            assert(f1[i as int] == r.id);
                        } else {
                            let jj = choose|jj: int|
                                0 <= jj < ts.len() && ts[jj].id == d[mm] && (
                                #[trigger] ts[jj].parent_id matches Some(y) && d.contains(y));
                            let y = ts[jj].parent_id->0;
                            let q = choose|q: int| 0 <= q < d.len() && d[q] == y;
                            assert(removed@[before.len() + q] == y);
                        }
                    }
                }
            }
        }
        i += 1;
    }
    proof {
        assert(rm.take(i as int) =~= rm);
        lemma_keys_len(removed@, ts);
    }
    let ghost unsorted = nodes@;
    let out = if sorted {
        sort_nodes(nodes)
    } else {
        nodes
    };
    proof {
        assert forall|j: int| 0 <= j < out@.len() implies (sorted ==> tree_ok(
            #[trigger] out@[j],
            ts,
            false,
        )) && depth_le(out@[j], (ts.len() + 1) as nat) && (uniq && sorted ==> tree_ok(
            out@[j],
            ts,
            true,
        )) by {
            let q = choose|q: int| 0 <= q < unsorted.len() && unsorted[q] == out@[j];
            if !sorted {
                assert(unsorted[j] == out@[j]);
            }
            lemma_depth_mono(unsorted[q], (removed@.len() + 1) as nat, (ts.len() + 1) as nat);
        }
    }
    out
}

// ---------------------------------------------------------------------
// Flattening the tree
// ---------------------------------------------------------------------

/// Whether the task with this id is shown expanded: as recorded, and
/// expanded where nothing is recorded.
pub open spec fn expanded_in(exp: Map<i64, bool>, id: i64) -> bool {
    if exp.contains_key(id) {
        exp[id]
    } else {
        true
    }
}

/// The row of node `n` at `depth`.
pub open spec fn row_of(n: TaskNode, depth: int, exp: Map<i64, bool>) -> FlatRowModel {
    FlatRowModel {
        task: n.task@,
        depth,
        has_children: n.children@.len() > 0,
        expanded: expanded_in(exp, n.task.id),
    }
}

/// The rows of a forest in pre-order; the children of a node that is not
/// expanded are left out.
pub open spec fn flat_forest(ns: Seq<TaskNode>, depth: int, exp: Map<i64, bool>) -> Seq<
    FlatRowModel,
>
    decreases ns,
{
    if ns.len() == 0 {
        Seq::empty()
    } else {
        flat_node(ns[0], depth, exp) + flat_forest(ns.drop_first(), depth, exp)
    }
}

/// The rows of the tree rooted at `n`: its own row, then, if it is
/// expanded, the rows of its children one level deeper.
pub open spec fn flat_node(n: TaskNode, depth: int, exp: Map<i64, bool>) -> Seq<FlatRowModel>
    decreases n,
{
    seq![row_of(n, depth, exp)] + (if expanded_in(exp, n.task.id) {
        flat_forest(n.children@, depth + 1, exp)
    } else {
        Seq::empty()
    })
}

/// The rows of a forest depend only on its value.
pub proof fn lemma_flat_forest_model(a: Seq<TaskNode>, b: Seq<TaskNode>, depth: int, exp: Map<i64, bool>)
    requires
        forest_model(a) == forest_model(b),
    ensures
        flat_forest(a, depth, exp) == flat_forest(b, depth, exp),
    decreases a,
{
    lemma_forest_model(a);
    lemma_forest_model(b);
    if a.len() > 0 {
        let x = a[0];
        let y = b[0];
        assert(b.len() > 0);
        assert(forest_model(a)[0] == tree_model(x));
        assert(forest_model(b)[0] == tree_model(y));
        assert(tree_model(x) == tree_model(y));
        lemma_flat_forest_model(x.children@, y.children@, depth + 1, exp);
        lemma_forest_model(a.drop_first());
        lemma_forest_model(b.drop_first());
        assert(forest_model(a.drop_first()) =~= forest_model(b.drop_first())) by {
            assert forall|i: int| 0 <= i < a.len() - 1 implies forest_model(a.drop_first())[i]
                == forest_model(b.drop_first())[i] by {
                assert(a.drop_first()[i] == a[i + 1]);
                assert(b.drop_first()[i] == b[i + 1]);
                assert(forest_model(a)[i + 1] == tree_model(a[i + 1]));
                assert(forest_model(b)[i + 1] == tree_model(b[i + 1]));
                assert(forest_model(a.drop_first())[i] == tree_model(a.drop_first()[i]));
                assert(forest_model(b.drop_first())[i] == tree_model(b.drop_first()[i]));
            }
        }
        lemma_flat_forest_model(a.drop_first(), b.drop_first(), depth, exp);
        assert(flat_node(x, depth, exp) == flat_node(y, depth, exp));
    }
}

/// The rows of a task list are fixed by the list: any two forests built
/// the same way from the same tasks show the same rows under any expanded
/// states.
pub proof fn law_rows_fixed_by_tasks(
    a: Seq<TaskNode>,
    b: Seq<TaskNode>,
    ts: Seq<TaskModel>,
    sorted: bool,
    exp: Map<i64, bool>,
)
    requires
        grown_from(a, ts, sorted),
        grown_from(b, ts, sorted),
    ensures
        flat_forest(a, 0, exp) == flat_forest(b, 0, exp),
{
    lemma_flat_forest_model(a, b, 0, exp);
}

proof fn lemma_parents_split(ns: Seq<TaskNode>, k: i64)
    requires
        ns.len() > 0,
    ensures
        parents_with_id(forest_model(ns), k) == parents_in_tree(tree_model(ns[0]), k)
            + parents_with_id(forest_model(ns.drop_first()), k),
        parents_in_tree(tree_model(ns[0]), k) == (if ns[0].task.id == k && ns[0].children@.len()
            > 0 {
            1nat
        } else {
            0nat
        }) + parents_with_id(forest_model(ns[0].children@), k),
{
    let f = forest_model(ns);
    assert(f =~= seq![tree_model(ns[0])] + forest_model(ns.drop_first()));
    assert(f[0] == tree_model(ns[0]));
    assert(f.drop_first() =~= forest_model(ns.drop_first()));
    lemma_forest_model(ns[0].children@);
}

/// Two rows in the same place: same task, depth and children (the shown
/// expanded state may differ).
pub open spec fn same_row_shape(x: FlatRowModel, y: FlatRowModel) -> bool {
    x.task == y.task && x.depth == y.depth && x.has_children == y.has_children
}

/// Where no node with id `k` has children, the expanded state recorded for
/// `k` changes no row but for the expanded state it shows.
proof fn lemma_flat_len_same(ns: Seq<TaskNode>, d: int, exp: Map<i64, bool>, k: i64, v: bool)
    requires
        parents_with_id(forest_model(ns), k) == 0,
    ensures
        flat_forest(ns, d, exp.insert(k, v)).len() == flat_forest(ns, d, exp).len(),
        forall|j: int|
            0 <= j < flat_forest(ns, d, exp).len() ==> same_row_shape(
                #[trigger] flat_forest(ns, d, exp.insert(k, v))[j],
                flat_forest(ns, d, exp)[j],
            ),
    decreases ns,
{
    if ns.len() > 0 {
        let n = ns[0];
        let e2 = exp.insert(k, v);
        lemma_parents_split(ns, k);
        lemma_flat_len_same(ns.drop_first(), d, exp, k, v);
        lemma_flat_len_same(n.children@, d + 1, exp, k, v);
        if n.task.id == k {
            assert(n.children@.len() == 0);
            assert(flat_forest(n.children@, d + 1, e2).len() == 0);
            assert(flat_forest(n.children@, d + 1, exp).len() == 0);
        } else {
            assert(expanded_in(e2, n.task.id) == expanded_in(exp, n.task.id));
        }
        let a = flat_node(n, d, exp);
        let a2 = flat_node(n, d, e2);
        let r = flat_forest(ns.drop_first(), d, exp);
        let r2 = flat_forest(ns.drop_first(), d, e2);
        assert(a.len() == a2.len());
        assert(flat_forest(ns, d, exp) == a + r);
        assert(flat_forest(ns, d, e2) == a2 + r2);
        assert forall|j: int| 0 <= j < flat_forest(ns, d, exp).len() implies same_row_shape(
            #[trigger] flat_forest(ns, d, e2)[j],
            flat_forest(ns, d, exp)[j],
        ) by {
            if j < a.len() {
                if j > 0 {
                    let kids = flat_forest(n.children@, d + 1, exp);
                    let kids2 = flat_forest(n.children@, d + 1, e2);
                    assert(expanded_in(exp, n.task.id));
                    assert(a == seq![row_of(n, d, exp)] + kids);
                    assert(a2 == seq![row_of(n, d, e2)] + kids2);
                    assert(a[j] == kids[j - 1]);
                    assert(a2[j] == kids2[j - 1]);
                }
            } else {
                assert(flat_forest(ns, d, exp)[j] == r[j - a.len()]);
                assert(flat_forest(ns, d, e2)[j] == r2[j - a.len()]);
            }
        }
    }
}

/// A row showing a node with children and id `k` comes from such a node.
proof fn lemma_row_from_parent(ns: Seq<TaskNode>, d: int, exp: Map<i64, bool>, c: int)
    requires
        0 <= c < flat_forest(ns, d, exp).len(),
        flat_forest(ns, d, exp)[c].has_children,
    ensures
        parents_with_id(forest_model(ns), flat_forest(ns, d, exp)[c].task.id) >= 1,
    decreases ns,
{
    let rows = flat_forest(ns, d, exp);
    let k = rows[c].task.id;
    let n = ns[0];
    let f0 = flat_node(n, d, exp);
    let rest = flat_forest(ns.drop_first(), d, exp);
    assert(rows == f0 + rest);
    lemma_parents_split(ns, k);
    if c < f0.len() {
        if c == 0 {
            assert(f0[0] == row_of(n, d, exp));
        } else {
            let kids = flat_forest(n.children@, d + 1, exp);
            assert(expanded_in(exp, n.task.id));
            assert(f0 == seq![row_of(n, d, exp)] + kids);
            assert(rows[c] == kids[c - 1]);
            lemma_row_from_parent(n.children@, d + 1, exp, c - 1);
        }
    } else {
        assert(rows[c] == rest[c - f0.len()]);
        lemma_row_from_parent(ns.drop_first(), d, exp, c - f0.len());
    }
}

/// Where at most one node with id `k` has children, collapsing or
/// expanding `k` from a row showing that node keeps that row and every row
/// before it in place.
proof fn lemma_flat_len_keeps(ns: Seq<TaskNode>, d: int, exp: Map<i64, bool>, c: int, v: bool)
    requires
        0 <= c < flat_forest(ns, d, exp).len(),
        flat_forest(ns, d, exp)[c].has_children,
        parents_with_id(forest_model(ns), flat_forest(ns, d, exp)[c].task.id) <= 1,
    ensures
        c < flat_forest(ns, d, exp.insert(flat_forest(ns, d, exp)[c].task.id, v)).len(),
        forall|j: int|
            0 <= j <= c ==> same_row_shape(
                #[trigger] flat_forest(ns, d, exp.insert(flat_forest(ns, d, exp)[c].task.id, v))[j],
                flat_forest(ns, d, exp)[j],
            ),
    decreases ns,
{
    let rows = flat_forest(ns, d, exp);
    let k = rows[c].task.id;
    let e2 = exp.insert(k, v);
    let n = ns[0];
    let f0 = flat_node(n, d, exp);
    let f2 = flat_node(n, d, e2);
    let rest = flat_forest(ns.drop_first(), d, exp);
    let rest2 = flat_forest(ns.drop_first(), d, e2);
    let new_rows = flat_forest(ns, d, e2);
    assert(rows == f0 + rest);
    lemma_parents_split(ns, k);
    assert(new_rows == f2 + rest2);
    if c < f0.len() {
        if c > 0 {
            let kids = flat_forest(n.children@, d + 1, exp);
            let kids2 = flat_forest(n.children@, d + 1, e2);
            assert(expanded_in(exp, n.task.id));
            assert(f0 == seq![row_of(n, d, exp)] + kids);
            assert(rows[c] == kids[c - 1]);
            lemma_row_from_parent(n.children@, d + 1, exp, c - 1);
            assert(n.children@.len() > 0);
            assert(n.task.id != k);
            assert(expanded_in(e2, n.task.id));
            lemma_flat_len_keeps(n.children@, d + 1, exp, c - 1, v);
            assert(f2 == seq![row_of(n, d, e2)] + kids2);
            assert forall|j: int| 0 <= j <= c implies same_row_shape(
                #[trigger] new_rows[j],
                rows[j],
            ) by {
                if j > 0 {
                    assert(rows[j] == kids[j - 1]);
                    assert(new_rows[j] == kids2[j - 1]);
                }
            }
        } else {
            assert(new_rows[0] == f2[0]);
            assert(rows[0] == f0[0]);
        }
    } else {
        assert(rows[c] == rest[c - f0.len()]);
        lemma_row_from_parent(ns.drop_first(), d, exp, c - f0.len());
        lemma_parents_split(seq![n], k);
        assert(seq![n].drop_first() =~= Seq::<TaskNode>::empty());
        assert(forest_model(Seq::<TaskNode>::empty()) =~= Seq::<TreeModel>::empty());
        lemma_flat_len_same(seq![n], d, exp, k, v);
        assert(flat_forest(seq![n], d, exp) == f0 + flat_forest(seq![n].drop_first(), d, exp));
        assert(flat_forest(seq![n], d, e2) == f2 + flat_forest(seq![n].drop_first(), d, e2));
        assert(flat_forest(seq![n], d, exp) =~= f0);
        assert(flat_forest(seq![n], d, e2) =~= f2);
        lemma_flat_len_keeps(ns.drop_first(), d, exp, c - f0.len(), v);
        assert forall|j: int| 0 <= j <= c implies same_row_shape(
            #[trigger] new_rows[j],
            rows[j],
        ) by {
            if j < f0.len() {
                assert(rows[j] == f0[j]);
                assert(new_rows[j] == f2[j]);
                assert(f0[j] == flat_forest(seq![n], d, exp)[j]);
            } else {
                assert(rows[j] == rest[j - f0.len()]);
                assert(new_rows[j] == rest2[j - f0.len()]);
            }
        }
    }
}

/// Collapsing or expanding the row under the cursor (one with children)
/// keeps that row and every row before it in place: the cursor stays on the
/// same row, also where task ids repeat.
pub proof fn law_toggle_keeps_cursor_on_a_row(
    nodes: Seq<TaskNode>,
    ts: Seq<TaskModel>,
    sorted: bool,
    exp: Map<i64, bool>,
    c: int,
    v: bool,
)
    requires
        grown_from(nodes, ts, sorted),
        0 <= c < flat_forest(nodes, 0, exp).len(),
        flat_forest(nodes, 0, exp)[c].has_children,
    ensures
        c < flat_forest(nodes, 0, exp.insert(flat_forest(nodes, 0, exp)[c].task.id, v)).len(),
        forall|j: int|
            0 <= j <= c ==> same_row_shape(
                #[trigger] flat_forest(nodes, 0, exp.insert(flat_forest(nodes, 0, exp)[c].task.id, v))[j],
                flat_forest(nodes, 0, exp)[j],
            ),
{
    law_one_parent_node_per_id(nodes, ts, sorted, flat_forest(nodes, 0, exp)[c].task.id);
    lemma_flat_len_keeps(nodes, 0, exp, c, v);
}

/// Whether every task of `ts` is a root: none has its parent among them.
pub open spec fn all_roots(ts: Seq<TaskModel>) -> bool {
    forall|i: int| 0 <= i < ts.len() ==> is_root(ts, #[trigger] ts[i])
}

/// The trees of `cs` as leaves, in order.
pub open spec fn leaves(cs: Seq<TaskModel>) -> Seq<TreeModel> {
    Seq::new(cs.len(), |i: int| TreeModel { task: cs[i], children: Seq::empty() })
}

proof fn lemma_no_children(ts: Seq<TaskModel>, k: i64)
    requires
        all_roots(ts),
        has_id(ts, k),
    ensures
        children_of(ts, k) == Seq::<TaskModel>::empty(),
{
    assert forall|i: int| 0 <= i < ts.len() implies !parent_is(k)(#[trigger] ts[i]) by {
        assert(is_root(ts, ts[i]));
    }
    lemma_filter_empty(ts, parent_is(k));
}

proof fn lemma_grow_all_leaves(
    ts: Seq<TaskModel>,
    cs: Seq<TaskModel>,
    r: Seq<i64>,
    fuel: nat,
    sorted: bool,
)
    requires
        all_roots(ts),
        forall|i: int| 0 <= i < cs.len() ==> has_id(ts, #[trigger] cs[i].id),
    ensures
        grow_all(ts, cs, r, fuel, sorted).0 == leaves(cs),
    decreases cs.len(),
{
    if cs.len() > 0 {
        let d = cs.drop_last();
        assert forall|i: int| 0 <= i < d.len() implies has_id(ts, #[trigger] d[i].id) by {
            assert(d[i] == cs[i]);
        }
        lemma_grow_all_leaves(ts, d, r, fuel, sorted);
        let r1 = grow_all(ts, d, r, fuel, sorted).1;
        let t = cs.last();
        assert(has_id(ts, cs[cs.len() - 1].id));
        if !(r1.contains(t.id) || fuel == 0) {
            lemma_no_children(ts, t.id);
            let kids = grow_all(ts, children_of(ts, t.id), r1.push(t.id), (fuel - 1) as nat, sorted);
            assert(kids.0 == Seq::<TreeModel>::empty());
            assert(sort_by_id(Seq::<TreeModel>::empty()) == Seq::<TreeModel>::empty());
        }
        assert(grow(ts, t, r1, fuel, sorted).0 == TreeModel { task: t, children: Seq::empty() });
        assert(leaves(d).push(TreeModel { task: t, children: Seq::empty() }) =~= leaves(cs));
    }
}

/// The rows of a forest of leaves: one row per node, in order.
proof fn lemma_flat_leaves(ns: Seq<TaskNode>, d: int, exp: Map<i64, bool>)
    requires
        forall|i: int| 0 <= i < ns.len() ==> (#[trigger] ns[i]).children@.len() == 0,
    ensures
        flat_forest(ns, d, exp).len() == ns.len(),
        forall|i: int| 0 <= i < ns.len() ==> #[trigger] flat_forest(ns, d, exp)[i] == row_of(ns[i], d, exp),
    decreases ns.len(),
{
    if ns.len() > 0 {
        let rest = ns.drop_first();
        assert forall|i: int| 0 <= i < rest.len() implies (#[trigger] rest[i]).children@.len() == 0 by {
            assert(rest[i] == ns[i + 1]);
        }
        lemma_flat_leaves(rest, d, exp);
        let n = ns[0];
        assert(n.children@ =~= Seq::<TaskNode>::empty());
        assert(flat_forest(n.children@, d + 1, exp) =~= Seq::<FlatRowModel>::empty());
        assert(flat_node(n, d, exp) =~= seq![row_of(n, d, exp)]);
        assert forall|i: int| 0 <= i < ns.len() implies #[trigger] flat_forest(ns, d, exp)[i] == row_of(
            ns[i],
            d,
            exp,
        ) by {
            if i > 0 {
                assert(rest[i - 1] == ns[i]);
            }
        }
    }
}

/// Kept in list order, a list none of whose tasks is the parent of another
/// shows one top-level row per task, in the list's order.
pub proof fn law_in_order_roots_keep_order(
    nodes: Seq<TaskNode>,
    ts: Seq<TaskModel>,
    exp: Map<i64, bool>,
)
    requires
        grown_from(nodes, ts, false),
        all_roots(ts),
    ensures
        flat_forest(nodes, 0, exp).len() == ts.len(),
        forall|i: int|
            0 <= i < ts.len() ==> {
                let row = #[trigger] flat_forest(nodes, 0, exp)[i];
                &&& row.task == ts[i]
                &&& row.depth == 0
                &&& !row.has_children
            },
{
    assert forall|i: int| 0 <= i < ts.len() implies root_in(ts)(#[trigger] ts[i]) by {}
    lemma_filter_all(ts, root_in(ts));
    assert forall|i: int| 0 <= i < ts.len() implies has_id(ts, #[trigger] ts[i].id) by {}
    lemma_grow_all_leaves(ts, ts, Seq::empty(), ts.len(), false);
    lemma_forest_model(nodes);
    assert forall|i: int| 0 <= i < nodes.len() implies (#[trigger] nodes[i]).children@.len() == 0 by {
        assert(forest_model(nodes)[i] == tree_model(nodes[i]));
        assert(leaves(ts)[i].children.len() == 0);
        lemma_forest_model(nodes[i].children@);
    }
    lemma_flat_leaves(nodes, 0, exp);
    assert forall|i: int| 0 <= i < ts.len() implies (#[trigger] flat_forest(nodes, 0, exp)[i]).task
        == ts[i] by {
        assert(forest_model(nodes)[i] == tree_model(nodes[i]));
        assert(leaves(ts)[i].task == ts[i]);
    }
}

fn is_expanded(expanded: &HashMap<i64, bool>, id: i64) -> (res: bool)
    ensures
        res == expanded_in(expanded@, id),
{
    match expanded.get(&id) {
        Some(b) => *b,
        None => true,
    }
}

fn walk(
    nodes: &[TaskNode],
    depth: usize,
    expanded: &HashMap<i64, bool>,
    out: &mut Vec<FlatRow>,
    Ghost(h): Ghost<nat>,
)
    requires
        forall|i: int| 0 <= i < nodes@.len() ==> depth_le(#[trigger] nodes@[i], h),
        depth + h <= usize::MAX + 1,
    ensures
        row_models(final(out)@) == row_models(old(out)@) + flat_forest(nodes@, depth as int, expanded@),
    decreases nodes@,
{
    let ghost start = row_models(out@);
    let mut i: usize = 0;
    proof {
        assert(nodes@.skip(0) =~= nodes@);
        assert(row_models(out@) + flat_forest(nodes@, depth as int, expanded@) =~= start + flat_forest(
            nodes@,
            depth as int,
            expanded@,
        ));
    }
    while i < nodes.len()
        invariant
            i <= nodes@.len(),
            forall|j: int| 0 <= j < nodes@.len() ==> depth_le(#[trigger] nodes@[j], h),
            depth + h <= usize::MAX + 1,
            row_models(out@) + flat_forest(nodes@.skip(i as int), depth as int, expanded@) == start
                + flat_forest(nodes@, depth as int, expanded@),
        decreases nodes@.len() - i,
    {
        let n = &nodes[i];
        let exp = is_expanded(expanded, n.task.id);
        let ghost before = row_models(out@);
        let ghost rest = nodes@.skip(i as int);
        proof {
            assert(rest[0] == *n);
            assert(rest.drop_first() =~= nodes@.skip(i + 1));
        }
        out.push(
            FlatRow {
                task: n.task.clone(),
                depth,
                has_children: n.children.len() > 0,
                expanded: exp,
            },
        );
        proof {
            assert(row_models(out@) =~= before.push(row_of(*n, depth as int, expanded@)));
        }
        if exp && n.children.len() > 0 {
            proof {
                assert(depth_le(*n, h));
                assert(depth_le(n.children@[0], (h - 1) as nat));
            }
            walk(n.children.as_slice(), depth + 1, expanded, out, Ghost((h - 1) as nat));
        }
        proof {
            let fr = flat_node(*n, depth as int, expanded@);
            if !(exp && n.children@.len() > 0) {
                if exp {
                    assert(n.children@ =~= Seq::<TaskNode>::empty());
                    assert(flat_forest(n.children@, depth + 1, expanded@) =~= Seq::<FlatRowModel>::empty());
                }
                assert(fr =~= seq![row_of(*n, depth as int, expanded@)]);
                assert(row_models(out@) =~= before + fr);
            } else {
                assert(row_models(out@) =~= before + fr);
            }
            assert(flat_forest(rest, depth as int, expanded@) == fr + flat_forest(
                nodes@.skip(i + 1),
                depth as int,
                expanded@,
            ));
            assert(before + flat_forest(rest, depth as int, expanded@) =~= row_models(out@)
                + flat_forest(nodes@.skip(i + 1), depth as int, expanded@));
        }
        i += 1;
    }
}

/// Flatten a tree honoring per-task expanded state. If a task id is not in
/// `expanded`, it defaults to expanded.
pub fn flatten_tree(nodes: &[TaskNode], expanded: &HashMap<i64, bool>) -> (rows: Vec<FlatRow>)
    requires
        forall|i: int|
            0 <= i < nodes@.len() ==> depth_le(#[trigger] nodes@[i], (usize::MAX + 1) as nat),
    ensures
        row_models(rows@) == flat_forest(nodes@, 0, expanded@),
{
    let mut out: Vec<FlatRow> = Vec::new();
    walk(nodes, 0, expanded, &mut out, Ghost((usize::MAX + 1) as nat));
    proof {
        assert(row_models(Seq::<FlatRow>::empty()) =~= Seq::<FlatRowModel>::empty());
        assert(Seq::<FlatRowModel>::empty() + flat_forest(nodes@, 0, expanded@) =~= flat_forest(
            nodes@,
            0,
            expanded@,
        ));
    }
    out
}

} // verus!
