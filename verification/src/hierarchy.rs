//! The project hierarchy as a mathematical object: parent links, child lists and
//! bounded reachability, with the lemmas that the traversals rest on.

use vstd::prelude::*;
use crate::types::{Project, ProjectNode};

verus! {

/// The parent a project hangs under: its `parent_project_id` unless that is absent or zero.
pub open spec fn parent_of(p: Project) -> Option<i64> {
    match p.parent_project_id {
        Some(id) => if id != 0 { Some(id) } else { None },
        None => None,
    }
}

/// Ids of the projects of `ps` whose parent is `parent` (`None`: top-level projects), in list order.
pub open spec fn ids_under(ps: Seq<Project>, parent: Option<i64>) -> Seq<i64>
    decreases ps.len(),
{
    if ps.len() == 0 {
        seq![]
    } else {
        let rest = ids_under(ps.drop_last(), parent);
        if parent_of(ps.last()) == parent {
            rest.push(ps.last().id)
        } else {
            rest
        }
    }
}

/// Ids of the direct sub-projects of `parent`, in list order.
pub open spec fn child_ids(ps: Seq<Project>, parent: i64) -> Seq<i64> {
    ids_under(ps, Some(parent))
}

/// The child relation that a project list defines.
pub open spec fn project_children(ps: Seq<Project>) -> spec_fn(i64) -> Seq<i64> {
    |p: i64| child_ids(ps, p)
}

/// The child relation that a child map defines.
pub open spec fn map_children(m: Map<i64, Vec<i64>>) -> spec_fn(i64) -> Seq<i64> {
    |p: i64| kids(m, p)
}

/// The children listed for `p` in a child map (none when `p` is not a key).
pub open spec fn kids(m: Map<i64, Vec<i64>>, p: i64) -> Seq<i64> {
    if m.contains_key(p) {
        m[p]@
    } else {
        seq![]
    }
}

/// `y` is `root`, or is reached from `root` along at most `d` parent-to-child links of `ch`.
pub open spec fn reachable_within(ch: spec_fn(i64) -> Seq<i64>, root: i64, y: i64, d: nat) -> bool
    decreases d,
{
    if y == root {
        true
    } else if d == 0 {
        false
    } else {
        let e = (d - 1) as nat;
        exists|p: i64| #[trigger] ch(p).contains(y) && reachable_within(ch, root, p, e)
    }
}

/// `y` is `root` or lies somewhere below it, at any depth.
pub open spec fn reachable(ch: spec_fn(i64) -> Seq<i64>, root: i64, y: i64) -> bool {
    exists|d: nat| #[trigger] reachable_within(ch, root, y, d)
}

/// A set that holds `root` and, with each of its ids, all the children of that id, holds
/// everything reachable from `root`.
pub proof fn lemma_closed_holds_reachable(ch: spec_fn(i64) -> Seq<i64>, root: i64, s: Set<i64>, y: i64, d: nat)
    requires
        s.contains(root),
        forall|x: i64, c: i64| #[trigger] s.contains(x) && #[trigger] ch(x).contains(c) ==> s.contains(c),
        reachable_within(ch, root, y, d),
    ensures
        s.contains(y),
    decreases d,
{
    if y != root {
        let p = choose|p: i64| #[trigger] ch(p).contains(y) && reachable_within(ch, root, p, (d - 1) as nat);
        lemma_closed_holds_reachable(ch, root, s, p, (d - 1) as nat);
    }
}

/// No id is listed among the children of two different parents.
pub open spec fn single_parent(ch: spec_fn(i64) -> Seq<i64>) -> bool {
    forall|p: i64, q: i64, c: i64|
        #[trigger] ch(p).contains(c) && #[trigger] ch(q).contains(c) ==> p == q
}

/// Every id listed as a child somewhere in `m`.
pub open spec fn listed(m: Map<i64, Vec<i64>>) -> Set<i64> {
    Set::new(|y: i64| exists|p: i64| #[trigger] kids(m, p).contains(y))
}

/// Ids listed as children of one of `keys`.
pub open spec fn listed_under(m: Map<i64, Vec<i64>>, keys: Set<i64>) -> Set<i64> {
    Set::new(|y: i64| exists|p: i64| keys.contains(p) && #[trigger] kids(m, p).contains(y))
}

proof fn lemma_listed_under_finite(m: Map<i64, Vec<i64>>, keys: Set<i64>)
    requires
        keys.finite(),
    ensures
        listed_under(m, keys).finite(),
    decreases keys.len(),
{
    broadcast use vstd::set::group_set_axioms, vstd::seq_lib::seq_to_set_is_finite;
    if keys.len() == 0 {
        assert(listed_under(m, keys) =~= Set::empty()) by {
            assert forall|y: i64| !listed_under(m, keys).contains(y) by {
                if listed_under(m, keys).contains(y) {
                    let p = choose|p: i64| keys.contains(p) && #[trigger] kids(m, p).contains(y);
                    assert(keys.contains(p));
                }
            }
        }
    } else {
        let k = keys.choose();
        let rest = keys.remove(k);
        lemma_listed_under_finite(m, rest);
        assert(listed_under(m, keys) =~= listed_under(m, rest).union(kids(m, k).to_set())) by {
            assert forall|y: i64| #[trigger] listed_under(m, keys).contains(y) implies
                listed_under(m, rest).union(kids(m, k).to_set()).contains(y) by {
                let p = choose|p: i64| keys.contains(p) && #[trigger] kids(m, p).contains(y);
                if p != k {
                    assert(rest.contains(p));
                }
            }
            assert forall|y: i64| #[trigger] listed_under(m, rest).union(kids(m, k).to_set()).contains(y)
                implies listed_under(m, keys).contains(y) by {
                if kids(m, k).to_set().contains(y) {
                    assert(kids(m, k).contains(y));
                } else {
                    let p = choose|p: i64| rest.contains(p) && #[trigger] kids(m, p).contains(y);
                    assert(keys.contains(p));
                }
            }
        }
    }
}

/// Only finitely many ids are listed as children in a map with finitely many keys.
pub proof fn lemma_listed_finite(m: Map<i64, Vec<i64>>)
    requires
        m.dom().finite(),
    ensures
        listed(m).finite(),
{
    lemma_listed_under_finite(m, m.dom());
    assert(listed(m) =~= listed_under(m, m.dom())) by {
        assert forall|y: i64| #[trigger] listed(m).contains(y) implies listed_under(m, m.dom()).contains(y) by {
            let p = choose|p: i64| #[trigger] kids(m, p).contains(y);
            assert(m.dom().contains(p));
        }
    }
}

/// Reachability within `d` links implies reachability within any larger bound.
pub proof fn lemma_reachable_mono(ch: spec_fn(i64) -> Seq<i64>, root: i64, y: i64, d: nat, e: nat)
    requires
        d <= e,
        reachable_within(ch, root, y, d),
    ensures
        reachable_within(ch, root, y, e),
    decreases d,
{
    if y != root {
        let p = choose|p: i64| #[trigger] ch(p).contains(y) && reachable_within(ch, root, p, (d - 1) as nat);
        lemma_reachable_mono(ch, root, p, (d - 1) as nat, (e - 1) as nat);
        assert(ch(p).contains(y) && reachable_within(ch, root, p, (e - 1) as nat));
    }
}

/// The title of the last project of `ps` with id `id` (empty when there is none).
pub open spec fn title_of(ps: Seq<Project>, id: i64) -> Seq<char>
    decreases ps.len(),
{
    if ps.len() == 0 {
        seq![]
    } else if ps.last().id == id {
        ps.last().title@
    } else {
        title_of(ps.drop_last(), id)
    }
}

/// Lexicographic order of texts by code point: the order in which Rust compares `str`s
/// (UTF-8 byte order and code point order agree).
pub open spec fn text_le(a: Seq<char>, b: Seq<char>) -> bool
    decreases a.len(),
{
    if a.len() == 0 {
        true
    } else if b.len() == 0 {
        false
    } else if a[0] != b[0] {
        a[0] < b[0]
    } else {
        text_le(a.drop_first(), b.drop_first())
    }
}

/// `x` placed after every element of the title-sorted `s` whose title is at most its own.
pub open spec fn insert_by_title(ps: Seq<Project>, x: i64, s: Seq<i64>) -> Seq<i64>
    decreases s.len(),
{
    if s.len() == 0 {
        seq![x]
    } else if text_le(title_of(ps, s.last()), title_of(ps, x)) {
        s.push(x)
    } else {
        insert_by_title(ps, x, s.drop_last()).push(s.last())
    }
}

/// The ids of `s` stably sorted by title: ascending titles, equal titles in their order in `s`.
pub open spec fn sort_by_title(ps: Seq<Project>, s: Seq<i64>) -> Seq<i64>
    decreases s.len(),
{
    if s.len() == 0 {
        s
    } else {
        insert_by_title(ps, s.last(), sort_by_title(ps, s.drop_last()))
    }
}

/// The ids of a list of nodes.
pub open spec fn node_ids(nodes: Seq<ProjectNode>) -> Seq<i64> {
    nodes.map_values(|n: ProjectNode| n.id)
}

/// `node` is the tree of project `node.id`, at most `fuel` levels deep: its title is that
/// project's title, and its children are the trees of its sub-projects, sorted by title.
pub open spec fn tree_ok(ps: Seq<Project>, node: ProjectNode, fuel: nat) -> bool
    decreases fuel,
{
    if fuel == 0 {
        false
    } else {
        &&& node.title@ == title_of(ps, node.id)
        &&& node_ids(node.children@) == sort_by_title(ps, child_ids(ps, node.id))
        &&& forall|i: int| 0 <= i < node.children@.len()
            ==> tree_ok(ps, #[trigger] node.children@[i], (fuel - 1) as nat)
    }
}

/// `node` is the (finite) tree of project `node.id`.
pub open spec fn is_project_tree(ps: Seq<Project>, node: ProjectNode) -> bool {
    exists|fuel: nat| tree_ok(ps, node, fuel)
}

/// Every chain of children from `id` has fewer than `n` links.
pub open spec fn finite_height(ch: spec_fn(i64) -> Seq<i64>, id: i64, n: nat) -> bool
    decreases n,
{
    if n == 0 {
        false
    } else {
        forall|c: i64| #[trigger] ch(id).contains(c) ==> finite_height(ch, c, (n - 1) as nat)
    }
}

/// Every chain of children from a top-level project has fewer than `n` links.
pub open spec fn forest_height_below(ps: Seq<Project>, n: nat) -> bool {
    forall|r: i64| #[trigger] ids_under(ps, None).contains(r) ==> finite_height(project_children(ps), r, n)
}

/// The trees below the top-level projects are all finite: building them terminates.
pub open spec fn forest_is_finite(ps: Seq<Project>) -> bool {
    exists|n: nat| #[trigger] forest_height_below(ps, n)
}

/// The ids of the projects of `ps`.
pub open spec fn project_ids(ps: Seq<Project>) -> Seq<i64> {
    ps.map_values(|p: Project| p.id)
}

/// Every id listed under a parent is the id of some project.
pub proof fn lemma_ids_under_are_ids(ps: Seq<Project>, par: Option<i64>, y: i64)
    requires
        ids_under(ps, par).contains(y),
    ensures
        project_ids(ps).contains(y),
    decreases ps.len(),
{
    if ps.len() > 0 {
        let rest = ids_under(ps.drop_last(), par);
        if rest.contains(y) {
            lemma_ids_under_are_ids(ps.drop_last(), par, y);
            let j = choose|j: int| 0 <= j < project_ids(ps.drop_last()).len() && project_ids(ps.drop_last())[j] == y;
            assert(project_ids(ps)[j] == y);
        } else {
            assert(parent_of(ps.last()) == par);
            assert(ids_under(ps, par) == rest.push(ps.last().id));
            assert(y == ps.last().id);
            assert(project_ids(ps)[ps.len() - 1] == y);
        }
    }
}

/// A chain of children `v0 -> v1 -> ... -> v_k` along which height stays unbounded.
proof fn lemma_long_chain(ch: spec_fn(i64) -> Seq<i64>, v: i64, k: nat) -> (p: Seq<i64>)
    requires
        !finite_height(ch, v, k),
    ensures
        p.len() == k + 1,
        p[0] == v,
        forall|i: int| 0 <= i < k ==> #[trigger] ch(p[i]).contains(p[i + 1]),
    decreases k,
{
    if k == 0 {
        seq![v]
    } else {
        let c = choose|c: i64| #[trigger] ch(v).contains(c) && !finite_height(ch, c, (k - 1) as nat);
        let rest = lemma_long_chain(ch, c, (k - 1) as nat);
        let p = seq![v] + rest;
        assert forall|i: int| 0 <= i < k implies #[trigger] ch(p[i]).contains(p[i + 1]) by {
            if i > 0 {
                assert(p[i] == rest[i - 1] && p[i + 1] == rest[i]);
                assert(ch(rest[i - 1]).contains(rest[(i - 1) + 1]));
            }
        }
        p
    }
}

/// Along a chain, finite height at its start bounds the height at each later node.
proof fn lemma_chain_descends(ch: spec_fn(i64) -> Seq<i64>, p: Seq<i64>, k: int, n: nat)
    requires
        finite_height(ch, p[0], n),
        0 <= k < p.len(),
        forall|i: int| 0 <= i < p.len() - 1 ==> #[trigger] ch(p[i]).contains(p[i + 1]),
    ensures
        n > k,
        finite_height(ch, p[k], (n - k) as nat),
    decreases k,
{
    if k > 0 {
        lemma_chain_descends(ch, p, k - 1, n);
        assert(ch(p[k - 1]).contains(p[(k - 1) + 1]));
        assert(finite_height(ch, p[k], ((n - (k - 1)) - 1) as nat));
        assert(((n - (k - 1)) - 1) as nat == (n - k) as nat);
    }
}

/// No node on a cycle has finite height.
proof fn lemma_cycle_unbounded(ch: spec_fn(i64) -> Seq<i64>, p: Seq<i64>, i: int, j: int, k: int, m: nat)
    requires
        0 <= i < j < p.len(),
        p[i] == p[j],
        i <= k < j,
        forall|t: int| 0 <= t < p.len() - 1 ==> #[trigger] ch(p[t]).contains(p[t + 1]),
    ensures
        !finite_height(ch, p[k], m),
    decreases m,
{
    if m > 0 {
        assert(ch(p[k]).contains(p[k + 1]));
        if k + 1 < j {
            lemma_cycle_unbounded(ch, p, i, j, k + 1, (m - 1) as nat);
        } else {
            lemma_cycle_unbounded(ch, p, i, j, i, (m - 1) as nat);
        }
    }
}

/// A finite tree below a project is at most as deep as there are projects.
pub proof fn lemma_height_at_most_count(ps: Seq<Project>, r: i64, n: nat)
    requires
        finite_height(project_children(ps), r, n),
        project_ids(ps).contains(r),
    ensures
        finite_height(project_children(ps), r, ps.len()),
{
    let ch = project_children(ps);
    let ids = project_ids(ps);
    if !finite_height(ch, r, ps.len()) {
        let p = lemma_long_chain(ch, r, ps.len());
        assert forall|t: int| 0 <= t < p.len() implies ids.contains(#[trigger] p[t]) by {
            if t > 0 {
                assert(ch(p[t - 1]).contains(p[(t - 1) + 1]));
                lemma_ids_under_are_ids(ps, Some(p[t - 1]), p[t]);
            } else {
                assert(p[0] == r);
            }
        }
        if p.no_duplicates() {
            p.unique_seq_to_set();
            ids.lemma_cardinality_of_set();
            assert(p.to_set().subset_of(ids.to_set())) by {
                assert forall|y: i64| #[trigger] p.to_set().contains(y) implies ids.to_set().contains(y) by {
                    let t = choose|t: int| 0 <= t < p.len() && p[t] == y;
                    assert(ids.contains(p[t]));
                }
            }
            vstd::set_lib::lemma_len_subset(p.to_set(), ids.to_set());
            assert(false);
        } else {
            let (i, j) = choose|i: int, j: int| 0 <= i < p.len() && 0 <= j < p.len() && i != j && p[i] == p[j];
            let (a, b) = if i < j { (i, j) } else { (j, i) };
            lemma_chain_descends(ch, p, a, n);
            lemma_cycle_unbounded(ch, p, a, b, a, (n - a) as nat);
        }
    }
}

/// A project with parent `par` has its id listed under `par`.
pub proof fn lemma_ids_under_prefix(ps: Seq<Project>, par: Option<i64>, i: int)
    requires
        0 <= i < ps.len(),
        parent_of(ps[i]) == par,
    ensures
        ids_under(ps, par).contains(ps[i].id),
    decreases ps.len(),
{
    let rest = ids_under(ps.drop_last(), par);
    if i == ps.len() - 1 {
        assert(ids_under(ps, par) == rest.push(ps.last().id));
        assert(ids_under(ps, par)[rest.len() as int] == ps[i].id);
    } else {
        lemma_ids_under_prefix(ps.drop_last(), par, i);
        assert(ps.drop_last()[i] == ps[i]);
        let k = choose|k: int| 0 <= k < rest.len() && rest[k] == ps[i].id;
        if parent_of(ps.last()) == par {
            assert(ids_under(ps, par)[k] == ps[i].id);
        } else {
            assert(ids_under(ps, par) == rest);
        }
    }
}

/// The state of the depth-first walk: the ids seen so far, and the stack of
/// `(id, depth)` still to expand (its top is the last element).
pub type WalkState = (Set<i64>, Seq<(i64, nat)>);

/// Pushes the children `kids` at depth `d`, in order, each one that was not seen before.
pub open spec fn push_children(st: WalkState, kids: Seq<i64>, d: nat) -> WalkState
    decreases kids.len(),
{
    if kids.len() == 0 {
        st
    } else {
        let prev = push_children(st, kids.drop_last(), d);
        let c = kids.last();
        if prev.0.contains(c) {
            prev
        } else {
            (prev.0.insert(c), prev.1.push((c, d)))
        }
    }
}

/// One step of the walk: pop the top; unless it is `max` deep, push its unseen children one level deeper.
pub open spec fn walk_step(ch: spec_fn(i64) -> Seq<i64>, max: nat, st: WalkState) -> WalkState {
    let top = st.1.last();
    let rest = (st.0, st.1.drop_last());
    if top.1 >= max {
        rest
    } else {
        push_children(rest, ch(top.0), top.1 + 1)
    }
}

/// The walk after `n` steps (it stops once the stack is empty).
pub open spec fn walk_after(ch: spec_fn(i64) -> Seq<i64>, max: nat, st: WalkState, n: nat) -> WalkState
    decreases n,
{
    if n == 0 || st.1.len() == 0 {
        st
    } else {
        walk_after(ch, max, walk_step(ch, max, st), (n - 1) as nat)
    }
}

/// The walk's starting state: `root` seen and on the stack at depth 0.
pub open spec fn walk_start(root: i64) -> WalkState {
    (set![root], seq![(root, 0nat)])
}

/// The ids seen by the depth-first walk from `root` that expands nodes less than `max` deep,
/// once its stack is empty.
pub open spec fn walk_visits(ch: spec_fn(i64) -> Seq<i64>, root: i64, max: nat) -> Set<i64> {
    let n = choose|n: nat| #[trigger] walk_after(ch, max, walk_start(root), n).1.len() == 0;
    walk_after(ch, max, walk_start(root), n).0
}

/// One more step after `k` steps, while the stack is not empty.
pub proof fn lemma_walk_after_next(ch: spec_fn(i64) -> Seq<i64>, max: nat, st: WalkState, k: nat)
    requires
        walk_after(ch, max, st, k).1.len() > 0,
    ensures
        walk_after(ch, max, st, k + 1) == walk_step(ch, max, walk_after(ch, max, st, k)),
    decreases k,
{
    let next = walk_step(ch, max, st);
    if k > 0 {
        assert(st.1.len() > 0);
        assert(walk_after(ch, max, st, k) == walk_after(ch, max, next, (k - 1) as nat));
        lemma_walk_after_next(ch, max, next, (k - 1) as nat);
        assert(walk_after(ch, max, st, k + 1) == walk_after(ch, max, next, k));
        assert(((k - 1) as nat + 1) as nat == k);
    } else {
        assert(walk_after(ch, max, st, 1) == walk_after(ch, max, next, 0));
    }
}

/// Once the stack is empty the walk stays where it is.
pub proof fn lemma_walk_after_done(ch: spec_fn(i64) -> Seq<i64>, max: nat, st: WalkState, k: nat, n: nat)
    requires
        k <= n,
        walk_after(ch, max, st, k).1.len() == 0,
    ensures
        walk_after(ch, max, st, n) == walk_after(ch, max, st, k),
    decreases k,
{
    if st.1.len() == 0 {
    } else if k == 0 {
    } else {
        lemma_walk_after_done(ch, max, walk_step(ch, max, st), (k - 1) as nat, (n - 1) as nat);
    }
}

/// When the walk's stack is empty after `k` steps, what it has seen is `walk_visits`.
pub proof fn lemma_walk_visits(ch: spec_fn(i64) -> Seq<i64>, root: i64, max: nat, k: nat)
    requires
        walk_after(ch, max, walk_start(root), k).1.len() == 0,
    ensures
        walk_visits(ch, root, max) == walk_after(ch, max, walk_start(root), k).0,
{
    let n = choose|n: nat| #[trigger] walk_after(ch, max, walk_start(root), n).1.len() == 0;
    if n <= k {
        lemma_walk_after_done(ch, max, walk_start(root), n, k);
    } else {
        lemma_walk_after_done(ch, max, walk_start(root), k, n);
    }
}

} // verus!
