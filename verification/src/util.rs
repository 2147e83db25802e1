//! Project hierarchy helpers, filter expansion and small text utilities.

use std::collections::{HashMap, HashSet};
use vstd::prelude::*;
use vstd::std_specs::iter::IteratorSpec;
use crate::hierarchy::{
    child_ids, finite_height, forest_height_below, forest_is_finite, ids_under, insert_by_title,
    is_project_tree, kids, project_ids, lemma_height_at_most_count, lemma_ids_under_are_ids, lemma_ids_under_prefix,
    lemma_closed_holds_reachable, lemma_listed_finite, reachable,
    lemma_reachable_mono, lemma_walk_after_next, lemma_walk_visits, listed, map_children, push_children,
    walk_after, walk_start, walk_visits, node_ids, parent_of, project_children, reachable_within,
    single_parent, sort_by_title, text_le, title_of, tree_ok,
};
use crate::filter::{
    clause_at, first_clause, first_clause_from, id_term, or_terms, project_id_key, skip_digits,
    skip_spaces, spliced, strictly_ascending,
};
use crate::text::{
    char_is_digit, char_is_space, chars_of, digits_value, digits_within, is_digit, nat_text, push_char,
    push_chars, push_i64_text, push_u64_text, truncated,
};
use crate::json::{
    body_fields, flag_field, fraction_field, insert_field, int_field, text_field, with_field, FieldValue,
    Fraction, JsonBody,
};
use crate::types::{Project, ProjectNode};

verus! {

broadcast use vstd::std_specs::hash::group_hash_axioms;

/// `s` cut to its first `max` characters followed by `...` when it has more than `max`
/// characters; otherwise `s` itself.
pub fn truncate(s: &str, max: usize) -> (t: String)
    ensures
        t@ == truncated(s@, max as nat),
{
    if s.unicode_len() <= max {
        s.to_owned()
    } else {
        let cut = s.substring_char(0, max);
        let mut t = cut.to_owned();
        t.append("...");
        proof {
            reveal_strlit("...");
        }
        t
    }
}

/// A value that can stand in a query string, with the text `to_string` gives it.
pub trait QueryValue {
    /// The text of the value.
    spec fn query_text(&self) -> Seq<char>;

    /// The value as query text.
    fn to_query(&self) -> (s: String)
        ensures
            s@ == self.query_text(),
    ;
}

impl QueryValue for u32 {
    open spec fn query_text(&self) -> Seq<char> {
        nat_text(*self as nat)
    }

    fn to_query(&self) -> (s: String) {
        let mut s = String::new();
        push_u64_text(&mut s, *self as u64);
        s
    }
}

impl QueryValue for bool {
    open spec fn query_text(&self) -> Seq<char> {
        if *self {
            seq!['t', 'r', 'u', 'e']
        } else {
            seq!['f', 'a', 'l', 's', 'e']
        }
    }

    fn to_query(&self) -> (s: String) {
        proof {
            reveal_strlit("true");
            reveal_strlit("false");
        }
        if *self {
            "true".to_owned()
        } else {
            "false".to_owned()
        }
    }
}

impl QueryValue for String {
    open spec fn query_text(&self) -> Seq<char> {
        self@
    }

    fn to_query(&self) -> (s: String) {
        self.clone()
    }
}

/// The text pairs of a query string.
pub open spec fn query_view(q: Seq<(&'static str, String)>) -> Seq<(Seq<char>, Seq<char>)> {
    q.map_values(|e: (&'static str, String)| (e.0@, e.1@))
}

/// The query entry for an optional value: none when the value is absent.
pub open spec fn opt_entry<T: QueryValue>(key: Seq<char>, value: Option<T>) -> Seq<(Seq<char>, Seq<char>)> {
    match value {
        Some(v) => seq![(key, v.query_text())],
        None => seq![],
    }
}

/// Appends `(key, value)` to a query when a value is given.
pub fn push_opt<T: QueryValue>(query: &mut Vec<(&'static str, String)>, key: &'static str, value: Option<T>)
    ensures
        query_view(final(query)@) == query_view(old(query)@) + opt_entry(key@, value),
{
    let ghost before = query@;
    match value {
        Some(v) => {
            let text = v.to_query();
            query.push((key, text));
            assert(query_view(query@) =~= query_view(before) + opt_entry(key@, value));
        },
        None => {
            assert(query_view(query@) =~= query_view(before) + opt_entry(key@, value));
        },
    }
}

/// Stores a text field when a value is given.
pub fn insert_opt_str(body: &mut JsonBody, key: &str, value: Option<String>)
    ensures
        body_fields(*final(body)) == with_field(body_fields(*old(body)), key@, text_field(value)),
{
    match value {
        Some(v) => insert_field(body, key, FieldValue::Text(v)),
        None => {},
    }
}

/// Stores a boolean field when a value is given.
pub fn insert_opt_bool(body: &mut JsonBody, key: &str, value: Option<bool>)
    ensures
        body_fields(*final(body)) == with_field(body_fields(*old(body)), key@, flag_field(value)),
{
    match value {
        Some(v) => insert_field(body, key, FieldValue::Flag(v)),
        None => {},
    }
}

/// Stores an integer field when a value is given.
pub fn insert_opt_i64(body: &mut JsonBody, key: &str, value: Option<i64>)
    ensures
        body_fields(*final(body)) == with_field(body_fields(*old(body)), key@, int_field(value)),
{
    match value {
        Some(v) => insert_field(body, key, FieldValue::Int(v)),
        None => {},
    }
}

/// Stores a fractional number field when a value is given.
pub fn insert_opt_fraction(body: &mut JsonBody, key: &str, value: Option<Fraction>)
    ensures
        body_fields(*final(body)) == with_field(body_fields(*old(body)), key@, fraction_field(value)),
{
    match value {
        Some(v) => insert_field(body, key, FieldValue::Fraction(v)),
        None => {},
    }
}

/// Maps each parent id to the ids of its direct sub-projects, in list order.
/// Projects without a parent (absent or zero) are not listed under any key.
pub fn children_map(projects: &[Project]) -> (map: HashMap<i64, Vec<i64>>)
    ensures
        forall|k: i64| #[trigger] map@.contains_key(k) <==> child_ids(projects@, k).len() > 0,
        forall|k: i64| #[trigger] map@.contains_key(k) ==> map@[k]@ == child_ids(projects@, k),
        map_children(map@) == project_children(projects@),
{
    let mut map: HashMap<i64, Vec<i64>> = HashMap::new();
    let n = projects.len();
    for i in 0..n
        invariant
            n == projects@.len(),
            forall|k: i64| #[trigger] map@.contains_key(k) <==> child_ids(projects@.take(i as int), k).len() > 0,
            forall|k: i64| #[trigger] map@.contains_key(k) ==> map@[k]@ == child_ids(projects@.take(i as int), k),
    {
        let p = &projects[i];
        assert(projects@.take(i + 1).drop_last() =~= projects@.take(i as int));
        assert(projects@.take(i + 1).last() == projects@[i as int]);
        match p.parent_project_id {
            Some(parent) => {
                if parent != 0 {
                    let ghost before = map@;
                    let mut ids = match map.remove(&parent) {
                        Some(v) => v,
                        None => Vec::new(),
                    };
                    ids.push(p.id);
                    map.insert(parent, ids);
                    assert forall|k: i64| #[trigger] map@.contains_key(k) implies map@[k]@ == child_ids(projects@.take(i + 1), k) by {
                        if k == parent {
                            if before.contains_key(k) {
                                assert(before[k]@ == child_ids(projects@.take(i as int), k));
                            } else {
                                assert(child_ids(projects@.take(i as int), k).len() == 0);
                            }
                        }
                    }
                }
            },
            None => {},
        }
    }
    assert(projects@.take(n as int) =~= projects@);
    assert(map_children(map@) =~= project_children(projects@)) by {
        assert forall|k: i64| #[trigger] kids(map@, k) == child_ids(projects@, k) by {
            if !map@.contains_key(k) {
                assert(child_ids(projects@, k) =~= Seq::<i64>::empty());
            }
        }
    }
    map
}

/// The `(id, depth)` pairs of a stack.
pub open spec fn stack_view(s: Seq<(i64, usize)>) -> Seq<(i64, nat)> {
    s.map_values(|e: (i64, usize)| (e.0, e.1 as nat))
}

/// The ids reached from `root` by walking child lists depth-first, at most `max_depth`
/// links deep, each id expanded at most once.
///
/// Every id returned is reachable within `max_depth` links, and `root` is always returned.
/// When no id is listed under two parents, every id reachable within `max_depth` links is returned.
pub fn descendant_ids(map: &HashMap<i64, Vec<i64>>, root: i64, max_depth: usize) -> (ids: HashSet<i64>)
    ensures
        ids@.contains(root),
        forall|y: i64| #[trigger] ids@.contains(y) ==> reachable_within(map_children(map@), root, y, max_depth as nat),
        single_parent(map_children(map@)) ==> forall|y: i64|
            #[trigger] reachable_within(map_children(map@), root, y, max_depth as nat) ==> ids@.contains(y),
        ids@ == walk_visits(map_children(map@), root, max_depth as nat),
        max_depth >= listed(map@).len() ==> forall|y: i64|
            #[trigger] reachable(map_children(map@), root, y) ==> ids@.contains(y),
{
    let ghost m = map@;
    let ghost ch = map_children(m);
    let ghost universe = listed(m).insert(root);
    proof {
        lemma_listed_finite(m);
    }
    let mut all: HashSet<i64> = HashSet::new();
    all.insert(root);
    let mut stack: Vec<(i64, usize)> = Vec::new();
    stack.push((root, 0));
    let ghost mut depth: Map<i64, nat> = map![root => 0nat];
    let ghost mut steps: nat = 0;
    proof {
        vstd::set_lib::lemma_len_subset(all@, universe);
        assert(stack@[0].0 == root);
        assert(all@ =~= set![root]);
        assert(stack_view(stack@) =~= seq![(root, 0nat)]);
    }
    while stack.len() > 0
        invariant
            m == map@,
            ch == map_children(m),
            walk_after(ch, max_depth as nat, walk_start(root), steps) == (all@, stack_view(stack@)),
            universe == listed(m).insert(root),
            universe.finite(),
            all@.subset_of(universe),
            all@.contains(root),
            depth.dom() == all@,
            depth[root] == 0,
            forall|y: i64| #[trigger] all@.contains(y) ==> depth[y] <= max_depth
                && reachable_within(ch, root, y, depth[y]) && depth[y] < all@.len(),
            forall|y: i64| #[trigger] all@.contains(y) && y != root ==> exists|p: i64|
                all@.contains(p) && #[trigger] ch(p).contains(y) && depth[y] == depth[p] + 1,
            forall|i: int| 0 <= i < stack.len() ==> all@.contains(#[trigger] stack@[i].0)
                && depth[stack@[i].0] == stack@[i].1 as nat,
            forall|x: i64, c: i64| #[trigger] all@.contains(x) && depth[x] < max_depth
                && #[trigger] ch(x).contains(c) && !all@.contains(c)
                ==> exists|i: int| 0 <= i < stack.len() && #[trigger] stack@[i].0 == x,
        decreases 2 * (universe.len() - all@.len()) + stack.len(),
    {
        let ghost all0 = all@;
        let ghost spre = stack@;
        let ghost cur = walk_after(ch, max_depth as nat, walk_start(root), steps);
        let (current, d) = stack.pop().unwrap();
        let ghost s0 = stack@;
        proof {
            assert(stack_view(s0) =~= cur.1.drop_last());
            assert(cur.1.last() == (current, d as nat));
        }
        proof {
            assert forall|x: i64, c: i64| #[trigger] all@.contains(x) && depth[x] < max_depth
                && #[trigger] ch(x).contains(c) && !all@.contains(c) && x != current
                implies exists|i: int| 0 <= i < stack.len() && #[trigger] stack@[i].0 == x by {
                let i = choose|i: int| 0 <= i < spre.len() && #[trigger] spre[i].0 == x;
                assert(spre[spre.len() - 1].0 == current);
                assert(stack@[i] == spre[i]);
            }
        }
        if d < max_depth {
            match map.get(&current) {
                Some(children) => {
                    assert(ch(current) == children@);
                    let n = children.len();
                    assert(children@.take(0) =~= Seq::<i64>::empty());
                    for j in 0..n
                        invariant
                            m == map@,
                            ch == map_children(m),
                            (all@, stack_view(stack@)) == push_children((all0, stack_view(s0)), children@.take(j as int), (d + 1) as nat),
                            n == children@.len(),
                            ch(current) == children@,
                            all@.contains(current),
                            depth[current] == d as nat,
                            d < max_depth,
                            universe == listed(m).insert(root),
                            universe.finite(),
                            all@.subset_of(universe),
                            all0.subset_of(all@),
                            all@.contains(root),
                            depth.dom() == all@,
                            depth[root] == 0,
                            stack@.len() >= s0.len(),
                            forall|i: int| 0 <= i < s0.len() ==> stack@[i] == s0[i],
                            stack@.len() - s0.len() == all@.len() - all0.len(),
                            forall|y: i64| #[trigger] all@.contains(y) ==> depth[y] <= max_depth
                                && reachable_within(ch, root, y, depth[y]) && depth[y] < all@.len(),
                            forall|y: i64| #[trigger] all@.contains(y) && y != root ==> exists|p: i64|
                                all@.contains(p) && #[trigger] ch(p).contains(y) && depth[y] == depth[p] + 1,
                            forall|i: int| 0 <= i < stack.len() ==> all@.contains(#[trigger] stack@[i].0)
                                && depth[stack@[i].0] == stack@[i].1 as nat,
                            forall|x: i64, c: i64| #[trigger] all@.contains(x) && depth[x] < max_depth
                                && #[trigger] ch(x).contains(c) && !all@.contains(c) && x != current
                                ==> exists|i: int| 0 <= i < stack.len() && #[trigger] stack@[i].0 == x,
                            forall|k: int| 0 <= k < j ==> all@.contains(children@[k]),
                    {
                        let child = children[j];
                        assert(ch(current).contains(child)) by {
                            assert(children@[j as int] == child);
                        }
                        let ghost before = all@;
                        let ghost sb = stack@;
                        proof {
                            assert(children@.take(j + 1).drop_last() =~= children@.take(j as int));
                            assert(children@.take(j + 1).last() == child);
                        }
                        if all.insert(child) {
                            proof {
                                depth = depth.insert(child, (d + 1) as nat);
                                assert(kids(m, current).contains(child));
                                assert(listed(m).contains(child));
                            }
                            stack.push((child, d + 1));
                            assert(stack_view(stack@) =~= stack_view(sb).push((child, (d + 1) as nat)));
                            proof {
                                assert(reachable_within(ch, root, child, (d + 1) as nat));
                                assert forall|y: i64| #[trigger] all@.contains(y) && y != root implies exists|p: i64|
                                    all@.contains(p) && #[trigger] ch(p).contains(y) && depth[y] == depth[p] + 1 by {
                                    if y == child {
                                        assert(all@.contains(current) && ch(current).contains(y));
                                    } else {
                                        assert(before.contains(y));
                                    }
                                }
                                assert forall|x: i64, c: i64| #[trigger] all@.contains(x) && depth[x] < max_depth
                                    && #[trigger] ch(x).contains(c) && !all@.contains(c) && x != current
                                    implies exists|i: int| 0 <= i < stack.len() && #[trigger] stack@[i].0 == x by {
                                    if x == child {
                                        assert(stack@[stack.len() - 1].0 == x);
                                    } else {
                                        assert(before.contains(x));
                                        let i = choose|i: int| 0 <= i < sb.len() && #[trigger] sb[i].0 == x;
                                        assert(stack@[i] == sb[i]);
                                    }
                                }
                                vstd::set_lib::lemma_len_subset(all@, universe);
                            }
                        }
                    }
                    assert(children@.take(n as int) =~= children@);
                },
                None => {
                    assert(ch(current) == Seq::<i64>::empty());
                },
            }
        }
        proof {
            lemma_walk_after_next(ch, max_depth as nat, walk_start(root), steps);
            steps = steps + 1;
        }
        proof {
            vstd::set_lib::lemma_len_subset(all@, universe);
            assert forall|x: i64, c: i64| #[trigger] all@.contains(x) && depth[x] < max_depth
                && #[trigger] ch(x).contains(c) && !all@.contains(c)
                implies exists|i: int| 0 <= i < stack.len() && #[trigger] stack@[i].0 == x by {
                if x == current {
                    if d < max_depth {
                        let k = choose|k: int| 0 <= k < ch(x).len() && #[trigger] ch(x)[k] == c;
                        assert(all@.contains(ch(x)[k]));
                    }
                }
            }
        }
    }
    proof {
        lemma_walk_visits(ch, root, max_depth as nat, steps);
        assert forall|y: i64| #[trigger] all@.contains(y) implies reachable_within(ch, root, y, max_depth as nat) by {
            lemma_reachable_mono(ch, root, y, depth[y], max_depth as nat);
        }
        if single_parent(ch) {
            assert forall|y: i64| #[trigger] reachable_within(ch, root, y, max_depth as nat) implies all@.contains(y) by {
                lemma_reach_collected(ch, root, all@, depth, max_depth as nat, y, max_depth as nat);
            }
        }
        if max_depth >= listed(m).len() {
            assert forall|x: i64, c: i64| #[trigger] all@.contains(x) && #[trigger] ch(x).contains(c)
                implies all@.contains(c) by {
                if depth[x] >= max_depth && !all@.contains(c) {
                    assert(kids(m, x).contains(c));
                    assert(universe.contains(c));
                    vstd::set_lib::lemma_len_subset(all@, universe.remove(c));
                }
            }
            assert forall|y: i64| #[trigger] reachable(ch, root, y) implies all@.contains(y) by {
                let d = choose|d: nat| #[trigger] reachable_within(ch, root, y, d);
                lemma_closed_holds_reachable(ch, root, all@, y, d);
            }
        }
    }
    all
}

/// With single parents, a closed, parent-linked set of ids holds everything reachable within the bound.
proof fn lemma_reach_collected(
    ch: spec_fn(i64) -> Seq<i64>,
    root: i64,
    all: Set<i64>,
    depth: Map<i64, nat>,
    max: nat,
    y: i64,
    d: nat,
)
    requires
        single_parent(ch),
        d <= max,
        reachable_within(ch, root, y, d),
        all.contains(root),
        depth.dom() == all,
        depth[root] == 0,
        forall|y: i64| #[trigger] all.contains(y) && y != root ==> exists|p: i64|
            all.contains(p) && #[trigger] ch(p).contains(y) && depth[y] == depth[p] + 1,
        forall|x: i64, c: i64| #[trigger] all.contains(x) && depth[x] < max
            && #[trigger] ch(x).contains(c) ==> all.contains(c),
    ensures
        all.contains(y),
        depth[y] <= d,
    decreases d,
{
    if y != root {
        let p = choose|p: i64| #[trigger] ch(p).contains(y) && reachable_within(ch, root, p, (d - 1) as nat);
        lemma_reach_collected(ch, root, all, depth, max, p, (d - 1) as nat);
        assert(all.contains(y));
        let q = choose|q: i64| all.contains(q) && #[trigger] ch(q).contains(y) && depth[y] == depth[q] + 1;
        assert(ch(q).contains(y) && ch(p).contains(y));
    }
}

fn skip_spaces_from(s: &Vec<char>, i: usize) -> (j: usize)
    requires
        i <= s@.len(),
    ensures
        j as int == skip_spaces(s@, i as int),
        i <= j <= s@.len(),
{
    let mut j = i;
    while j < s.len() && char_is_space(s[j])
        invariant
            i <= j <= s@.len(),
            skip_spaces(s@, i as int) == skip_spaces(s@, j as int),
        decreases s@.len() - j,
    {
        j = j + 1;
    }
    j
}

fn skip_digits_from(s: &Vec<char>, i: usize) -> (j: usize)
    requires
        i <= s@.len(),
    ensures
        j as int == skip_digits(s@, i as int),
        i <= j <= s@.len(),
        forall|k: int| i <= k < j ==> is_digit(#[trigger] s@[k]),
{
    let mut j = i;
    while j < s.len() && char_is_digit(s[j])
        invariant
            i <= j <= s@.len(),
            skip_digits(s@, i as int) == skip_digits(s@, j as int),
            forall|k: int| i <= k < j ==> is_digit(#[trigger] s@[k]),
        decreases s@.len() - j,
    {
        j = j + 1;
    }
    j
}

/// The `project_id = N` clause starting at `a`, if there is one there.
fn clause_here(s: &Vec<char>, a: usize) -> (r: Option<(usize, usize, i64)>)
    requires
        a <= s@.len(),
    ensures
        match r {
            Some((x, e, v)) => clause_at(s@, a as int) == Some((x as int, e as int, v as int))
                && x == a && a < e <= s@.len(),
            None => clause_at(s@, a as int) is None,
        },
{
    let n = s.len();
    if n < 10 || a > n - 10 {
        return None;
    }
    let is_key = s[a] == 'p' && s[a + 1] == 'r' && s[a + 2] == 'o' && s[a + 3] == 'j' && s[a + 4] == 'e'
        && s[a + 5] == 'c' && s[a + 6] == 't' && s[a + 7] == '_' && s[a + 8] == 'i' && s[a + 9] == 'd';
    if !is_key {
        assert(s@.subrange(a as int, a + 10) != project_id_key()) by {
            if s@.subrange(a as int, a + 10) == project_id_key() {
                assert(s@.subrange(a as int, a + 10)[0] == 'p');
                assert(s@.subrange(a as int, a + 10)[1] == 'r');
                assert(s@.subrange(a as int, a + 10)[2] == 'o');
                assert(s@.subrange(a as int, a + 10)[3] == 'j');
                assert(s@.subrange(a as int, a + 10)[4] == 'e');
                assert(s@.subrange(a as int, a + 10)[5] == 'c');
                assert(s@.subrange(a as int, a + 10)[6] == 't');
                assert(s@.subrange(a as int, a + 10)[7] == '_');
                assert(s@.subrange(a as int, a + 10)[8] == 'i');
                assert(s@.subrange(a as int, a + 10)[9] == 'd');
            }
        }
        return None;
    }
    assert(s@.subrange(a as int, a + 10) =~= project_id_key());
    let w = skip_spaces_from(s, a + 10);
    if w < n && s[w] == '=' {
        let start = skip_spaces_from(s, w + 1);
        let end = skip_digits_from(s, start);
        if end > start {
            match digits_within(s, start, end, 9223372036854775807u64) {
                Some(v) => Some((a, end, v as i64)),
                None => None,
            }
        } else {
            None
        }
    } else {
        None
    }
}

/// Locates the first `project_id <ws> = <ws> <digits>` clause whose digits fit in an `i64`,
/// as character positions: its start, the position just past its digits, and the id.
///
/// The name `project_id` cannot overlap itself, so trying every start position finds the
/// same clause as jumping from one occurrence of the name to the next.
fn find_project_id(s: &Vec<char>) -> (r: Option<(usize, usize, i64)>)
    ensures
        match r {
            Some((a, e, v)) => first_clause(s@) == Some((a as int, e as int, v as int))
                && a < e <= s@.len(),
            None => first_clause(s@) is None,
        },
{
    let n = s.len();
    let mut a: usize = 0;
    while a < n
        invariant
            a <= n == s@.len(),
            first_clause(s@) == first_clause_from(s@, a as int),
        decreases n - a,
    {
        match clause_here(s, a) {
            Some(t) => {
                return Some(t);
            },
            None => {
                a = a + 1;
            },
        }
    }
    None
}

/// The ids of a set in strictly ascending order.
fn ids_ascending(set: &HashSet<i64>) -> (v: Vec<i64>)
    ensures
        strictly_ascending(v@),
        v@.to_set() == set@,
{
    let mut out: Vec<i64> = Vec::new();
    let keys = set.iter();
    let ghost r = keys.remaining();
    proof {
        assert forall|y: i64| #[trigger] set@.contains(y) <==> exists|k: int|
            0 <= k < r.len() && *r[k] == y by {
            assert(r.unref().to_set() == set@);
            if set@.contains(y) {
                assert(r.unref().contains(y));
                let k = choose|k: int| 0 <= k < r.unref().len() && r.unref()[k] == y;
                assert(*r[k] == y);
            }
            if exists|k: int| 0 <= k < r.len() && *r[k] == y {
                let k = choose|k: int| 0 <= k < r.len() && *r[k] == y;
                assert(r.unref()[k] == y);
            }
        }
    }
    for x in it: keys
        invariant
            strictly_ascending(out@),
            forall|y: i64| #[trigger] out@.contains(y) <==> exists|k: int|
                0 <= k < it.index() && *it.seq()[k] == y,
            forall|y: i64| #[trigger] set@.contains(y) <==> exists|k: int|
                0 <= k < it.seq().len() && *it.seq()[k] == y,
            it.index() == it.seq().len() ==> forall|y: i64| #[trigger] out@.contains(y) <==> set@.contains(y),
    {
        let x = *x;
        let n = out.len();
        let mut k: usize = 0;
        while k < n && out[k] < x
            invariant
                k <= n == out@.len(),
                forall|j: int| 0 <= j < k ==> out@[j] < x,
            decreases n - k,
        {
            k = k + 1;
        }
        if k < n && out[k] == x {
            assert(out@[k as int] == x);
        } else {
            let ghost before = out@;
            out.insert(k, x);
            assert(strictly_ascending(out@)) by {
                assert forall|i: int, j: int| 0 <= i < j < out@.len() implies out@[i] < out@[j] by {
                    if j < k {
                        assert(out@[i] == before[i] && out@[j] == before[j]);
                    } else if j == k {
                        assert(out@[i] == before[i]);
                    } else if i < k {
                        assert(out@[i] == before[i] && out@[j] == before[j - 1]);
                        if k < before.len() {
                            assert(before[k as int] >= x);
                        }
                    } else if i == k {
                        assert(out@[j] == before[j - 1]);
                        assert(before[k as int] >= x);
                        assert(before[k as int] != x);
                    } else {
                        assert(out@[i] == before[i - 1] && out@[j] == before[j - 1]);
                    }
                }
            }
            assert(out@ == before.take(k as int).push(x) + before.skip(k as int));
            assert forall|y: i64| #[trigger] out@.contains(y) <==> (before.contains(y) || y == x) by {
                if out@.contains(y) {
                    let j = choose|j: int| 0 <= j < out@.len() && out@[j] == y;
                    if j < k {
                        assert(before[j] == y);
                    } else if j > k {
                        assert(before[j - 1] == y);
                    }
                }
                if before.contains(y) {
                    let j = choose|j: int| 0 <= j < before.len() && before[j] == y;
                    if j < k {
                        assert(out@[j] == y);
                    } else {
                        assert(out@[j + 1] == y);
                    }
                }
                if y == x {
                    assert(out@[k as int] == y);
                }
            }
        }
    }
    assert(out@.to_set() =~= set@);
    out
}

/// Appends `project_id = <id>`.
fn push_id_term(out: &mut String, id: i64)
    ensures
        final(out)@ == old(out)@ + id_term(id),
{
    let ghost start = out@;
    push_char(out, 'p');
    push_char(out, 'r');
    push_char(out, 'o');
    push_char(out, 'j');
    push_char(out, 'e');
    push_char(out, 'c');
    push_char(out, 't');
    push_char(out, '_');
    push_char(out, 'i');
    push_char(out, 'd');
    push_char(out, ' ');
    push_char(out, '=');
    push_char(out, ' ');
    assert(out@ =~= start + project_id_key() + seq![' ', '=', ' ']);
    push_i64_text(out, id);
    assert(out@ =~= start + id_term(id));
}

/// A child map built from a project list lists no more children than there are projects.
proof fn lemma_listed_at_most_projects(m: Map<i64, Vec<i64>>, ps: Seq<Project>)
    requires
        m.dom().finite(),
        map_children(m) == project_children(ps),
    ensures
        listed(m).len() <= ps.len(),
{
    lemma_listed_finite(m);
    assert forall|y: i64| #[trigger] listed(m).contains(y) implies project_ids(ps).to_set().contains(y) by {
        let p = choose|p: i64| #[trigger] kids(m, p).contains(y);
        assert(map_children(m)(p) == project_children(ps)(p));
        lemma_ids_under_are_ids(ps, Some(p), y);
    }
    vstd::set_lib::lemma_len_subset(listed(m), project_ids(ps).to_set());
    project_ids(ps).lemma_cardinality_of_set();
}

/// Replaces the first `project_id = X` clause of a filter by the OR of `X` and the ids of all
/// its sub-projects, at any depth, in ascending order and in parentheses.
///
/// The ids are those that `descendant_ids` collects from the child map of the projects, with a
/// depth bound that never cuts the walk short; a cycle of parent links ends where an id comes
/// round again. A filter without such a clause, or whose project has no sub-project, is
/// returned unchanged.
pub fn expand_project_filter(filter: &str, projects: &[Project]) -> (res: String)
    ensures
        match first_clause(filter@) {
            None => res@ == filter@,
            Some((start, end, pid)) => exists|ids: Seq<i64>| {
                &&& strictly_ascending(ids)
                &&& forall|y: i64| #[trigger] ids.contains(y)
                    <==> reachable(project_children(projects@), pid as i64, y)
                &&& ids.contains(pid as i64)
                &&& res@ == spliced(filter@, start, end, ids)
            },
        },
{
    let cs = chars_of(filter);
    match find_project_id(&cs) {
        None => filter.to_owned(),
        Some((start, end, pid)) => {
            let map = children_map(projects);
            proof {
                lemma_listed_at_most_projects(map@, projects@);
            }
            let set = descendant_ids(&map, pid, projects.len());
            let ids = ids_ascending(&set);
            proof {
                assert forall|y: i64| #[trigger] set@.contains(y)
                    <==> reachable(project_children(projects@), pid as i64, y) by {
                    if set@.contains(y) {
                        assert(reachable_within(project_children(projects@), pid as i64, y, projects.len() as nat));
                    }
                }
                assert(reachable_within(project_children(projects@), pid as i64, pid as i64, 0));
                assert(ids@.no_duplicates());
                ids@.unique_seq_to_set();
                assert forall|y: i64| #[trigger] ids@.contains(y) <==> set@.contains(y) by {
                    assert(ids@.to_set().contains(y) == ids@.contains(y));
                }
            }
            if set.len() <= 1 {
                assert(ids@.len() <= 1);
                return filter.to_owned();
            }
            let mut out = String::new();
            push_chars(&mut out, &cs, 0, start);
            push_char(&mut out, '(');
            let ghost head = out@;
            let n = ids.len();
            for i in 0..n
                invariant
                    n == ids@.len(),
                    out@ == head + or_terms(ids@.take(i as int)),
            {
                if i > 0 {
                    push_char(&mut out, ' ');
                    push_char(&mut out, '|');
                    push_char(&mut out, '|');
                    push_char(&mut out, ' ');
                }
                push_id_term(&mut out, ids[i]);
                assert(ids@.take(i + 1).drop_last() =~= ids@.take(i as int));
                assert(ids@.take(i + 1).last() == ids@[i as int]);
                if i == 0 {
                    assert(out@ =~= head + or_terms(ids@.take(1)));
                } else {
                    assert(out@ =~= head + or_terms(ids@.take(i + 1)));
                }
            }
            push_char(&mut out, ')');
            push_chars(&mut out, &cs, end, cs.len());
            proof {
                assert(ids@.take(n as int) =~= ids@);
                assert(cs@.subrange(0, start as int) =~= filter@.take(start as int));
                assert(cs@.subrange(end as int, cs@.len() as int) =~= filter@.skip(end as int));
                assert(out@ =~= spliced(filter@, start as int, end as int, ids@));
            }
            out
        },
    }
}

/// Compares two texts as Rust compares strings: `a <= b`.
fn text_le_exec(a: &String, b: &String) -> (r: bool)
    ensures
        r == text_le(a@, b@),
{
    let x = chars_of(a.as_str());
    let y = chars_of(b.as_str());
    let mut i: usize = 0;
    assert(a@.skip(0) =~= a@ && b@.skip(0) =~= b@);
    while i < x.len() && i < y.len() && x[i] == y[i]
        invariant
            i <= x@.len(),
            i <= y@.len(),
            x@ == a@,
            y@ == b@,
            text_le(a@, b@) == text_le(a@.skip(i as int), b@.skip(i as int)),
        decreases x@.len() - i,
    {
        assert(a@.skip(i as int).drop_first() =~= a@.skip(i + 1));
        assert(b@.skip(i as int).drop_first() =~= b@.skip(i + 1));
        i = i + 1;
    }
    if i == x.len() {
        true
    } else if i == y.len() {
        false
    } else {
        assert(a@.skip(i as int)[0] == x@[i as int]);
        assert(b@.skip(i as int)[0] == y@[i as int]);
        x[i] < y[i]
    }
}

/// Where `x` lands when inserted after the elements whose titles are at most its own.
proof fn lemma_insert_position(ps: Seq<Project>, x: i64, s: Seq<i64>, k: int)
    requires
        0 <= k <= s.len(),
        forall|m: int| k <= m < s.len() ==> !text_le(title_of(ps, #[trigger] s[m]), title_of(ps, x)),
        k == 0 || text_le(title_of(ps, s[k - 1]), title_of(ps, x)),
    ensures
        insert_by_title(ps, x, s) == s.take(k).push(x) + s.skip(k),
    decreases s.len(),
{
    if s.len() == 0 {
        assert(s.take(k).push(x) + s.skip(k) =~= seq![x]);
    } else if k == s.len() {
        assert(s.take(k).push(x) + s.skip(k) =~= s.push(x));
    } else {
        assert(!text_le(title_of(ps, s[s.len() - 1]), title_of(ps, x)));
        let t = s.drop_last();
        assert forall|m: int| k <= m < t.len() implies !text_le(title_of(ps, #[trigger] t[m]), title_of(ps, x)) by {
            assert(t[m] == s[m]);
        }
        lemma_insert_position(ps, x, t, k);
        assert(insert_by_title(ps, x, s) == insert_by_title(ps, x, t).push(s.last()));
        assert(t.take(k).push(x) + t.skip(k) + seq![s.last()] =~= s.take(k).push(x) + s.skip(k));
    }
}

/// Sorts nodes stably by title (`sort_by` on titles).
fn sort_nodes(nodes: Vec<ProjectNode>, Ghost(ps): Ghost<Seq<Project>>) -> (out: Vec<ProjectNode>)
    requires
        forall|i: int| 0 <= i < nodes@.len() ==> (#[trigger] nodes@[i]).title@ == title_of(ps, nodes@[i].id),
    ensures
        node_ids(out@) == sort_by_title(ps, node_ids(nodes@)),
        forall|i: int| 0 <= i < out@.len() ==> exists|j: int| 0 <= j < nodes@.len() && #[trigger] out@[i] == nodes@[j],
{
    let ghost orig = nodes@;
    let mut rest = nodes;
    let mut out: Vec<ProjectNode> = Vec::new();
    let n = rest.len();
    let mut i: usize = 0;
    while i < n
        invariant
            n == orig.len(),
            i <= n,
            rest@ == orig.skip(i as int),
            forall|i: int| 0 <= i < orig.len() ==> (#[trigger] orig[i]).title@ == title_of(ps, orig[i].id),
            node_ids(out@) == sort_by_title(ps, node_ids(orig).take(i as int)),
            forall|m: int| 0 <= m < out@.len() ==> exists|j: int| 0 <= j < orig.len() && #[trigger] out@[m] == orig[j],
        decreases n - i,
    {
        assert(rest@[0] == orig[i as int]);
        let x = rest.remove(0);
        assert(rest@ =~= orig.skip(i + 1));
        let mut k = out.len();
        while k > 0 && !text_le_exec(&out[k - 1].title, &x.title)
            invariant
                k <= out@.len(),
                forall|m: int| 0 <= m < out@.len() ==> exists|j: int| 0 <= j < orig.len() && #[trigger] out@[m] == orig[j],
                forall|m: int| k <= m < out@.len() ==> !text_le(title_of(ps, #[trigger] node_ids(out@)[m]), title_of(ps, x.id)),
                x.title@ == title_of(ps, x.id),
                forall|i: int| 0 <= i < orig.len() ==> (#[trigger] orig[i]).title@ == title_of(ps, orig[i].id),
            decreases k,
        {
            let ghost j = choose|j: int| 0 <= j < orig.len() && out@[k - 1] == orig[j];
            assert(out@[k - 1].title@ == title_of(ps, out@[k - 1].id));
            k = k - 1;
        }
        proof {
            if k > 0 {
                let j = choose|j: int| 0 <= j < orig.len() && out@[k - 1] == orig[j];
                assert(out@[k - 1].title@ == title_of(ps, out@[k - 1].id));
            }
            lemma_insert_position(ps, x.id, node_ids(out@), k as int);
            assert(node_ids(orig).take(i + 1).drop_last() =~= node_ids(orig).take(i as int));
            assert(node_ids(orig).take(i + 1).last() == x.id);
        }
        let ghost before = out@;
        out.insert(k, x);
        proof {
            assert(node_ids(out@) =~= node_ids(before).take(k as int).push(x.id) + node_ids(before).skip(k as int));
            assert forall|m: int| 0 <= m < out@.len() implies exists|j: int| 0 <= j < orig.len() && #[trigger] out@[m] == orig[j] by {
                if m < k {
                    assert(out@[m] == before[m]);
                } else if m == k {
                    assert(out@[m] == orig[i as int]);
                } else {
                    assert(out@[m] == before[m - 1]);
                }
            }
        }
        i = i + 1;
    }
    assert(node_ids(orig).take(n as int) =~= node_ids(orig));
    out
}

/// Maps each project id to the last project in the list with that id.
fn project_index(projects: &[Project]) -> (by_id: HashMap<i64, &Project>)
    ensures
        forall|id: i64| #[trigger] by_id@.contains_key(id) ==> by_id@[id].title@ == title_of(projects@, id),
        forall|id: i64| !#[trigger] by_id@.contains_key(id) ==> title_of(projects@, id) == Seq::<char>::empty(),
{
    let mut by_id: HashMap<i64, &Project> = HashMap::new();
    let n = projects.len();
    for i in 0..n
        invariant
            n == projects@.len(),
            forall|id: i64| #[trigger] by_id@.contains_key(id) ==> by_id@[id].title@ == title_of(projects@.take(i as int), id),
            forall|id: i64| !#[trigger] by_id@.contains_key(id) ==> title_of(projects@.take(i as int), id) == Seq::<char>::empty(),
    {
        let p = &projects[i];
        by_id.insert(p.id, p);
        assert(projects@.take(i + 1).drop_last() =~= projects@.take(i as int));
        assert(projects@.take(i + 1).last() == projects@[i as int]);
    }
    assert(projects@.take(n as int) =~= projects@);
    by_id
}

/// The node for project `id`, its children built with at most `fuel` levels.
fn build_node(
    projects: &[Project],
    map: &HashMap<i64, Vec<i64>>,
    by_id: &HashMap<i64, &Project>,
    id: i64,
    fuel: usize,
) -> (node: ProjectNode)
    requires
        map_children(map@) == project_children(projects@),
        forall|id: i64| #[trigger] by_id@.contains_key(id) ==> by_id@[id].title@ == title_of(projects@, id),
        forall|id: i64| !#[trigger] by_id@.contains_key(id) ==> title_of(projects@, id) == Seq::<char>::empty(),
    ensures
        node.id == id,
        node.title@ == title_of(projects@, id),
        finite_height(project_children(projects@), id, fuel as nat) ==> tree_ok(projects@, node, fuel as nat),
    decreases fuel,
{
    let ghost ps = projects@;
    let title = match by_id.get(&id) {
        Some(p) => p.title.clone(),
        None => String::new(),
    };
    let mut children: Vec<ProjectNode> = Vec::new();
    if fuel > 0 {
        assert(map_children(map@)(id) == project_children(ps)(id));
        match map.get(&id) {
            Some(kids) => {
                assert(kids@ == child_ids(ps, id));
                let n = kids.len();
                for j in 0..n
                    invariant
                        n == kids@.len(),
                        kids@ == child_ids(ps, id),
                        fuel > 0,
                        ps == projects@,
                        map_children(map@) == project_children(projects@),
                        forall|id: i64| #[trigger] by_id@.contains_key(id) ==> by_id@[id].title@ == title_of(projects@, id),
                        forall|id: i64| !#[trigger] by_id@.contains_key(id) ==> title_of(projects@, id) == Seq::<char>::empty(),
                        children@.len() == j,
                        forall|m: int| 0 <= m < j ==> (#[trigger] children@[m]).id == kids@[m]
                            && children@[m].title@ == title_of(ps, kids@[m]),
                        finite_height(project_children(ps), id, fuel as nat) ==> forall|m: int| 0 <= m < j
                            ==> tree_ok(ps, #[trigger] children@[m], (fuel - 1) as nat),
                {
                    let child = build_node(projects, map, by_id, kids[j], fuel - 1);
                    proof {
                        if finite_height(project_children(ps), id, fuel as nat) {
                            assert(project_children(ps)(id).contains(kids@[j as int]));
                        }
                    }
                    children.push(child);
                }
                assert(node_ids(children@) =~= child_ids(ps, id));
            },
            None => {
                assert(child_ids(ps, id) =~= Seq::<i64>::empty());
                assert(node_ids(children@) =~= child_ids(ps, id));
            },
        }
    }
    let ghost unsorted = children@;
    let sorted = sort_nodes(children, Ghost(ps));
    let node = ProjectNode { id, title, children: sorted };
    proof {
        if finite_height(project_children(ps), id, fuel as nat) {
            assert forall|i: int| 0 <= i < node.children@.len()
                implies tree_ok(ps, #[trigger] node.children@[i], (fuel - 1) as nat) by {
                let j = choose|j: int| 0 <= j < unsorted.len() && node.children@[i] == unsorted[j];
            }
        }
    }
    node
}

/// Builds the project forest: top-level projects (no parent, or parent 0) with their
/// sub-projects below them, every level sorted by title (stably).
///
/// The top level is always exact. Below it, each root is the full tree of its sub-projects
/// whenever those trees are finite (the child links reachable from the roots form no cycle);
/// on a cycle, where building the whole tree would never end, the tree is cut off.
pub fn build_tree(projects: &[Project]) -> (roots: Vec<ProjectNode>)
    ensures
        node_ids(roots@) == sort_by_title(projects@, ids_under(projects@, None)),
        forall|i: int| 0 <= i < roots@.len() ==> (#[trigger] roots@[i]).title@ == title_of(projects@, roots@[i].id),
        forest_is_finite(projects@) ==> forall|i: int| 0 <= i < roots@.len()
            ==> is_project_tree(projects@, #[trigger] roots@[i]),
{
    let ghost ps = projects@;
    let map = children_map(projects);
    let by_id = project_index(projects);
    let n = projects.len();
    let mut roots: Vec<ProjectNode> = Vec::new();
    for i in 0..n
        invariant
            n == ps.len(),
            ps == projects@,
            map_children(map@) == project_children(ps),
            forall|id: i64| #[trigger] by_id@.contains_key(id) ==> by_id@[id].title@ == title_of(ps, id),
            forall|id: i64| !#[trigger] by_id@.contains_key(id) ==> title_of(ps, id) == Seq::<char>::empty(),
            node_ids(roots@) == ids_under(ps.take(i as int), None),
            forall|m: int| 0 <= m < roots@.len() ==> (#[trigger] roots@[m]).title@ == title_of(ps, roots@[m].id),
            forall|m: int| 0 <= m < roots@.len() ==> ids_under(ps, None).contains(#[trigger] roots@[m].id),
            forall|m: int| 0 <= m < roots@.len() ==> (finite_height(project_children(ps), roots@[m].id, n as nat)
                ==> tree_ok(ps, #[trigger] roots@[m], n as nat)),
    {
        let p = &projects[i];
        assert(ps.take(i + 1).drop_last() =~= ps.take(i as int));
        assert(ps.take(i + 1).last() == ps[i as int]);
        let top = match p.parent_project_id {
            Some(parent) => parent == 0,
            None => true,
        };
        if top {
            assert(parent_of(ps[i as int]) == None::<i64>);
            proof {
                lemma_ids_under_prefix(ps, None, i as int);
            }
            let node = build_node(projects, &map, &by_id, p.id, n);
            roots.push(node);
            assert(node_ids(roots@) =~= ids_under(ps.take(i + 1), None));
        }
    }
    assert(ps.take(n as int) =~= ps);
    let sorted = sort_nodes(roots, Ghost(ps));
    proof {
        if forest_is_finite(ps) {
            let h = choose|h: nat| #[trigger] forest_height_below(ps, h);
            assert forall|i: int| 0 <= i < sorted@.len() implies is_project_tree(ps, #[trigger] sorted@[i]) by {
                let j = choose|j: int| 0 <= j < roots@.len() && sorted@[i] == roots@[j];
                let r = roots@[j].id;
                assert(ids_under(ps, None).contains(r));
                lemma_ids_under_are_ids(ps, None, r);
                lemma_height_at_most_count(ps, r, h);
                assert(tree_ok(ps, sorted@[i], n as nat));
            }
        }
        assert forall|i: int| 0 <= i < sorted@.len() implies (#[trigger] sorted@[i]).title@ == title_of(ps, sorted@[i].id) by {
            let j = choose|j: int| 0 <= j < roots@.len() && sorted@[i] == roots@[j];
        }
    }
    sorted
}

} // verus!
