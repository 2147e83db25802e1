//! Properties that tie several parts of the library together.

use vstd::prelude::*;
use crate::filter::{
    clause_at, first_clause, first_clause_from, id_term, key_at, or_terms, project_id_key, skip_digits, skip_spaces,
};
use crate::hierarchy::{
    child_ids, ids_under, insert_by_title, parent_of, project_children, project_ids, reachable, reachable_within, sort_by_title,
    text_le, title_of,
};
use crate::output::{assignee_names, forest_size, label_titles, preorder, task_row_cells};
use crate::text::{
    all_digits, is_digit, is_space, digit_char, digit_value, digits_value, find_char, has_infix, int_text, joined, truncated, lemma_find_char_is,
    leading_spaces, nat_text, parse_i64, parsed_ids, split_on, trimmed, trimmed_end,
};
use crate::commands::{detach_orphans, insert_by_id, project_update_fields, task_update_fields, keeps_parent, lowercase, sorted_by_id, titles_matching};
use crate::types::{Project, ProjectNode, Task};
use crate::json::{flag_field, int_field, text_field, with_field, FieldValue, Fraction};

verus! {

/// Ids written out in decimal, separated by commas (as in `task labels 42 --ids 1,3,5`).
pub open spec fn comma_list(ids: Seq<i64>) -> Seq<char>
    decreases ids.len(),
{
    if ids.len() == 0 {
        seq![]
    } else if ids.len() == 1 {
        int_text(ids[0] as int)
    } else {
        int_text(ids[0] as int) + seq![','] + comma_list(ids.drop_first())
    }
}

proof fn lemma_digit_round_trip(d: nat)
    requires
        d < 10,
    ensures
        digit_value(digit_char(d)) == d,
        crate::text::is_digit(digit_char(d)),
{
    assert('0' as u32 == 48);
    assert('1' as u32 == 49);
    assert('2' as u32 == 50);
    assert('3' as u32 == 51);
    assert('4' as u32 == 52);
    assert('5' as u32 == 53);
    assert('6' as u32 == 54);
    assert('7' as u32 == 55);
    assert('8' as u32 == 56);
    assert('9' as u32 == 57);
}

proof fn lemma_nat_text_digits(n: nat)
    ensures
        nat_text(n).len() > 0,
        all_digits(nat_text(n)),
        digits_value(nat_text(n)) == n,
    decreases n,
{
    lemma_digit_round_trip(n % 10);
    if n < 10 {
        let t = nat_text(n);
        assert(t.drop_last() =~= Seq::<char>::empty());
        assert(digits_value(t) == digits_value(t.drop_last()) * 10 + digit_value(t.last()));
    } else {
        lemma_nat_text_digits(n / 10);
        let t = nat_text(n);
        assert(t.drop_last() == nat_text(n / 10));
        assert(digits_value(t) == digits_value(t.drop_last()) * 10 + digit_value(t.last()));
        assert(all_digits(t)) by {
            assert forall|i: int| 0 <= i < t.len() implies crate::text::is_digit(#[trigger] t[i]) by {
                if i < t.len() - 1 {
                    assert(t[i] == nat_text(n / 10)[i]);
                }
            }
        }
    }
}

proof fn lemma_int_text_shape(n: int)
    requires
        i64::MIN <= n <= i64::MAX,
    ensures
        int_text(n).len() > 0,
        !crate::text::is_space(int_text(n)[0]),
        !crate::text::is_space(int_text(n).last()),
        forall|i: int| 0 <= i < int_text(n).len() ==> #[trigger] int_text(n)[i] != ',',
        parse_i64(int_text(n)) == Some(n as i64),
{
    if n < 0 {
        lemma_nat_text_digits((-n) as nat);
        let t = nat_text((-n) as nat);
        let s = int_text(n);
        assert(s.drop_first() =~= t);
        assert(s.last() == t.last());
        assert forall|i: int| 0 <= i < s.len() implies #[trigger] s[i] != ',' by {
            if i > 0 {
                assert(s[i] == t[i - 1]);
                assert(crate::text::is_digit(t[i - 1]));
            }
        }
    } else {
        lemma_nat_text_digits(n as nat);
        let s = int_text(n);
        assert(crate::text::is_digit(s[0]));
        assert(crate::text::is_digit(s.last()));
        assert forall|i: int| 0 <= i < s.len() implies #[trigger] s[i] != ',' by {
            assert(crate::text::is_digit(s[i]));
        }
    }
}

proof fn lemma_trim_plain(s: Seq<char>)
    requires
        s.len() > 0,
        !crate::text::is_space(s[0]),
        !crate::text::is_space(s.last()),
    ensures
        trimmed(s) == s,
{
    assert(trimmed_end(s) == s.len());
    assert(s.take(s.len() as int) =~= s);
    assert(leading_spaces(s) == 0);
    assert(s.skip(0) =~= s);
}

/// Reading back a comma-separated list of ids gives exactly those ids: what `task get-detail`
/// and `task labels --ids` parse from ids written out in decimal and joined by commas.
pub proof fn law_id_list_round_trip(ids: Seq<i64>)
    ensures
        parsed_ids(split_on(comma_list(ids), ',')) == ids,
    decreases ids.len(),
{
    let s = comma_list(ids);
    if ids.len() == 0 {
        lemma_find_char_is(s, ',', 0, 0);
        assert(split_on(s, ',') == seq![s]);
        assert(trimmed(s) =~= s);
        assert(seq![s].drop_first() =~= Seq::<Seq<char>>::empty());
        assert(parse_i64(trimmed(s)) is None);
        assert(seq![s][0] == s);
        assert(parsed_ids(Seq::<Seq<char>>::empty()) =~= Seq::<i64>::empty());
        assert(parsed_ids(seq![s]) =~= Seq::<i64>::empty() + parsed_ids(seq![s].drop_first()));
        assert(parsed_ids(seq![s]).len() == 0);
        assert(parsed_ids(split_on(s, ',')) =~= ids);
    } else if ids.len() == 1 {
        lemma_int_text_shape(ids[0] as int);
        lemma_find_char_is(s, ',', 0, s.len() as int);
        lemma_trim_plain(s);
        assert(split_on(s, ',') == seq![s]);
        let pieces = seq![s];
        assert(pieces.drop_first() =~= Seq::<Seq<char>>::empty());
        assert(pieces[0] == s);
        assert(parse_i64(trimmed(pieces[0])) == Some(ids[0]));
        assert(parsed_ids(pieces.drop_first()) =~= Seq::<i64>::empty());
        assert(parsed_ids(pieces) =~= seq![ids[0]] + Seq::<i64>::empty());
        assert(parsed_ids(split_on(s, ',')) =~= ids);
    } else {
        let t = int_text(ids[0] as int);
        let rest = comma_list(ids.drop_first());
        lemma_int_text_shape(ids[0] as int);
        lemma_trim_plain(t);
        assert(s == t + seq![','] + rest);
        assert forall|k: int| 0 <= k < t.len() implies s[k] != ',' by {
            assert(s[k] == t[k]);
        }
        lemma_find_char_is(s, ',', 0, t.len() as int);
        assert(s.take(t.len() as int) =~= t);
        assert(s.skip(t.len() + 1int) =~= rest);
        law_id_list_round_trip(ids.drop_first());
        let pieces = split_on(s, ',');
        assert(pieces == seq![t] + split_on(rest, ','));
        assert(pieces[0] == t);
        assert(parse_i64(trimmed(pieces[0])) == Some(ids[0]));
        assert(pieces.drop_first() =~= split_on(rest, ','));
        assert(parsed_ids(pieces) =~= seq![ids[0]] + ids.drop_first());
        assert(seq![ids[0]] + ids.drop_first() =~= ids);
    }
}

/// A filter that does not mention `project_id` has no clause to expand, so the project list
/// need not be fetched for it: the expansion leaves such a filter unchanged.
pub proof fn law_no_mention_no_expansion(filter: Seq<char>)
    requires
        !has_infix(filter, project_id_key()),
    ensures
        first_clause(filter) is None,
{
    lemma_no_clause_from(filter, 0);
}

proof fn lemma_no_clause_from(s: Seq<char>, i: int)
    requires
        !has_infix(s, project_id_key()),
        0 <= i,
    ensures
        first_clause_from(s, i) is None,
    decreases s.len() - i,
{
    if i < s.len() {
        if key_at(s, i) {
            assert(s.subrange(i, i + project_id_key().len()) == project_id_key());
        }
        lemma_no_clause_from(s, i + 1);
    }
}

/// A project is listed among the sub-projects of its parent.
proof fn lemma_project_is_child(ps: Seq<Project>, i: int, p: i64)
    requires
        0 <= i < ps.len(),
        parent_of(ps[i]) == Some(p),
    ensures
        child_ids(ps, p).contains(ps[i].id),
    decreases ps.len(),
{
    let rest = ids_under(ps.drop_last(), Some(p));
    if i == ps.len() - 1 {
        assert(ids_under(ps, Some(p)) == rest.push(ps.last().id));
        assert(ids_under(ps, Some(p))[rest.len() as int] == ps[i].id);
    } else {
        assert(ps.drop_last()[i] == ps[i]);
        lemma_project_is_child(ps.drop_last(), i, p);
        let j = choose|j: int| 0 <= j < rest.len() && rest[j] == ps[i].id;
        if parent_of(ps.last()) == Some(p) {
            assert(ids_under(ps, Some(p))[j] == ps[i].id);
        }
    }
}

/// Sub-project expansion reaches every level: when each project of a chain has the one before
/// it as parent, every project of the chain lies below the first, however long the chain.
pub proof fn law_chain_lies_below(ps: Seq<Project>, chain: Seq<int>)
    requires
        chain.len() > 0,
        forall|k: int| 0 <= k < chain.len() ==> 0 <= #[trigger] chain[k] < ps.len(),
        forall|k: int| 0 < k < chain.len() ==> parent_of(ps[#[trigger] chain[k]]) == Some(ps[chain[k - 1]].id),
    ensures
        forall|k: int| 0 <= k < chain.len()
            ==> reachable(project_children(ps), ps[chain[0]].id, ps[#[trigger] chain[k]].id),
{
    assert forall|k: int| 0 <= k < chain.len()
        implies reachable(project_children(ps), ps[chain[0]].id, ps[#[trigger] chain[k]].id) by {
        lemma_chain_within(ps, chain, k);
    }
}

proof fn lemma_chain_within(ps: Seq<Project>, chain: Seq<int>, k: int)
    requires
        0 <= k < chain.len(),
        forall|k: int| 0 <= k < chain.len() ==> 0 <= #[trigger] chain[k] < ps.len(),
        forall|k: int| 0 < k < chain.len() ==> parent_of(ps[#[trigger] chain[k]]) == Some(ps[chain[k - 1]].id),
    ensures
        reachable_within(project_children(ps), ps[chain[0]].id, ps[chain[k]].id, k as nat),
        reachable(project_children(ps), ps[chain[0]].id, ps[chain[k]].id),
    decreases k,
{
    let ch = project_children(ps);
    if k > 0 {
        lemma_chain_within(ps, chain, k - 1);
        let p = ps[chain[k - 1]].id;
        assert(parent_of(ps[chain[k]]) == Some(p));
        lemma_project_is_child(ps, chain[k], p);
        assert(ch(p).contains(ps[chain[k]].id));
        if ps[chain[k]].id != ps[chain[0]].id {
            assert(((k as nat) - 1) as nat == (k - 1) as nat);
        }
    }
    assert(reachable_within(ch, ps[chain[0]].id, ps[chain[k]].id, k as nat));
}

/// The total printed under the project tree is its number of lines.
pub proof fn law_tree_count_matches_lines(nodes: Seq<ProjectNode>, depth: nat)
    ensures
        preorder(nodes, depth).len() == forest_size(nodes),
    decreases nodes,
{
    if nodes.len() > 0 {
        law_tree_count_matches_lines(nodes.drop_last(), depth);
        law_tree_count_matches_lines(nodes.last().children@, depth + 1);
    }
}

/// Ids that never decrease along the list.
pub open spec fn ids_ascending(s: Seq<Project>) -> bool {
    forall|i: int, j: int| 0 <= i < j < s.len() ==> s[i].id <= s[j].id
}

proof fn lemma_insert_by_id(x: Project, s: Seq<Project>)
    requires
        ids_ascending(s),
    ensures
        ids_ascending(insert_by_id(x, s)),
        insert_by_id(x, s).to_multiset() == s.to_multiset().insert(x),
        forall|y: Project| #[trigger] insert_by_id(x, s).contains(y) <==> s.contains(y) || y == x,
    decreases s.len(),
{
    broadcast use vstd::seq_lib::group_to_multiset_ensures, vstd::multiset::group_multiset_axioms,
        vstd::multiset::lemma_multiset_empty_len;
    let r = insert_by_id(x, s);
    if s.len() == 0 {
        assert(seq![x] =~= s.push(x));
        assert forall|y: Project| #[trigger] r.contains(y) <==> s.contains(y) || y == x by {
            if r.contains(y) {
                let k = choose|k: int| 0 <= k < r.len() && r[k] == y;
            }
            if y == x {
                assert(r[0] == y);
            }
        }
    } else if s.last().id <= x.id {
        assert forall|y: Project| #[trigger] r.contains(y) <==> s.contains(y) || y == x by {
            if r.contains(y) {
                let k = choose|k: int| 0 <= k < r.len() && r[k] == y;
                if k < s.len() {
                    assert(s[k] == y);
                }
            }
            if s.contains(y) {
                let k = choose|k: int| 0 <= k < s.len() && s[k] == y;
                assert(r[k] == y);
            }
            if y == x {
                assert(r[s.len() as int] == y);
            }
        }
    } else {
        let t = s.drop_last();
        let l = s.last();
        assert(ids_ascending(t));
        lemma_insert_by_id(x, t);
        let it = insert_by_id(x, t);
        assert(r == it.push(l));
        assert(s =~= t.push(l));
        assert forall|i: int, j: int| 0 <= i < j < r.len() implies r[i].id <= r[j].id by {
            if j == r.len() - 1 {
                assert(it.contains(r[i]));
                if r[i] != x {
                    let k = choose|k: int| 0 <= k < t.len() && t[k] == r[i];
                    assert(s[k] == r[i]);
                }
            }
        }
        assert forall|y: Project| #[trigger] r.contains(y) <==> s.contains(y) || y == x by {
            if r.contains(y) {
                let k = choose|k: int| 0 <= k < r.len() && r[k] == y;
                if k < it.len() {
                    assert(it.contains(y));
                    if t.contains(y) {
                        let m = choose|m: int| 0 <= m < t.len() && t[m] == y;
                        assert(s[m] == y);
                    }
                } else {
                    assert(s[s.len() - 1] == y);
                }
            }
            if s.contains(y) {
                let k = choose|k: int| 0 <= k < s.len() && s[k] == y;
                if k < t.len() {
                    assert(t[k] == y);
                    assert(it.contains(y));
                    let m = choose|m: int| 0 <= m < it.len() && it[m] == y;
                    assert(r[m] == y);
                } else {
                    assert(r[r.len() - 1] == y);
                }
            }
            if y == x {
                assert(it.contains(x));
                let m = choose|m: int| 0 <= m < it.len() && it[m] == x;
                assert(r[m] == x);
            }
        }
    }
}

/// `project list` orders the projects it shows by id, and shows each selected project once:
/// the stable sort by id gives ascending ids and the same projects.
pub proof fn law_sorted_by_id(s: Seq<Project>)
    ensures
        ids_ascending(sorted_by_id(s)),
        sorted_by_id(s).to_multiset() == s.to_multiset(),
    decreases s.len(),
{
    broadcast use vstd::seq_lib::to_multiset_build;
    if s.len() > 0 {
        law_sorted_by_id(s.drop_last());
        lemma_insert_by_id(s.last(), sorted_by_id(s.drop_last()));
        assert(s =~= s.drop_last().push(s.last()));
    }
}

/// A project whose lower-cased title contains the needle is among those that match.
proof fn lemma_match_is_kept(ps: Seq<Project>, needle: Seq<char>, i: int)
    requires
        0 <= i < ps.len(),
        has_infix(lowercase(ps[i].title@), needle),
    ensures
        titles_matching(ps, needle).contains(ps[i]),
    decreases ps.len(),
{
    let rest = titles_matching(ps.drop_last(), needle);
    if i == ps.len() - 1 {
        assert(titles_matching(ps, needle) == rest.push(ps.last()));
        assert(titles_matching(ps, needle)[rest.len() as int] == ps[i]);
    } else {
        assert(ps.drop_last()[i] == ps[i]);
        lemma_match_is_kept(ps.drop_last(), needle, i);
        let j = choose|j: int| 0 <= j < rest.len() && rest[j] == ps[i];
        if has_infix(lowercase(ps.last().title@), needle) {
            assert(titles_matching(ps, needle)[j] == ps[i]);
        }
    }
}

/// `project list --search` shows every project whose name matches, with its id and title, and
/// every project it shows either is at the top level or has its parent shown too, so that the
/// tree holds them all.
pub proof fn law_search_shows_every_match(ps: Seq<Project>, needle: Seq<char>)
    ensures
        forall|i: int| 0 <= i < ps.len() && #[trigger] has_infix(lowercase(ps[i].title@), needle)
            ==> exists|j: int| 0 <= j < sorted_by_id(detach_orphans(titles_matching(ps, needle))).len()
                && (#[trigger] sorted_by_id(detach_orphans(titles_matching(ps, needle)))[j]).id == ps[i].id
                && sorted_by_id(detach_orphans(titles_matching(ps, needle)))[j].title == ps[i].title,
        forall|j: int| 0 <= j < sorted_by_id(detach_orphans(titles_matching(ps, needle))).len()
            ==> match parent_of(#[trigger] sorted_by_id(detach_orphans(titles_matching(ps, needle)))[j]) {
                Some(x) => exists|k: int| 0 <= k < sorted_by_id(detach_orphans(titles_matching(ps, needle))).len()
                    && sorted_by_id(detach_orphans(titles_matching(ps, needle)))[k].id == x,
                None => true,
            },
{
    broadcast use vstd::seq_lib::group_to_multiset_ensures;
    let sel = titles_matching(ps, needle);
    let shown = detach_orphans(sel);
    let out = sorted_by_id(shown);
    law_sorted_by_id(shown);
    assert forall|i: int| 0 <= i < ps.len() && #[trigger] has_infix(lowercase(ps[i].title@), needle)
        implies exists|j: int| 0 <= j < out.len() && (#[trigger] out[j]).id == ps[i].id && out[j].title == ps[i].title by {
        lemma_match_is_kept(ps, needle, i);
        let m = choose|m: int| 0 <= m < sel.len() && sel[m] == ps[i];
        let e = shown[m];
        assert(shown.contains(e));
        assert(shown.to_multiset().count(e) > 0);
        assert(out.contains(e));
        let j = choose|j: int| 0 <= j < out.len() && out[j] == e;
        assert(out[j].id == ps[i].id);
    }
    assert forall|j: int| 0 <= j < out.len() implies match parent_of(#[trigger] out[j]) {
        Some(x) => exists|k: int| 0 <= k < out.len() && out[k].id == x,
        None => true,
    } by {
        let e = out[j];
        assert(out.contains(e));
        assert(out.to_multiset().count(e) > 0);
        assert(shown.contains(e));
        let m = choose|m: int| 0 <= m < shown.len() && shown[m] == e;
        if let Some(x) = parent_of(e) {
            assert(keeps_parent(sel[m], sel));
            assert(project_ids(sel).contains(x));
            let k0 = choose|k0: int| 0 <= k0 < project_ids(sel).len() && project_ids(sel)[k0] == x;
            let f = shown[k0];
            assert(f.id == x);
            assert(shown.contains(f));
            assert(shown.to_multiset().count(f) > 0);
            assert(out.contains(f));
            let k = choose|k: int| 0 <= k < out.len() && out[k] == f;
            assert(out[k].id == x);
        }
    }
}

/// Any two texts are ordered one way or the other.
pub proof fn lemma_text_le_total(a: Seq<char>, b: Seq<char>)
    ensures
        text_le(a, b) || text_le(b, a),
    decreases a.len(),
{
    if a.len() > 0 && b.len() > 0 && a[0] == b[0] {
        lemma_text_le_total(a.drop_first(), b.drop_first());
    }
}

/// The text order is transitive.
pub proof fn lemma_text_le_trans(a: Seq<char>, b: Seq<char>, c: Seq<char>)
    requires
        text_le(a, b),
        text_le(b, c),
    ensures
        text_le(a, c),
    decreases a.len(),
{
    if a.len() > 0 && b.len() > 0 && c.len() > 0 && a[0] == b[0] && b[0] == c[0] {
        lemma_text_le_trans(a.drop_first(), b.drop_first(), c.drop_first());
    }
}

/// Titles that never decrease along the list of ids.
pub open spec fn titles_ascending(ps: Seq<Project>, s: Seq<i64>) -> bool {
    forall|i: int, j: int| 0 <= i < j < s.len() ==> text_le(title_of(ps, s[i]), title_of(ps, s[j]))
}

proof fn lemma_insert_by_title(ps: Seq<Project>, x: i64, s: Seq<i64>)
    requires
        titles_ascending(ps, s),
    ensures
        titles_ascending(ps, insert_by_title(ps, x, s)),
        insert_by_title(ps, x, s).to_multiset() == s.to_multiset().insert(x),
        forall|y: i64| #[trigger] insert_by_title(ps, x, s).contains(y) <==> s.contains(y) || y == x,
    decreases s.len(),
{
    broadcast use vstd::seq_lib::group_to_multiset_ensures, vstd::multiset::group_multiset_axioms,
        vstd::multiset::lemma_multiset_empty_len;
    let r = insert_by_title(ps, x, s);
    if s.len() == 0 {
        assert(seq![x] =~= s.push(x));
        assert forall|y: i64| #[trigger] r.contains(y) <==> s.contains(y) || y == x by {
            if r.contains(y) {
                let k = choose|k: int| 0 <= k < r.len() && r[k] == y;
            }
            if y == x {
                assert(r[0] == y);
            }
        }
    } else if text_le(title_of(ps, s.last()), title_of(ps, x)) {
        assert forall|i: int, j: int| 0 <= i < j < r.len() implies text_le(title_of(ps, r[i]), title_of(ps, r[j])) by {
            if j == s.len() {
                if i < s.len() - 1 {
                    lemma_text_le_trans(title_of(ps, s[i]), title_of(ps, s.last()), title_of(ps, x));
                }
            }
        }
        assert forall|y: i64| #[trigger] r.contains(y) <==> s.contains(y) || y == x by {
            if r.contains(y) {
                let k = choose|k: int| 0 <= k < r.len() && r[k] == y;
                if k < s.len() {
                    assert(s[k] == y);
                }
            }
            if s.contains(y) {
                let k = choose|k: int| 0 <= k < s.len() && s[k] == y;
                assert(r[k] == y);
            }
            if y == x {
                assert(r[s.len() as int] == y);
            }
        }
    } else {
        let t = s.drop_last();
        let l = s.last();
        lemma_text_le_total(title_of(ps, l), title_of(ps, x));
        assert(titles_ascending(ps, t));
        lemma_insert_by_title(ps, x, t);
        let it = insert_by_title(ps, x, t);
        assert(r == it.push(l));
        assert(s =~= t.push(l));
        assert forall|i: int, j: int| 0 <= i < j < r.len() implies text_le(title_of(ps, r[i]), title_of(ps, r[j])) by {
            if j == r.len() - 1 {
                assert(it.contains(r[i]));
                if r[i] != x {
                    let k = choose|k: int| 0 <= k < t.len() && t[k] == r[i];
                    assert(s[k] == r[i]);
                }
            }
        }
        assert forall|y: i64| #[trigger] r.contains(y) <==> s.contains(y) || y == x by {
            if r.contains(y) {
                let k = choose|k: int| 0 <= k < r.len() && r[k] == y;
                if k < it.len() {
                    assert(it.contains(y));
                    if t.contains(y) {
                        let m = choose|m: int| 0 <= m < t.len() && t[m] == y;
                        assert(s[m] == y);
                    }
                } else {
                    assert(s[s.len() - 1] == y);
                }
            }
            if s.contains(y) {
                let k = choose|k: int| 0 <= k < s.len() && s[k] == y;
                if k < t.len() {
                    assert(t[k] == y);
                    assert(it.contains(y));
                    let m = choose|m: int| 0 <= m < it.len() && it[m] == y;
                    assert(r[m] == y);
                } else {
                    assert(r[r.len() - 1] == y);
                }
            }
            if y == x {
                assert(it.contains(x));
                let m = choose|m: int| 0 <= m < it.len() && it[m] == x;
                assert(r[m] == x);
            }
        }
    }
}

/// Each level of the project tree is ordered by title and holds each sub-project once:
/// the stable sort by title gives non-decreasing titles and the same ids.
pub proof fn law_sorted_by_title(ps: Seq<Project>, s: Seq<i64>)
    ensures
        titles_ascending(ps, sort_by_title(ps, s)),
        sort_by_title(ps, s).to_multiset() == s.to_multiset(),
    decreases s.len(),
{
    broadcast use vstd::seq_lib::to_multiset_build;
    if s.len() > 0 {
        law_sorted_by_title(ps, s.drop_last());
        lemma_insert_by_title(ps, s.last(), sort_by_title(ps, s.drop_last()));
        assert(s =~= s.drop_last().push(s.last()));
    }
}


/// Titles are ordered as Rust orders strings: a text sorts before every longer text that
/// begins with it, and never after it.
pub proof fn law_prefix_sorts_first(a: Seq<char>, t: Seq<char>)
    ensures
        text_le(a, a + t),
        t.len() > 0 ==> !text_le(a + t, a),
    decreases a.len(),
{
    if a.len() > 0 {
        law_prefix_sorts_first(a.drop_first(), t);
        assert((a + t).drop_first() =~= a.drop_first() + t);
        assert((a + t)[0] == a[0]);
    } else {
        assert(a + t =~= t);
    }
}

/// Where two texts first differ, the text with the smaller character there comes first.
pub proof fn law_first_difference_decides(a: Seq<char>, b: Seq<char>, i: int)
    requires
        0 <= i < a.len(),
        i < b.len(),
        a.take(i) == b.take(i),
        a[i] != b[i],
    ensures
        text_le(a, b) == (a[i] < b[i]),
    decreases i,
{
    if i > 0 {
        assert(a[0] == a.take(i)[0]);
        assert(b[0] == b.take(i)[0]);
        assert(a.drop_first().take(i - 1) =~= b.drop_first().take(i - 1)) by {
            assert forall|k: int| 0 <= k < i - 1 implies a.drop_first()[k] == b.drop_first()[k] by {
                assert(a[k + 1] == a.take(i)[k + 1]);
                assert(b[k + 1] == b.take(i)[k + 1]);
            }
        }
        law_first_difference_decides(a.drop_first(), b.drop_first(), i - 1);
    }
}

/// Joining texts with a separator keeps each of them whole.
pub proof fn law_joined_holds_every_part(parts: Seq<Seq<char>>, sep: Seq<char>, i: int)
    requires
        0 <= i < parts.len(),
    ensures
        has_infix(joined(parts, sep), parts[i]),
    decreases parts.len(),
{
    let j = joined(parts, sep);
    if parts.len() == 1 {
        let k: int = 0;
        assert(j.subrange(k, k + parts[i].len()) =~= parts[i]);
    } else if i == parts.len() - 1 {
        let pre = joined(parts.drop_last(), sep) + sep;
        assert(j == pre + parts.last());
        let k: int = pre.len() as int;
        assert(j.subrange(k, k + parts[i].len()) =~= parts[i]);
    } else {
        law_joined_holds_every_part(parts.drop_last(), sep, i);
        let inner = joined(parts.drop_last(), sep);
        assert(parts.drop_last()[i] == parts[i]);
        let k = choose|k: int| 0 <= k <= inner.len() - parts[i].len()
            && #[trigger] inner.subrange(k, k + parts[i].len()) == parts[i];
        assert(j == inner + sep + parts.last());
        assert(j.subrange(k, k + parts[i].len()) =~= inner.subrange(k, k + parts[i].len()));
    }
}

/// Joining one more text adds the separator and that text at the end, so the parts keep
/// their order.
pub proof fn law_joined_appends(parts: Seq<Seq<char>>, sep: Seq<char>, x: Seq<char>)
    ensures
        parts.len() == 0 ==> joined(parts.push(x), sep) == x,
        parts.len() > 0 ==> joined(parts.push(x), sep) == joined(parts, sep) + sep + x,
{
    assert(parts.push(x).drop_last() =~= parts);
}

/// The labels and assignees cells of a task row show every label title and every user name.
pub proof fn law_task_row_shows_all_names(t: Task)
    ensures
        task_row_cells(t)[6] == truncated(
            match t.labels {
                Some(ls) => joined(label_titles(ls@), ", "@),
                None => seq![],
            },
            30,
        ),
        task_row_cells(t)[7] == truncated(
            match t.assignees {
                Some(xs) => joined(assignee_names(xs@), ", "@),
                None => seq![],
            },
            30,
        ),
        t.labels matches Some(ls) ==> forall|i: int| 0 <= i < ls@.len()
            ==> has_infix(joined(label_titles(ls@), ", "@), (#[trigger] ls@[i]).title@),
        t.assignees matches Some(xs) ==> forall|i: int| 0 <= i < xs@.len()
            ==> has_infix(joined(assignee_names(xs@), ", "@), (#[trigger] xs@[i]).username@),
{
    if let Some(ls) = t.labels {
        assert forall|i: int| 0 <= i < ls@.len()
            implies has_infix(joined(label_titles(ls@), ", "@), (#[trigger] ls@[i]).title@) by {
            law_joined_holds_every_part(label_titles(ls@), ", "@, i);
        }
    }
    if let Some(xs) = t.assignees {
        assert forall|i: int| 0 <= i < xs@.len()
            implies has_infix(joined(assignee_names(xs@), ", "@), (#[trigger] xs@[i]).username@) by {
            law_joined_holds_every_part(assignee_names(xs@), ", "@, i);
        }
    }
}

proof fn lemma_first_clause_from(s: Seq<char>, i: int)
    requires
        0 <= i,
    ensures
        match first_clause_from(s, i) {
            Some((a, e, v)) => i <= a && clause_at(s, a) == Some((a, e, v))
                && forall|k: int| i <= k < a ==> #[trigger] clause_at(s, k) is None,
            None => forall|k: int| i <= k ==> #[trigger] clause_at(s, k) is None,
        },
    decreases s.len() - i,
{
    if i < s.len() {
        lemma_first_clause_from(s, i + 1);
    } else {
        assert forall|k: int| i <= k implies #[trigger] clause_at(s, k) is None by {
            assert(!key_at(s, k));
        }
    }
}

/// The clause that filter expansion rewrites is the leftmost one: none starts before it, and
/// when there is none, no position starts a clause.
pub proof fn law_first_clause_is_leftmost(s: Seq<char>)
    ensures
        match first_clause(s) {
            Some((a, e, v)) => clause_at(s, a) == Some((a, e, v))
                && forall|k: int| 0 <= k < a ==> #[trigger] clause_at(s, k) is None,
            None => forall|k: int| #[trigger] clause_at(s, k) is None,
        },
{
    lemma_first_clause_from(s, 0);
    if first_clause(s) is None {
        assert forall|k: int| #[trigger] clause_at(s, k) is None by {
            if k < 0 {
                assert(!key_at(s, k));
            }
        }
    }
}

proof fn lemma_matches_match(ps: Seq<Project>, needle: Seq<char>, m: int)
    requires
        0 <= m < titles_matching(ps, needle).len(),
    ensures
        has_infix(lowercase(titles_matching(ps, needle)[m].title@), needle),
        exists|i: int| 0 <= i < ps.len() && ps[i] == titles_matching(ps, needle)[m],
    decreases ps.len(),
{
    let rest = titles_matching(ps.drop_last(), needle);
    if m < rest.len() {
        lemma_matches_match(ps.drop_last(), needle, m);
        let i = choose|i: int| 0 <= i < ps.drop_last().len() && ps.drop_last()[i] == rest[m];
        assert(ps[i] == ps.drop_last()[i]);
        if has_infix(lowercase(ps.last().title@), needle) {
            assert(titles_matching(ps, needle)[m] == rest[m]);
        }
    } else {
        assert(titles_matching(ps, needle) == rest.push(ps.last()));
        assert(ps[ps.len() - 1] == ps.last());
    }
}

/// `project list --search` shows only projects whose lower-cased title contains the needle,
/// each with the id and title of one of the listed projects.
pub proof fn law_search_shows_only_matches(ps: Seq<Project>, needle: Seq<char>)
    ensures
        forall|j: int| 0 <= j < sorted_by_id(detach_orphans(titles_matching(ps, needle))).len() ==> {
            &&& has_infix(lowercase((#[trigger] sorted_by_id(detach_orphans(titles_matching(ps, needle)))[j]).title@), needle)
            &&& exists|i: int| 0 <= i < ps.len()
                && ps[i].id == sorted_by_id(detach_orphans(titles_matching(ps, needle)))[j].id
                && ps[i].title == sorted_by_id(detach_orphans(titles_matching(ps, needle)))[j].title
        },
{
    broadcast use vstd::seq_lib::group_to_multiset_ensures;
    let sel = titles_matching(ps, needle);
    let shown = detach_orphans(sel);
    let out = sorted_by_id(shown);
    law_sorted_by_id(shown);
    assert forall|j: int| 0 <= j < out.len() implies {
        &&& has_infix(lowercase((#[trigger] out[j]).title@), needle)
        &&& exists|i: int| 0 <= i < ps.len() && ps[i].id == out[j].id && ps[i].title == out[j].title
    } by {
        let e = out[j];
        assert(out.contains(e));
        assert(out.to_multiset().count(e) > 0);
        assert(shown.contains(e));
        let m = choose|m: int| 0 <= m < shown.len() && shown[m] == e;
        lemma_matches_match(ps, needle, m);
        let i = choose|i: int| 0 <= i < ps.len() && ps[i] == sel[m];
        assert(ps[i].id == out[j].id && ps[i].title == out[j].title);
    }
}

/// A given option is always stored under its key, whatever its value (a `false` flag, an
/// empty text, a zero are sent like any other), and an absent one leaves the fields alone.
pub proof fn law_given_options_are_stored(fields: Map<Seq<char>, FieldValue>, key: Seq<char>, b: bool, n: i64, s: String)
    ensures
        with_field(fields, key, flag_field(Some(b))) == fields.insert(key, FieldValue::Flag(b)),
        with_field(fields, key, int_field(Some(n))) == fields.insert(key, FieldValue::Int(n)),
        with_field(fields, key, text_field(Some(s))) == fields.insert(key, FieldValue::Text(s)),
        with_field(fields, key, flag_field(None)) == fields,
        with_field(fields, key, int_field(None)) == fields,
        with_field(fields, key, text_field(None)) == fields,
{
}

/// `task update` sends exactly the fields it is given, with their values; so it is refused
/// only when no field at all is given.
pub proof fn law_task_update_sends_given_fields(
    title: Option<String>,
    description: Option<String>,
    done: Option<bool>,
    priority: Option<i64>,
    due_date: Option<String>,
    percent_done: Option<Fraction>,
    is_favorite: Option<bool>,
) -> (f: Map<Seq<char>, FieldValue>)
    ensures
        f == task_update_fields(title, description, done, priority, due_date, percent_done, is_favorite),
        done matches Some(b) ==> f.dom().contains("done"@) && f["done"@] == FieldValue::Flag(b),
        is_favorite matches Some(b) ==> f.dom().contains("is_favorite"@) && f["is_favorite"@] == FieldValue::Flag(b),
        priority matches Some(n) ==> f.dom().contains("priority"@) && f["priority"@] == FieldValue::Int(n),
        title matches Some(x) ==> f.dom().contains("title"@) && f["title"@] == FieldValue::Text(x),
        description matches Some(x) ==> f.dom().contains("description"@) && f["description"@] == FieldValue::Text(x),
        due_date matches Some(x) ==> f.dom().contains("due_date"@) && f["due_date"@] == FieldValue::Text(x),
        percent_done matches Some(x) ==> f.dom().contains("percent_done"@) && f["percent_done"@] == FieldValue::Fraction(x),
        f.dom().is_empty() <==> (title is None && description is None && done is None && priority is None
            && due_date is None && percent_done is None && is_favorite is None),
{
    reveal_strlit("title");
    reveal_strlit("description");
    reveal_strlit("done");
    reveal_strlit("priority");
    reveal_strlit("due_date");
    reveal_strlit("percent_done");
    reveal_strlit("is_favorite");
    assert("title"@[0] != "description"@[0] && "title"@[0] != "done"@[0] && "title"@[0] != "priority"@[0]
        && "title"@[0] != "due_date"@[0] && "title"@[0] != "percent_done"@[0] && "title"@[0] != "is_favorite"@[0]);
    assert("description"@[1] != "done"@[1] && "description"@[0] != "priority"@[0] && "description"@[1] != "due_date"@[1]
        && "description"@[0] != "percent_done"@[0] && "description"@[0] != "is_favorite"@[0]);
    assert("done"@[0] != "priority"@[0] && "done"@[1] != "due_date"@[1] && "done"@[0] != "percent_done"@[0]
        && "done"@[0] != "is_favorite"@[0]);
    assert("priority"@[0] != "due_date"@[0] && "priority"@[1] != "percent_done"@[1] && "priority"@[0] != "is_favorite"@[0]);
    assert("due_date"@[0] != "percent_done"@[0] && "due_date"@[0] != "is_favorite"@[0]
        && "percent_done"@[0] != "is_favorite"@[0]);
    let f = task_update_fields(title, description, done, priority, due_date, percent_done, is_favorite);
    if !(title is None && description is None && done is None && priority is None
        && due_date is None && percent_done is None && is_favorite is None) {
        if title is Some { assert(f.dom().contains("title"@)); }
        if description is Some { assert(f.dom().contains("description"@)); }
        if done is Some { assert(f.dom().contains("done"@)); }
        if priority is Some { assert(f.dom().contains("priority"@)); }
        if due_date is Some { assert(f.dom().contains("due_date"@)); }
        if percent_done is Some { assert(f.dom().contains("percent_done"@)); }
        if is_favorite is Some { assert(f.dom().contains("is_favorite"@)); }
    } else {
        assert(f.dom() =~= Set::empty());
    }
    f
}

/// `project update` sends exactly the fields it is given, with their values; so it is refused
/// only when no field at all is given.
pub proof fn law_project_update_sends_given_fields(
    title: Option<String>,
    description: Option<String>,
    hex_color: Option<String>,
    archived: Option<bool>,
    favorite: Option<bool>,
) -> (f: Map<Seq<char>, FieldValue>)
    ensures
        f == project_update_fields(title, description, hex_color, archived, favorite),
        archived matches Some(b) ==> f.dom().contains("is_archived"@) && f["is_archived"@] == FieldValue::Flag(b),
        favorite matches Some(b) ==> f.dom().contains("is_favorite"@) && f["is_favorite"@] == FieldValue::Flag(b),
        title matches Some(x) ==> f.dom().contains("title"@) && f["title"@] == FieldValue::Text(x),
        description matches Some(x) ==> f.dom().contains("description"@) && f["description"@] == FieldValue::Text(x),
        hex_color matches Some(x) ==> f.dom().contains("hex_color"@) && f["hex_color"@] == FieldValue::Text(x),
        f.dom().is_empty() <==> (title is None && description is None && hex_color is None && archived is None
            && favorite is None),
{
    reveal_strlit("title");
    reveal_strlit("description");
    reveal_strlit("hex_color");
    reveal_strlit("is_archived");
    reveal_strlit("is_favorite");
    assert("title"@[0] != "description"@[0] && "title"@[0] != "hex_color"@[0] && "title"@[0] != "is_archived"@[0]
        && "title"@[0] != "is_favorite"@[0]);
    assert("description"@[0] != "hex_color"@[0] && "description"@[0] != "is_archived"@[0]
        && "description"@[0] != "is_favorite"@[0]);
    assert("hex_color"@[0] != "is_archived"@[0] && "hex_color"@[0] != "is_favorite"@[0]);
    assert("is_archived"@[3] != "is_favorite"@[3]);
    let f = project_update_fields(title, description, hex_color, archived, favorite);
    if !(title is None && description is None && hex_color is None && archived is None && favorite is None) {
        if title is Some { assert(f.dom().contains("title"@)); }
        if description is Some { assert(f.dom().contains("description"@)); }
        if hex_color is Some { assert(f.dom().contains("hex_color"@)); }
        if archived is Some { assert(f.dom().contains("is_archived"@)); }
        if favorite is Some { assert(f.dom().contains("is_favorite"@)); }
    } else {
        assert(f.dom() =~= Set::empty());
    }
    f
}

/// A truncated text is the text itself when it is short enough, and otherwise its first `max`
/// characters followed by `...`.
pub proof fn law_truncation(s: Seq<char>, max: nat)
    ensures
        s.len() <= max ==> truncated(s, max) == s,
        s.len() > max ==> truncated(s, max).len() == max + 3
            && truncated(s, max).take(max as int) == s.take(max as int)
            && truncated(s, max).skip(max as int) == seq!['.', '.', '.'],
{
    if s.len() > max {
        let t = truncated(s, max);
        assert(t.take(max as int) =~= s.take(max as int));
        assert(t.skip(max as int) =~= seq!['.', '.', '.']);
    }
}

/// The expansion lists one `project_id = <id>` term per id, in order, joined by ` || `.
pub proof fn law_expansion_terms(ids: Seq<i64>)
    ensures
        or_terms(ids) == joined(ids.map_values(|id: i64| id_term(id)), seq![' ', '|', '|', ' ']),
    decreases ids.len(),
{
    let ts = ids.map_values(|id: i64| id_term(id));
    if ids.len() > 1 {
        law_expansion_terms(ids.drop_last());
        assert(ids.drop_last().map_values(|id: i64| id_term(id)) =~= ts.drop_last());
    }
}

proof fn lemma_skip_spaces(s: Seq<char>, i: int)
    requires
        0 <= i <= s.len(),
    ensures
        i <= skip_spaces(s, i) <= s.len(),
        forall|k: int| i <= k < skip_spaces(s, i) ==> is_space(#[trigger] s[k]),
        skip_spaces(s, i) < s.len() ==> !is_space(s[skip_spaces(s, i)]),
    decreases s.len() - i,
{
    if i < s.len() && is_space(s[i]) {
        lemma_skip_spaces(s, i + 1);
    }
}

proof fn lemma_skip_digits(s: Seq<char>, i: int)
    requires
        0 <= i <= s.len(),
    ensures
        i <= skip_digits(s, i) <= s.len(),
        forall|k: int| i <= k < skip_digits(s, i) ==> is_digit(#[trigger] s[k]),
        skip_digits(s, i) < s.len() ==> !is_digit(s[skip_digits(s, i)]),
    decreases s.len() - i,
{
    if i < s.len() && is_digit(s[i]) {
        lemma_skip_digits(s, i + 1);
    }
}

/// The text from `a` to `e` reads `project_id`, whitespace, `=` at `w`, whitespace, and from
/// `n` on a run of digits that ends at `e` (nothing but a non-digit or the end follows).
pub open spec fn clause_text(s: Seq<char>, a: int, w: int, n: int, e: int) -> bool {
    &&& 0 <= a && a + 10 <= w < n < e <= s.len()
    &&& s.subrange(a, a + 10) == project_id_key()
    &&& forall|k: int| a + 10 <= k < w ==> is_space(#[trigger] s[k])
    &&& s[w] == '='
    &&& forall|k: int| w + 1 <= k < n ==> is_space(#[trigger] s[k])
    &&& forall|k: int| n <= k < e ==> is_digit(#[trigger] s[k])
    &&& (e == s.len() || !is_digit(s[e]))
}

/// A clause found at `a` is the text `project_id`, optional whitespace, `=`, optional
/// whitespace and the whole run of digits that follows, whose value is the id it names.
pub proof fn law_clause_reads_the_id(s: Seq<char>, a: int)
    requires
        clause_at(s, a) is Some,
    ensures
        clause_at(s, a) matches Some((b, e, v)) && b == a && v <= i64::MAX
            && exists|w: int, n: int| #[trigger] clause_text(s, a, w, n, e) && v == digits_value(s.subrange(n, e)),
{
    let w = skip_spaces(s, a + 10);
    lemma_skip_spaces(s, a + 10);
    let n = skip_spaces(s, w + 1);
    lemma_skip_spaces(s, w + 1);
    let e = skip_digits(s, n);
    lemma_skip_digits(s, n);
    assert(s[w] == '=' && digits_value(s.subrange(n, e)) <= i64::MAX);
    assert(e > n);
    assert(clause_at(s, a) == Some((a, e, digits_value(s.subrange(n, e)) as int)));
    assert(s.subrange(a, a + 10) == project_id_key());
    assert(clause_text(s, a, w, n, e));
    let v = digits_value(s.subrange(n, e)) as int;
    assert(v == digits_value(s.subrange(n, e)));
    assert(exists|w2: int, n2: int| #[trigger] clause_text(s, a, w2, n2, e) && v == digits_value(s.subrange(n2, e)));
    assert(clause_at(s, a) matches Some((b1, e1, v1)) && b1 == a);
    assert(clause_at(s, a) matches Some((b1, e1, v1)) && v1 <= i64::MAX);
    assert(clause_at(s, a) matches Some((b1, e1, v1)) && e1 == e && v1 == v);
}

/// A sub-project id listed under a parent belongs to a project whose parent that is.
proof fn lemma_child_has_project(ps: Seq<Project>, p: i64, c: i64) -> (i: int)
    requires
        child_ids(ps, p).contains(c),
    ensures
        0 <= i < ps.len(),
        ps[i].id == c,
        parent_of(ps[i]) == Some(p),
    decreases ps.len(),
{
    let rest = ids_under(ps.drop_last(), Some(p));
    if rest.contains(c) {
        let i = lemma_child_has_project(ps.drop_last(), p, c);
        assert(ps[i] == ps.drop_last()[i]);
        i
    } else {
        assert(parent_of(ps.last()) == Some(p));
        assert(ids_under(ps, Some(p)) == rest.push(ps.last().id));
        (ps.len() - 1) as int
    }
}

/// The sub-projects of `p` are exactly the projects whose parent link names `p` (zero and
/// absent links name no parent).
pub proof fn law_children_are_projects_under(ps: Seq<Project>, p: i64, c: i64)
    ensures
        child_ids(ps, p).contains(c) <==> exists|i: int| 0 <= i < ps.len() && #[trigger] ps[i].id == c
            && ps[i].parent_project_id == Some(p) && p != 0,
{
    if child_ids(ps, p).contains(c) {
        let i = lemma_child_has_project(ps, p, c);
        assert(ps[i].id == c);
    }
    if exists|i: int| 0 <= i < ps.len() && #[trigger] ps[i].id == c && ps[i].parent_project_id == Some(p) && p != 0 {
        let i = choose|i: int| 0 <= i < ps.len() && #[trigger] ps[i].id == c && ps[i].parent_project_id == Some(p) && p != 0;
        lemma_project_is_child(ps, i, p);
    }
}

} // verus!
