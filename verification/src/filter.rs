//! The `project_id = N` clause of a Vikunja filter expression, and how it is expanded.

use vstd::prelude::*;
use crate::text::{digits_value, int_text, is_digit, is_space};

verus! {

/// The field name that triggers sub-project expansion.
pub open spec fn project_id_key() -> Seq<char> {
    seq!['p', 'r', 'o', 'j', 'e', 'c', 't', '_', 'i', 'd']
}

/// The first index at or after `i` that does not hold whitespace.
pub open spec fn skip_spaces(s: Seq<char>, i: int) -> int
    decreases s.len() - i,
{
    if 0 <= i < s.len() && is_space(s[i]) {
        skip_spaces(s, i + 1)
    } else {
        i
    }
}

/// The first index at or after `i` that does not hold an ASCII digit.
pub open spec fn skip_digits(s: Seq<char>, i: int) -> int
    decreases s.len() - i,
{
    if 0 <= i < s.len() && is_digit(s[i]) {
        skip_digits(s, i + 1)
    } else {
        i
    }
}

/// `project_id` starts at index `a`.
pub open spec fn key_at(s: Seq<char>, a: int) -> bool {
    0 <= a && a + 10 <= s.len() && s.subrange(a, a + 10) == project_id_key()
}

/// A clause `project_id <ws> = <ws> <digits>` starting at `a`, whose digits fit in an `i64`:
/// its start, the index just past its digits, and the id it names.
pub open spec fn clause_at(s: Seq<char>, a: int) -> Option<(int, int, int)> {
    if key_at(s, a) {
        let w = skip_spaces(s, a + 10);
        if w < s.len() && s[w] == '=' {
            let n = skip_spaces(s, w + 1);
            let e = skip_digits(s, n);
            let v = digits_value(s.subrange(n, e));
            if e > n && v <= i64::MAX {
                Some((a, e, v as int))
            } else {
                None
            }
        } else {
            None
        }
    } else {
        None
    }
}

/// The first clause that starts at or after `i`.
pub open spec fn first_clause_from(s: Seq<char>, i: int) -> Option<(int, int, int)>
    decreases s.len() - i,
{
    if i < 0 || i >= s.len() {
        None
    } else if clause_at(s, i) is Some {
        clause_at(s, i)
    } else {
        first_clause_from(s, i + 1)
    }
}

/// The first `project_id = N` clause of a filter, if any.
pub open spec fn first_clause(s: Seq<char>) -> Option<(int, int, int)> {
    first_clause_from(s, 0)
}

/// One term of an expansion: `project_id = <id>`.
pub open spec fn id_term(id: i64) -> Seq<char> {
    project_id_key() + seq![' ', '=', ' '] + int_text(id as int)
}

/// The terms for `ids` joined by ` || `.
pub open spec fn or_terms(ids: Seq<i64>) -> Seq<char>
    decreases ids.len(),
{
    if ids.len() == 0 {
        seq![]
    } else if ids.len() == 1 {
        id_term(ids[0])
    } else {
        or_terms(ids.drop_last()) + seq![' ', '|', '|', ' '] + id_term(ids.last())
    }
}

/// Strictly ascending ids (so each occurs once).
pub open spec fn strictly_ascending(ids: Seq<i64>) -> bool {
    forall|i: int, j: int| 0 <= i < j < ids.len() ==> ids[i] < ids[j]
}

/// The filter with the clause `s[start..end]` replaced by the parenthesised OR of `ids`,
/// or the filter unchanged when `ids` has at most one element.
pub open spec fn spliced(s: Seq<char>, start: int, end: int, ids: Seq<i64>) -> Seq<char> {
    if ids.len() <= 1 {
        s
    } else {
        s.take(start) + seq!['('] + or_terms(ids) + seq![')'] + s.skip(end)
    }
}

} // verus!
