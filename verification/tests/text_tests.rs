use vikunja_cli::text::{i64_text, join_texts, parse_id_list, text_contains, text_lines};
use vikunja_cli::util::truncate;

#[test]
fn truncate_keeps_short_text() {
    assert_eq!(truncate("abc", 5), "abc");
    assert_eq!(truncate("abcde", 5), "abcde");
}

#[test]
fn truncate_cuts_long_text() {
    assert_eq!(truncate("abcdefgh", 5), "abcde...");
    assert_eq!(truncate("abc", 0), "...");
}

#[test]
fn truncate_counts_characters_not_bytes() {
    assert_eq!(truncate("héllo wörld", 5), "héllo...");
    assert_eq!(truncate("çğüşöı", 6), "çğüşöı");
}

#[test]
fn decimal_text_of_extremes() {
    assert_eq!(i64_text(0), "0");
    assert_eq!(i64_text(-42), "-42");
    assert_eq!(i64_text(i64::MAX), "9223372036854775807");
    assert_eq!(i64_text(i64::MIN), "-9223372036854775808");
}

#[test]
fn id_list_from_readme() {
    assert_eq!(parse_id_list("1,2,3,4,5"), vec![1, 2, 3, 4, 5]);
    assert_eq!(parse_id_list("1,3,5"), vec![1, 3, 5]);
}

#[test]
fn id_list_empty_clears() {
    assert_eq!(parse_id_list(""), Vec::<i64>::new());
    assert_eq!(parse_id_list(" , ,"), Vec::<i64>::new());
}

#[test]
fn id_list_skips_pieces_that_are_not_integers() {
    assert_eq!(parse_id_list(" 1 , x, 3 ,4a,\t7\n"), vec![1, 3, 7]);
    assert_eq!(parse_id_list("+4,-5,-,+"), vec![4, -5]);
    assert_eq!(parse_id_list("9223372036854775807,9223372036854775808"), vec![i64::MAX]);
    assert_eq!(parse_id_list("-9223372036854775808,-9223372036854775809"), vec![i64::MIN]);
    assert_eq!(parse_id_list("1 2,3"), vec![3]);
}

#[test]
fn id_list_round_trip_on_values() {
    let ids = vec![0, -1, 42, i64::MAX, i64::MIN];
    let text = ids.iter().map(|i| i64_text(*i)).collect::<Vec<_>>().join(",");
    assert_eq!(parse_id_list(&text), ids);
}

#[test]
fn lines_follow_str_lines() {
    assert_eq!(text_lines("a\nb\r\nc"), vec!["a", "b", "c"]);
    assert_eq!(text_lines("a\n"), vec!["a"]);
    assert_eq!(text_lines(""), Vec::<String>::new());
    assert_eq!(text_lines("\n\nx"), vec!["", "", "x"]);
    assert_eq!(text_lines("a\rb"), vec!["a\rb"]);
    for s in ["a\nb\r\nc", "a\n", "", "\n\nx", "a\rb", "x\r\n\r\n"] {
        let expected: Vec<String> = s.lines().map(|l| l.to_string()).collect();
        assert_eq!(text_lines(s), expected);
    }
}

#[test]
fn join_with_separator() {
    let parts = vec!["bug".to_string(), "ui".to_string()];
    assert_eq!(join_texts(&parts, ", "), "bug, ui");
    assert_eq!(join_texts(&Vec::new(), ", "), "");
}

#[test]
fn contains_text() {
    assert!(text_contains("done = false && project_id = 6", "project_id"));
    assert!(!text_contains("done = false", "project_id"));
    assert!(text_contains("abc", ""));
    assert!(!text_contains("", "a"));
}
