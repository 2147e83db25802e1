use std::collections::HashMap;
use vikunja_cli::types::Project;
use vikunja_cli::util::{children_map, descendant_ids, expand_project_filter};

fn project(id: i64, parent: Option<i64>, title: &str) -> Project {
    Project {
        id,
        title: title.to_string(),
        description: String::new(),
        parent_project_id: parent,
        is_archived: false,
        hex_color: None,
    }
}

fn sample() -> Vec<Project> {
    vec![
        project(6, None, "Infra"),
        project(8, Some(7), "Disks"),
        project(7, Some(6), "Servers"),
        project(9, Some(0), "Home"),
        project(10, Some(9), "Garden"),
    ]
}

#[test]
fn expands_sub_projects_in_ascending_order() {
    assert_eq!(
        expand_project_filter("project_id = 6", &sample()),
        "(project_id = 6 || project_id = 7 || project_id = 8)"
    );
}

#[test]
fn expansion_keeps_the_rest_of_the_filter() {
    assert_eq!(
        expand_project_filter("project_id = 6 && done = false", &sample()),
        "(project_id = 6 || project_id = 7 || project_id = 8) && done = false"
    );
    assert_eq!(
        expand_project_filter("done = false && project_id=7", &sample()),
        "done = false && (project_id = 7 || project_id = 8)"
    );
}

#[test]
fn project_without_sub_projects_is_unchanged() {
    assert_eq!(expand_project_filter("project_id = 8", &sample()), "project_id = 8");
    assert_eq!(expand_project_filter("project_id = 99", &sample()), "project_id = 99");
}

#[test]
fn filter_without_clause_is_unchanged() {
    assert_eq!(expand_project_filter("done = false", &sample()), "done = false");
    assert_eq!(expand_project_filter("project_id > 6", &sample()), "project_id > 6");
    assert_eq!(expand_project_filter("project_id = x", &sample()), "project_id = x");
}

#[test]
fn clause_with_spaces_and_overflow() {
    assert_eq!(
        expand_project_filter("project_id\t=\u{a0} 9", &sample()),
        "(project_id = 9 || project_id = 10)"
    );
    assert_eq!(
        expand_project_filter("project_id = 99999999999999999999 || project_id = 9", &sample()),
        "project_id = 99999999999999999999 || (project_id = 9 || project_id = 10)"
    );
}

#[test]
fn expansion_reaches_every_level() {
    let mut ps = vec![project(1, None, "root")];
    for id in 2..=13 {
        ps.push(project(id, Some(id - 1), "level"));
    }
    let expected: Vec<String> = (1..=13).map(|id| format!("project_id = {id}")).collect();
    assert_eq!(expand_project_filter("project_id = 1", &ps), format!("({})", expected.join(" || ")));
}

#[test]
fn expansion_ends_on_a_cycle() {
    let ps = vec![project(1, Some(3), "a"), project(2, Some(1), "b"), project(3, Some(2), "c")];
    assert_eq!(
        expand_project_filter("project_id = 2", &ps),
        "(project_id = 1 || project_id = 2 || project_id = 3)"
    );
}

#[test]
fn children_are_listed_in_order() {
    let map = children_map(&sample());
    assert_eq!(map.get(&6), Some(&vec![7]));
    assert_eq!(map.get(&7), Some(&vec![8]));
    assert_eq!(map.get(&9), Some(&vec![10]));
    assert_eq!(map.get(&0), None);
    assert_eq!(map.len(), 3);
    let ps = vec![project(3, Some(1), "a"), project(2, Some(1), "b"), project(4, Some(1), "c")];
    assert_eq!(children_map(&ps).get(&1), Some(&vec![3, 2, 4]));
}

#[test]
fn descendants_within_depth() {
    let mut map: HashMap<i64, Vec<i64>> = HashMap::new();
    map.insert(1, vec![2, 3]);
    map.insert(2, vec![4]);
    map.insert(4, vec![5]);
    let ids = descendant_ids(&map, 1, 2);
    let mut v: Vec<i64> = ids.into_iter().collect();
    v.sort();
    assert_eq!(v, vec![1, 2, 3, 4]);
    let only_root = descendant_ids(&map, 1, 0);
    assert_eq!(only_root.len(), 1);
    assert!(only_root.contains(&1));
}

#[test]
fn descendants_survive_a_cycle() {
    let mut map: HashMap<i64, Vec<i64>> = HashMap::new();
    map.insert(1, vec![2]);
    map.insert(2, vec![1]);
    let ids = descendant_ids(&map, 1, 10);
    assert_eq!(ids.len(), 2);
}
