use vikunja_cli::output::{count_nodes, tree_lines};
use vikunja_cli::types::{Project, ProjectNode};
use vikunja_cli::util::build_tree;

fn project(id: i64, parent: Option<i64>, title: &str) -> Project {
    Project {
        id,
        title: title.to_string(),
        description: String::new(),
        parent_project_id: parent,
        is_archived: false,
        hex_color: None,
    }
}

fn shape(nodes: &[ProjectNode]) -> Vec<(i64, String, Vec<i64>)> {
    nodes
        .iter()
        .map(|n| (n.id, n.title.clone(), n.children.iter().map(|c| c.id).collect()))
        .collect()
}

#[test]
fn roots_and_children_sorted_by_title() {
    let ps = vec![
        project(1, None, "Work"),
        project(2, Some(0), "Home"),
        project(3, Some(1), "Reports"),
        project(4, Some(1), "Meetings"),
        project(5, Some(4), "Weekly"),
        project(6, Some(42), "Orphan"),
    ];
    let roots = build_tree(&ps);
    assert_eq!(
        shape(&roots),
        vec![(2, "Home".to_string(), vec![]), (1, "Work".to_string(), vec![4, 3])]
    );
    assert_eq!(shape(&roots[1].children), vec![(4, "Meetings".to_string(), vec![5]), (3, "Reports".to_string(), vec![])]);
    assert_eq!(count_nodes(&roots), 5);
}

#[test]
fn equal_titles_keep_list_order() {
    let ps = vec![project(9, None, "Same"), project(3, None, "Same"), project(5, None, "A")];
    let roots = build_tree(&ps);
    assert_eq!(roots.iter().map(|n| n.id).collect::<Vec<_>>(), vec![5, 9, 3]);
}

#[test]
fn titles_compare_like_strings() {
    let ps = vec![project(1, None, "b"), project(2, None, "B"), project(3, None, "ä"), project(4, None, "a")];
    let roots = build_tree(&ps);
    let mut expected = vec!["b", "B", "ä", "a"];
    expected.sort();
    assert_eq!(roots.iter().map(|n| n.title.as_str()).collect::<Vec<_>>(), expected);
}

#[test]
fn empty_list_gives_empty_tree() {
    assert!(build_tree(&[]).is_empty());
}

#[test]
fn cycle_under_a_root_ends() {
    let ps = vec![project(1, None, "Root"), project(2, Some(1), "Child"), project(1, Some(2), "Again")];
    let roots = build_tree(&ps);
    assert_eq!(roots.len(), 1);
    assert_eq!(roots[0].id, 1);
    assert_eq!(roots[0].title, "Again");
}

#[test]
fn tree_lines_depth_first() {
    let ps = vec![
        project(1, None, "Work"),
        project(3, Some(1), "Reports"),
        project(4, Some(1), "Meetings"),
        project(5, Some(4), "Weekly"),
    ];
    let roots = build_tree(&ps);
    let lines: Vec<(usize, i64, String)> = tree_lines(&roots).into_iter().map(|l| (l.depth, l.id, l.title)).collect();
    assert_eq!(
        lines,
        vec![
            (0, 1, "Work".to_string()),
            (1, 4, "Meetings".to_string()),
            (2, 5, "Weekly".to_string()),
            (1, 3, "Reports".to_string()),
        ]
    );
    assert_eq!(count_nodes(&roots), lines.len());
}
