use serde_json::Value;
use vikunja_cli::commands::{
    all_projects_request, assign_request, assigned_message, comment_added_message, comment_request,
    deleted_message, deleted_report, filter_needs_projects, http_error_message, label_request, labels_set_message, project_request,
    select_projects, set_labels_request, task_create_request, task_delete_request, task_detail_requests,
    task_get_request, task_list_request, task_update_request, unassign_request, unassigned_message,
    unassigned_report, CommandError, CommentCmd, LabelCmd, Method, ProjectCmd, Request,
};
use vikunja_cli::config::{config_from, ConfigError};
use vikunja_cli::json::Fraction;
use vikunja_cli::types::Project;
use vikunja_cli::util::build_tree;

fn query(r: &Request) -> Vec<(String, String)> {
    r.query.iter().map(|(k, v)| (k.to_string(), v.clone())).collect()
}

fn pairs(v: &[(&str, &str)]) -> Vec<(String, String)> {
    v.iter().map(|(k, v)| (k.to_string(), v.to_string())).collect()
}

fn json(text: &str) -> Value {
    serde_json::from_str(text).unwrap()
}

fn body(r: &Request) -> Value {
    Value::Object(r.body.clone().expect("a body"))
}

#[test]
fn label_list_defaults() {
    let r = label_request(LabelCmd::List { page: None, per_page: None, search: None });
    assert_eq!(r.method, Method::Get);
    assert_eq!(r.path, "/labels");
    assert_eq!(query(&r), pairs(&[("per_page", "100")]));
    assert!(r.body.is_none());
    let r = label_request(LabelCmd::List { page: Some(2), per_page: Some(10), search: Some("bug".into()) });
    assert_eq!(query(&r), pairs(&[("page", "2"), ("per_page", "10"), ("s", "bug")]));
}

#[test]
fn project_list_query() {
    let r = project_request(ProjectCmd::List { page: None, per_page: None, search: Some("x".into()), archived: Some(true) })
        .unwrap();
    assert_eq!(r.path, "/projects");
    assert_eq!(query(&r), pairs(&[("per_page", "100"), ("is_archived", "true")]));
}

#[test]
fn project_get_and_create() {
    let r = project_request(ProjectCmd::Get { id: 6 }).unwrap();
    assert_eq!((r.method, r.path.as_str()), (Method::Get, "/projects/6"));
    let r = project_request(ProjectCmd::Create {
        title: "Q2 Roadmap".into(),
        description: None,
        hex_color: Some("3b82f6".into()),
        parent: Some(1),
        archived: None,
    })
    .unwrap();
    assert_eq!((r.method, r.path.as_str()), (Method::Put, "/projects"));
    assert_eq!(
        body(&r),
        json(r#"{"title": "Q2 Roadmap", "hex_color": "3b82f6", "parent_project_id": 1}"#)
    );
}

#[test]
fn project_update_needs_a_field() {
    let r = project_request(ProjectCmd::Update {
        id: 6,
        title: None,
        description: None,
        hex_color: None,
        archived: None,
        favorite: None,
    });
    assert_eq!(r.err(), Some(CommandError::NoFieldsToUpdate));
    assert_eq!(CommandError::NoFieldsToUpdate.message(), "No fields provided to update");
    let r = project_request(ProjectCmd::Update {
        id: 6,
        title: Some("Q2 Roadmap (revised)".into()),
        description: None,
        hex_color: None,
        archived: None,
        favorite: Some(true),
    })
    .unwrap();
    assert_eq!((r.method, r.path.as_str()), (Method::Post, "/projects/6"));
    assert_eq!(body(&r), json(r#"{"title": "Q2 Roadmap (revised)", "is_favorite": true}"#));
}

#[test]
fn task_list_defaults_to_fifty_per_page() {
    let r = task_list_request(Some("done = false".into()), None, Some("due_date".into()), None, Some(3), None);
    assert_eq!(r.path, "/tasks");
    assert_eq!(
        query(&r),
        pairs(&[("filter", "done = false"), ("sort_by", "due_date"), ("page", "3"), ("per_page", "50")])
    );
    let r = task_list_request(None, Some("deploy".into()), None, Some("desc".into()), None, Some(7));
    assert_eq!(query(&r), pairs(&[("s", "deploy"), ("order_by", "desc"), ("per_page", "7")]));
}

#[test]
fn project_list_needed_only_for_project_filters() {
    assert!(filter_needs_projects(&Some("project_id = 6 && done = false".into())));
    assert!(!filter_needs_projects(&Some("done = false".into())));
    assert!(!filter_needs_projects(&None));
    let r = all_projects_request();
    assert_eq!((r.method, r.path.as_str(), r.query.len()), (Method::Get, "/projects", 0));
}

#[test]
fn task_paths() {
    assert_eq!(task_get_request(42).path, "/tasks/42");
    let r = task_delete_request(42);
    assert_eq!((r.method, r.path.as_str()), (Method::Delete, "/tasks/42"));
    let r = unassign_request(42, 7);
    assert_eq!((r.method, r.path.as_str()), (Method::Delete, "/tasks/42/assignees/7"));
    let r = assign_request(42, 7);
    assert_eq!((r.method, r.path.as_str()), (Method::Put, "/tasks/42/assignees"));
    assert_eq!(body(&r), json(r#"{"user_id": 7}"#));
}

#[test]
fn task_create_body() {
    let r = task_create_request(
        6,
        "Refactor auth middleware".into(),
        Some("Drop the legacy session middleware".into()),
        Some(4),
        Some("2026-05-15T18:00:00Z".into()),
        None,
        None,
        None,
    );
    assert_eq!((r.method, r.path.as_str()), (Method::Put, "/projects/6/tasks"));
    assert_eq!(
        body(&r),
        json(r#"{
            "title": "Refactor auth middleware",
            "description": "Drop the legacy session middleware",
            "priority": 4,
            "due_date": "2026-05-15T18:00:00Z"
        }"#)
    );
}

#[test]
fn task_update_body_and_refusal() {
    let r = task_update_request(42, None, None, Some(true), None, None, None, None).unwrap();
    assert_eq!((r.method, r.path.as_str()), (Method::Post, "/tasks/42"));
    assert_eq!(body(&r), json(r#"{"done": true}"#));
    let pct = serde_json::Number::from_f64(0.5).and_then(Fraction::new);
    assert!(Fraction::new(serde_json::Number::from(5)).is_none());
    let r = task_update_request(42, None, None, None, Some(5), None, pct, None).unwrap();
    assert_eq!(body(&r), json(r#"{"priority": 5, "percent_done": 0.5}"#));
    let r = task_update_request(42, None, None, None, None, None, None, None);
    assert_eq!(r.err(), Some(CommandError::NoFieldsToUpdate));
}

#[test]
fn get_detail_limit() {
    let ids = (1..=25).map(|i| i.to_string()).collect::<Vec<_>>().join(",");
    let rs = task_detail_requests(&ids).unwrap();
    assert_eq!(rs.len(), 25);
    assert_eq!(rs[24].path, "/tasks/25");
    let ids = (1..=26).map(|i| i.to_string()).collect::<Vec<_>>().join(",");
    assert_eq!(task_detail_requests(&ids).err(), Some(CommandError::TooManyTaskIds));
    assert_eq!(CommandError::TooManyTaskIds.message(), "Maximum 25 task IDs per request");
    let rs = task_detail_requests("1,2,3,4,5").unwrap();
    assert_eq!(rs.iter().map(|r| r.path.clone()).collect::<Vec<_>>(), vec!["/tasks/1", "/tasks/2", "/tasks/3", "/tasks/4", "/tasks/5"]);
}

#[test]
fn set_labels_from_readme() {
    let (r, ids) = set_labels_request(42, "1,3,5");
    assert_eq!(ids, vec![1, 3, 5]);
    assert_eq!((r.method, r.path.as_str()), (Method::Post, "/tasks/42/labels/bulk"));
    assert_eq!(body(&r), json(r#"{"label_ids": [1, 3, 5]}"#));
    let (r, ids) = set_labels_request(42, "");
    assert!(ids.is_empty());
    assert_eq!(body(&r), json(r#"{"label_ids": []}"#));
    assert_eq!(labels_set_message(42, 3), "Labels set on task 42: 3 label(s)");
}

#[test]
fn comment_requests() {
    let r = comment_request(CommentCmd::List { task_id: 42 });
    assert_eq!((r.method, r.path.as_str()), (Method::Get, "/tasks/42/comments"));
    let r = comment_request(CommentCmd::Create { task_id: 42, comment: "Pushed fix in PR #87".into() });
    assert_eq!((r.method, r.path.as_str()), (Method::Put, "/tasks/42/comments"));
    assert_eq!(body(&r), json(r#"{"comment": "Pushed fix in PR #87"}"#));
}

#[test]
fn messages_and_reports() {
    assert_eq!(deleted_message(42), "Task 42 deleted");
    assert_eq!(comment_added_message(9), "Comment 9 added");
    assert_eq!(assigned_message(42, 7), "User 7 assigned to task 42");
    assert_eq!(unassigned_message(42, 7), "User 7 removed from task 42");
    assert_eq!(Value::Object(deleted_report(42)), json(r#"{"deleted": 42}"#));
    assert_eq!(Value::Object(unassigned_report(42, 7)), json(r#"{"unassigned": 7, "task_id": 42}"#));
}

#[test]
fn config_needs_both_values() {
    let c = config_from(Some("http://localhost:3456/api/v1".into()), Some("tk_x".into())).unwrap();
    assert_eq!(c.api_url, "http://localhost:3456/api/v1");
    assert_eq!(c.api_token, "tk_x");
    assert_eq!(config_from(Some("u".into()), None).err(), Some(ConfigError::Missing));
    assert_eq!(config_from(Some("".into()), Some("t".into())).err(), Some(ConfigError::Missing));
    assert_eq!(config_from(None, Some("t".into())).err(), Some(ConfigError::Missing));
    assert_eq!(
        ConfigError::Missing.message(),
        "VIKUNJA_API_URL and VIKUNJA_API_TOKEN must be set.\nExample: export VIKUNJA_API_URL=http://localhost:3456/api/v1\nexport VIKUNJA_API_TOKEN=tk_xxxxxxxx"
    );
}

fn project(id: i64, title: &str) -> Project {
    Project { id, title: title.into(), description: String::new(), parent_project_id: None, is_archived: false, hex_color: None }
}

#[test]
fn project_search_ignores_case_and_sorts_by_id() {
    let ps = vec![project(5, "Infra Tools"), project(2, "Home"), project(3, "infrastructure"), project(1, "Garden")];
    let picked = select_projects(ps, Some("INFRA".into()));
    assert_eq!(picked.iter().map(|p| p.id).collect::<Vec<_>>(), vec![3, 5]);
    let ps = vec![project(5, "a"), project(2, "b"), project(3, "c")];
    let all = select_projects(ps, None);
    assert_eq!(all.iter().map(|p| p.id).collect::<Vec<_>>(), vec![2, 3, 5]);
}

#[test]
fn project_search_keeps_a_match_whose_parent_does_not_match() {
    let mut child = project(7, "Servers infra");
    child.parent_project_id = Some(6);
    let mut grandchild = project(8, "infra disks");
    grandchild.parent_project_id = Some(7);
    let mut unrelated = project(9, "infra home");
    unrelated.parent_project_id = Some(0);
    let ps = vec![project(6, "Work"), child, grandchild, unrelated];
    let picked = select_projects(ps, Some("infra".into()));
    assert_eq!(picked.iter().map(|p| p.id).collect::<Vec<_>>(), vec![7, 8, 9]);
    assert_eq!(picked[0].parent_project_id, None);
    assert_eq!(picked[1].parent_project_id, Some(7));
    assert_eq!(picked[2].parent_project_id, Some(0));
    let roots = build_tree(&picked);
    assert_eq!(roots.iter().map(|n| n.id).collect::<Vec<_>>(), vec![7, 9]);
    assert_eq!(roots[0].children.iter().map(|n| n.id).collect::<Vec<_>>(), vec![8]);
}

#[test]
fn get_detail_sends_one_request_per_id_in_order() {
    let rs = task_detail_requests("3, x,1,3").unwrap();
    assert_eq!(rs.iter().map(|r| r.path.clone()).collect::<Vec<_>>(), vec!["/tasks/3", "/tasks/1", "/tasks/3"]);
    assert_eq!(task_detail_requests("").unwrap().len(), 0);
}

#[test]
fn http_error_messages() {
    assert_eq!(http_error_message(404, "x"), "Not found (404)");
    assert_eq!(http_error_message(403, ""), "Permission denied (403)");
    assert_eq!(http_error_message(401, ""), "Unauthorized (401)");
    assert_eq!(http_error_message(400, ""), "Bad request (400)");
    assert_eq!(http_error_message(500, "boom"), "HTTP 500: boom");
}
