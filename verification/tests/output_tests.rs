use vikunja_cli::output::{
    comment_from, comment_lines, comment_listing, label_row, project_detail, task_detail, task_row, Comment,
    CommentListing,
};
use vikunja_cli::types::{Assignee, Label, Project, Task, ZERO_DATE};

fn task() -> Task {
    Task {
        id: 42,
        title: "A fairly long task title that goes on and on beyond sixty characters".into(),
        description: "line one\r\nline two\n".into(),
        done: true,
        priority: 3,
        project_id: 6,
        due_date: Some(ZERO_DATE.into()),
        start_date: None,
        end_date: None,
        labels: Some(vec![
            Label { id: 1, title: "bug".into(), hex_color: Some("e11d48".into()) },
            Label { id: 2, title: "ui".into(), hex_color: None },
        ]),
        assignees: Some(vec![]),
    }
}

#[test]
fn task_row_cells() {
    let row = task_row(&task());
    assert_eq!(
        row,
        vec![
            "42",
            "A fairly long task title that goes on and on beyond sixty ch...",
            "\u{2713}",
            "3",
            "6",
            "-",
            "bug, ui",
            "",
        ]
    );
    let mut t = task();
    t.done = false;
    t.due_date = Some("2026-05-15T18:00:00Z".into());
    t.labels = None;
    let row = task_row(&t);
    assert_eq!(row[2], "");
    assert_eq!(row[5], "2026-05-15T18:00:00Z");
    assert_eq!(row[6], "");
    t.due_date = Some(String::new());
    assert_eq!(task_row(&t)[5], "-");
}

#[test]
fn task_detail_parts() {
    let d = task_detail(&task());
    assert_eq!(d.due, None);
    assert_eq!(d.description_lines, vec!["line one", "line two"]);
    assert_eq!(d.labels, Some("bug, ui".to_string()));
    assert_eq!(d.assignees, None);
    let mut t = task();
    t.assignees = Some(vec![Assignee { id: 7, username: "omer".into() }, Assignee { id: 8, username: "ayse".into() }]);
    t.due_date = Some("2026-01-01T00:00:00Z".into());
    let d = task_detail(&t);
    assert_eq!(d.assignees, Some("omer, ayse".to_string()));
    assert_eq!(d.due, Some("2026-01-01T00:00:00Z".to_string()));
}

#[test]
fn label_rows() {
    assert_eq!(label_row(&Label { id: 1, title: "bug".into(), hex_color: Some("e11d48".into()) }), vec!["1", "bug", "e11d48"]);
    assert_eq!(label_row(&Label { id: 2, title: "ui".into(), hex_color: None }), vec!["2", "ui", ""]);
}

#[test]
fn project_detail_parts() {
    let p = Project {
        id: 6,
        title: "Infra".into(),
        description: String::new(),
        parent_project_id: Some(0),
        is_archived: true,
        hex_color: Some(String::new()),
    };
    let d = project_detail(&p);
    assert_eq!(d.description, None);
    assert_eq!(d.parent, None);
    assert!(d.archived);
    assert_eq!(d.color, None);
    let p = Project { description: "Servers".into(), parent_project_id: Some(1), hex_color: Some("3b82f6".into()), ..p };
    let d = project_detail(&p);
    assert_eq!(d.description, Some("Servers".to_string()));
    assert_eq!(d.parent, Some(1));
    assert_eq!(d.color, Some("3b82f6".to_string()));
}

#[test]
fn comment_blocks_indent_text() {
    let cs = vec![
        Comment { id: 3, author: "omer".into(), created: "2026-01-01".into(), comment: "first\nsecond".into() },
        Comment { id: 4, author: "".into(), created: "".into(), comment: "".into() },
    ];
    assert_eq!(comment_lines(&cs), vec!["[3] omer @ 2026-01-01", "  first", "  second", "[4]  @ "]);
}

#[test]
fn task_detail_heading() {
    let d = task_detail(&task());
    assert_eq!(d.id, "42");
    assert_eq!(d.title, task().title);
    assert_eq!(d.done, "\u{2713}");
    assert_eq!(d.priority, "3");
    assert_eq!(d.project, "6");
    let mut t = task();
    t.done = false;
    t.priority = -1;
    assert_eq!(task_detail(&t).done, "\u{2717}");
    assert_eq!(task_detail(&t).priority, "-1");
}

#[test]
fn comments_from_reply_fields() {
    let c = comment_from(None, None, Some("omer".into()), None);
    assert_eq!((c.id, c.comment.as_str(), c.author.as_str(), c.created.as_str()), (0, "", "omer", ""));
    assert!(matches!(comment_listing(None), CommentListing::Raw));
    match comment_listing(Some(vec![])) {
        CommentListing::Message(m) => assert_eq!(m, "No comments"),
        _ => panic!("expected a message"),
    }
    let c = comment_from(Some(5), Some("hi".into()), Some("ayse".into()), Some("2026-02-02".into()));
    match comment_listing(Some(vec![c])) {
        CommentListing::Lines(ls) => assert_eq!(ls, vec!["[5] ayse @ 2026-02-02", "  hi"]),
        _ => panic!("expected lines"),
    }
}
