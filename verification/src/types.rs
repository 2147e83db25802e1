//! The records that the Vikunja API hands back, as plain values.

use vstd::prelude::*;

verus! {

/// The date Vikunja stores for "no date".
pub const ZERO_DATE: &'static str = "0001-01-01T00:00:00Z";

/// A task.
#[derive(Debug)]
pub struct Task {
    pub id: i64,
    pub title: String,
    pub description: String,
    pub done: bool,
    pub priority: i64,
    pub project_id: i64,
    pub due_date: Option<String>,
    pub start_date: Option<String>,
    pub end_date: Option<String>,
    pub labels: Option<Vec<Label>>,
    pub assignees: Option<Vec<Assignee>>,
}

/// A label.
#[derive(Debug)]
pub struct Label {
    pub id: i64,
    pub title: String,
    pub hex_color: Option<String>,
}

/// A user assigned to a task.
#[derive(Debug)]
pub struct Assignee {
    pub id: i64,
    pub username: String,
}

/// A project; `parent_project_id` of `None` or `Some(0)` marks a top-level project.
#[derive(Debug)]
pub struct Project {
    pub id: i64,
    pub title: String,
    pub description: String,
    pub parent_project_id: Option<i64>,
    pub is_archived: bool,
    pub hex_color: Option<String>,
}

/// A project together with its sub-projects.
#[derive(Debug)]
pub struct ProjectNode {
    pub id: i64,
    pub title: String,
    pub children: Vec<ProjectNode>,
}

} // verus!
