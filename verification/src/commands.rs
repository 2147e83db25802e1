//! What each command asks of the Vikunja API: method, path, query and body, decided from
//! the command's arguments, and the messages shown once a request has succeeded.

use vstd::prelude::*;
use crate::types::Project;
use crate::hierarchy::{parent_of, project_ids};
use crate::json::{
    body_fields, body_is_empty, flag_field, fraction_field, insert_field, int_field, new_body, no_fields,
    text_field, with_field, FieldValue, Fraction, JsonBody,
};
use crate::text::{
    has_infix, int_text, nat_text, parse_id_list, parsed_ids, push_i64_text, push_u64_text, split_on, text_contains,
};
use crate::util::{
    insert_opt_bool, insert_opt_i64, insert_opt_fraction, insert_opt_str, opt_entry, push_opt, query_view,
    QueryValue,
};

verus! {

/// Label subcommands.
pub enum LabelCmd {
    /// List labels, optionally a page of them, optionally searching titles.
    List { page: Option<u32>, per_page: Option<u32>, search: Option<String> },
}

/// Project subcommands.
pub enum ProjectCmd {
    /// List projects as a tree; `search` filters titles on this side.
    List { page: Option<u32>, per_page: Option<u32>, search: Option<String>, archived: Option<bool> },
    /// Show one project.
    Get { id: i64 },
    /// Create a project.
    Create {
        title: String,
        description: Option<String>,
        hex_color: Option<String>,
        parent: Option<i64>,
        archived: Option<bool>,
    },
    /// Change fields of a project.
    Update {
        id: i64,
        title: Option<String>,
        description: Option<String>,
        hex_color: Option<String>,
        archived: Option<bool>,
        favorite: Option<bool>,
    },
}

/// Comment subcommands of a task.
pub enum CommentCmd {
    /// List the comments of a task.
    List { task_id: i64 },
    /// Add a comment to a task.
    Create { task_id: i64, comment: String },
}

/// HTTP methods used by the API.
#[derive(Debug, PartialEq, Eq, Structural, Clone, Copy)]
pub enum Method {
    Get,
    Put,
    Post,
    Delete,
}

/// One API request.
pub struct Request {
    pub method: Method,
    /// The path below the API root, such as `/tasks/7`.
    pub path: String,
    pub query: Vec<(&'static str, String)>,
    pub body: Option<JsonBody>,
}

/// Arguments that a command refuses before any request.
#[derive(Debug, PartialEq, Eq, Structural, Clone, Copy)]
pub enum CommandError {
    /// An update named no field to change.
    NoFieldsToUpdate,
    /// More than 25 task ids were asked for at once.
    TooManyTaskIds,
}

/// The most task ids one `get-detail` accepts.
pub const MAX_DETAIL_IDS: usize = 25;

impl CommandError {
    /// The message shown for the error.
    pub fn message(&self) -> (m: String)
        ensures
            m@ == match self {
                CommandError::NoFieldsToUpdate => "No fields provided to update"@,
                CommandError::TooManyTaskIds => "Maximum 25 task IDs per request"@,
            },
    {
        match self {
            CommandError::NoFieldsToUpdate => "No fields provided to update".to_owned(),
            CommandError::TooManyTaskIds => "Maximum 25 task IDs per request".to_owned(),
        }
    }
}

/// `prefix` followed by the decimal id.
pub fn path_with_id(prefix: &str, id: i64) -> (p: String)
    ensures
        p@ == prefix@ + int_text(id as int),
{
    let mut p = prefix.to_owned();
    push_i64_text(&mut p, id);
    p
}

/// `prefix`, the decimal id, then `suffix`.
fn path_with_id_and(prefix: &str, id: i64, suffix: &str) -> (p: String)
    ensures
        p@ == prefix@ + int_text(id as int) + suffix@,
{
    let mut p = prefix.to_owned();
    push_i64_text(&mut p, id);
    p.append(suffix);
    p
}

/// `prefix`, the first id, `middle`, the second id.
fn path_with_ids(prefix: &str, a: i64, middle: &str, b: i64) -> (p: String)
    ensures
        p@ == prefix@ + int_text(a as int) + middle@ + int_text(b as int),
{
    let mut p = prefix.to_owned();
    push_i64_text(&mut p, a);
    p.append(middle);
    push_i64_text(&mut p, b);
    p
}

/// A request without query or body.
fn plain(method: Method, path: String) -> (r: Request)
    ensures
        r.method == method,
        r.path == path,
        r.query@.len() == 0,
        r.body is None,
{
    Request { method, path, query: Vec::new(), body: None }
}

/// The `per_page` entry, with the given default.
pub open spec fn per_page_entry(per_page: Option<u32>, default: u32) -> Seq<(Seq<char>, Seq<char>)> {
    seq![("per_page"@, nat_text(match per_page { Some(n) => n, None => default } as nat))]
}

fn push_per_page(query: &mut Vec<(&'static str, String)>, per_page: Option<u32>, default: u32)
    ensures
        query_view(final(query)@) == query_view(old(query)@) + per_page_entry(per_page, default),
{
    let n = match per_page {
        Some(n) => n,
        None => default,
    };
    let ghost before = query@;
    query.push(("per_page", n.to_query()));
    assert(query_view(query@) =~= query_view(before) + per_page_entry(per_page, default));
}

/// The request for `label list`: `GET /labels` with `page`, `per_page` (100 unless given) and `s`.
pub fn label_request(cmd: LabelCmd) -> (r: Request)
    ensures
        match cmd {
            LabelCmd::List { page, per_page, search } => {
                &&& r.method == Method::Get
                &&& r.path@ == "/labels"@
                &&& query_view(r.query@) == opt_entry("page"@, page) + per_page_entry(per_page, 100)
                    + opt_entry("s"@, search)
                &&& r.body is None
            },
        },
{
    match cmd {
        LabelCmd::List { page, per_page, search } => {
            let mut query: Vec<(&'static str, String)> = Vec::new();
            push_opt(&mut query, "page", page);
            push_per_page(&mut query, per_page, 100);
            push_opt(&mut query, "s", search);
            Request { method: Method::Get, path: "/labels".to_owned(), query, body: None }
        },
    }
}

/// The fields of a new project.
pub open spec fn project_create_fields(
    title: String,
    description: Option<String>,
    hex_color: Option<String>,
    parent: Option<i64>,
    archived: Option<bool>,
) -> Map<Seq<char>, FieldValue> {
    with_field(
        with_field(
            with_field(
                with_field(no_fields().insert("title"@, FieldValue::Text(title)), "description"@, text_field(description)),
                "hex_color"@,
                text_field(hex_color),
            ),
            "parent_project_id"@,
            int_field(parent),
        ),
        "is_archived"@,
        flag_field(archived),
    )
}

/// The fields that a project update changes.
pub open spec fn project_update_fields(
    title: Option<String>,
    description: Option<String>,
    hex_color: Option<String>,
    archived: Option<bool>,
    favorite: Option<bool>,
) -> Map<Seq<char>, FieldValue> {
    with_field(
        with_field(
            with_field(
                with_field(with_field(no_fields(), "title"@, text_field(title)), "description"@, text_field(description)),
                "hex_color"@,
                text_field(hex_color),
            ),
            "is_archived"@,
            flag_field(archived),
        ),
        "is_favorite"@,
        flag_field(favorite),
    )
}

/// The request for a project command.
///
/// `list` is `GET /projects` with `page`, `per_page` (100 unless given) and `is_archived`;
/// `get` is `GET /projects/{id}`; `create` is `PUT /projects` with the given fields;
/// `update` is `POST /projects/{id}` with the fields to change, refused when there are none.
pub fn project_request(cmd: ProjectCmd) -> (r: Result<Request, CommandError>)
    ensures
        match cmd {
            ProjectCmd::List { page, per_page, search, archived } => r matches Ok(q) && {
                &&& q.method == Method::Get
                &&& q.path@ == "/projects"@
                &&& query_view(q.query@) == opt_entry("page"@, page) + per_page_entry(per_page, 100)
                    + opt_entry("is_archived"@, archived)
                &&& q.body is None
            },
            ProjectCmd::Get { id } => r matches Ok(q) && {
                &&& q.method == Method::Get
                &&& q.path@ == "/projects/"@ + int_text(id as int)
                &&& q.query@.len() == 0
                &&& q.body is None
            },
            ProjectCmd::Create { title, description, hex_color, parent, archived } => r matches Ok(q) && {
                &&& q.method == Method::Put
                &&& q.path@ == "/projects"@
                &&& q.query@.len() == 0
                &&& q.body matches Some(b) && body_fields(b) == project_create_fields(
                    title,
                    description,
                    hex_color,
                    parent,
                    archived,
                )
            },
            ProjectCmd::Update { id, title, description, hex_color, archived, favorite } => {
                let fields = project_update_fields(title, description, hex_color, archived, favorite);
                if fields.dom().is_empty() {
                    r == Err::<Request, CommandError>(CommandError::NoFieldsToUpdate)
                } else {
                    r matches Ok(q) && {
                        &&& q.method == Method::Post
                        &&& q.path@ == "/projects/"@ + int_text(id as int)
                        &&& q.query@.len() == 0
                        &&& q.body matches Some(b) && body_fields(b) == fields
                    }
                }
            },
        },
{
    match cmd {
        ProjectCmd::List { page, per_page, search, archived } => {
            let mut query: Vec<(&'static str, String)> = Vec::new();
            push_opt(&mut query, "page", page);
            push_per_page(&mut query, per_page, 100);
            push_opt(&mut query, "is_archived", archived);
            assert(query_view(query@) =~= opt_entry("page"@, page) + per_page_entry(per_page, 100)
                + opt_entry("is_archived"@, archived));
            let path = "/projects".to_owned();
            assert(path@ == "/projects"@);
            let r = Request { method: Method::Get, path, query, body: None };
            assert(r.method == Method::Get);
            assert(r.body is None);
            assert(query_view(r.query@) == opt_entry("page"@, page) + per_page_entry(per_page, 100)
                + opt_entry("is_archived"@, archived));
            Ok(r)
        },
        ProjectCmd::Get { id } => Ok(plain(Method::Get, path_with_id("/projects/", id))),
        ProjectCmd::Create { title, description, hex_color, parent, archived } => {
            let ghost t = title;
            let mut body = new_body();
            insert_field(&mut body, "title", FieldValue::Text(title));
            insert_opt_str(&mut body, "description", description);
            insert_opt_str(&mut body, "hex_color", hex_color);
            insert_opt_i64(&mut body, "parent_project_id", parent);
            insert_opt_bool(&mut body, "is_archived", archived);
            proof {
                assert(body_fields(body) == project_create_fields(t, description, hex_color, parent, archived));
            }
            Ok(Request { method: Method::Put, path: "/projects".to_owned(), query: Vec::new(), body: Some(body) })
        },
        ProjectCmd::Update { id, title, description, hex_color, archived, favorite } => {
            let ghost fields = project_update_fields(title, description, hex_color, archived, favorite);
            let mut body = new_body();
            insert_opt_str(&mut body, "title", title);
            insert_opt_str(&mut body, "description", description);
            insert_opt_str(&mut body, "hex_color", hex_color);
            insert_opt_bool(&mut body, "is_archived", archived);
            insert_opt_bool(&mut body, "is_favorite", favorite);
            assert(body_fields(body) == fields);
            if body_is_empty(&body) {
                return Err(CommandError::NoFieldsToUpdate);
            }
            Ok(Request {
                method: Method::Post,
                path: path_with_id("/projects/", id),
                query: Vec::new(),
                body: Some(body),
            })
        },
    }
}

/// The request for a comment command: `GET /tasks/{task_id}/comments`, or `PUT` there
/// with the field `comment`.
pub fn comment_request(cmd: CommentCmd) -> (r: Request)
    ensures
        match cmd {
            CommentCmd::List { task_id } => {
                &&& r.method == Method::Get
                &&& r.path@ == "/tasks/"@ + int_text(task_id as int) + "/comments"@
                &&& r.query@.len() == 0
                &&& r.body is None
            },
            CommentCmd::Create { task_id, comment } => {
                &&& r.method == Method::Put
                &&& r.path@ == "/tasks/"@ + int_text(task_id as int) + "/comments"@
                &&& r.query@.len() == 0
                &&& r.body matches Some(b) && body_fields(b) == no_fields().insert("comment"@, FieldValue::Text(comment))
            },
        },
{
    match cmd {
        CommentCmd::List { task_id } => plain(Method::Get, path_with_id_and("/tasks/", task_id, "/comments")),
        CommentCmd::Create { task_id, comment } => {
            let mut body = new_body();
            insert_field(&mut body, "comment", FieldValue::Text(comment));
            Request {
                method: Method::Put,
                path: path_with_id_and("/tasks/", task_id, "/comments"),
                query: Vec::new(),
                body: Some(body),
            }
        },
    }
}

/// Whether a task filter needs the project list: it mentions `project_id`.
pub fn filter_needs_projects(filter: &Option<String>) -> (b: bool)
    ensures
        b == (filter matches Some(f) && has_infix(f@, "project_id"@)),
{
    match filter {
        Some(f) => text_contains(f.as_str(), "project_id"),
        None => false,
    }
}

/// The request for the project list that filter expansion reads: `GET /projects`.
pub fn all_projects_request() -> (r: Request)
    ensures
        r.method == Method::Get,
        r.path@ == "/projects"@,
        r.query@.len() == 0,
        r.body is None,
{
    plain(Method::Get, "/projects".to_owned())
}

/// The request for `task list`: `GET /tasks` with `filter` (already expanded), `s`, `sort_by`,
/// `order_by`, `page` and `per_page` (50 unless given).
pub fn task_list_request(
    filter: Option<String>,
    search: Option<String>,
    sort_by: Option<String>,
    order_by: Option<String>,
    page: Option<u32>,
    per_page: Option<u32>,
) -> (r: Request)
    ensures
        r.method == Method::Get,
        r.path@ == "/tasks"@,
        query_view(r.query@) == opt_entry("filter"@, filter) + opt_entry("s"@, search) + opt_entry("sort_by"@, sort_by)
            + opt_entry("order_by"@, order_by) + opt_entry("page"@, page) + per_page_entry(per_page, 50),
        r.body is None,
{
    let mut query: Vec<(&'static str, String)> = Vec::new();
    push_opt(&mut query, "filter", filter);
    push_opt(&mut query, "s", search);
    push_opt(&mut query, "sort_by", sort_by);
    push_opt(&mut query, "order_by", order_by);
    push_opt(&mut query, "page", page);
    push_per_page(&mut query, per_page, 50);
    Request { method: Method::Get, path: "/tasks".to_owned(), query, body: None }
}

/// The request for `task get`: `GET /tasks/{id}`.
pub fn task_get_request(id: i64) -> (r: Request)
    ensures
        r.method == Method::Get,
        r.path@ == "/tasks/"@ + int_text(id as int),
        r.query@.len() == 0,
        r.body is None,
{
    plain(Method::Get, path_with_id("/tasks/", id))
}

/// The requests for `task get-detail`: one `GET /tasks/{id}` per id of the comma-separated
/// list (pieces that are not integers are skipped); more than 25 ids are refused.
pub fn task_detail_requests(ids: &str) -> (r: Result<Vec<Request>, CommandError>)
    ensures
        parsed_ids(split_on(ids@, ',')).len() > 25 <==> r == Err::<Vec<Request>, CommandError>(
            CommandError::TooManyTaskIds,
        ),
        parsed_ids(split_on(ids@, ',')).len() <= 25 ==> r is Ok,
        r matches Ok(v) ==> {
            &&& v@.len() == parsed_ids(split_on(ids@, ',')).len()
            &&& forall|i: int| 0 <= i < v@.len() ==> {
                &&& (#[trigger] v@[i]).method == Method::Get
                &&& v@[i].path@ == "/tasks/"@ + int_text(parsed_ids(split_on(ids@, ','))[i] as int)
                &&& v@[i].query@.len() == 0
                &&& v@[i].body is None
            }
        },
{
    let list = parse_id_list(ids);
    if list.len() > MAX_DETAIL_IDS {
        return Err(CommandError::TooManyTaskIds);
    }
    let mut out: Vec<Request> = Vec::new();
    let n = list.len();
    for i in 0..n
        invariant
            n == list@.len(),
            out@.len() == i,
            forall|k: int| 0 <= k < i ==> {
                &&& (#[trigger] out@[k]).method == Method::Get
                &&& out@[k].path@ == "/tasks/"@ + int_text(list@[k] as int)
                &&& out@[k].query@.len() == 0
                &&& out@[k].body is None
            },
    {
        out.push(task_get_request(list[i]));
    }
    Ok(out)
}

/// The fields of a new task.
pub open spec fn task_create_fields(
    title: String,
    description: Option<String>,
    priority: Option<i64>,
    due_date: Option<String>,
    start_date: Option<String>,
    end_date: Option<String>,
    hex_color: Option<String>,
) -> Map<Seq<char>, FieldValue> {
    with_field(
        with_field(
            with_field(
                with_field(
                    with_field(
                        with_field(no_fields().insert("title"@, FieldValue::Text(title)), "description"@, text_field(description)),
                        "priority"@,
                        int_field(priority),
                    ),
                    "due_date"@,
                    text_field(due_date),
                ),
                "start_date"@,
                text_field(start_date),
            ),
            "end_date"@,
            text_field(end_date),
        ),
        "hex_color"@,
        text_field(hex_color),
    )
}

/// The request for `task create`: `PUT /projects/{project_id}/tasks` with the given fields.
pub fn task_create_request(
    project_id: i64,
    title: String,
    description: Option<String>,
    priority: Option<i64>,
    due_date: Option<String>,
    start_date: Option<String>,
    end_date: Option<String>,
    hex_color: Option<String>,
) -> (r: Request)
    ensures
        r.method == Method::Put,
        r.path@ == "/projects/"@ + int_text(project_id as int) + "/tasks"@,
        r.query@.len() == 0,
        r.body matches Some(b) && body_fields(b) == task_create_fields(
            title,
            description,
            priority,
            due_date,
            start_date,
            end_date,
            hex_color,
        ),
{
    let ghost t = title;
    let mut body = new_body();
    insert_field(&mut body, "title", FieldValue::Text(title));
    insert_opt_str(&mut body, "description", description);
    insert_opt_i64(&mut body, "priority", priority);
    insert_opt_str(&mut body, "due_date", due_date);
    insert_opt_str(&mut body, "start_date", start_date);
    insert_opt_str(&mut body, "end_date", end_date);
    insert_opt_str(&mut body, "hex_color", hex_color);
    assert(body_fields(body) == task_create_fields(t, description, priority, due_date, start_date, end_date, hex_color));
    Request {
        method: Method::Put,
        path: path_with_id_and("/projects/", project_id, "/tasks"),
        query: Vec::new(),
        body: Some(body),
    }
}

/// The fields that a task update changes.
pub open spec fn task_update_fields(
    title: Option<String>,
    description: Option<String>,
    done: Option<bool>,
    priority: Option<i64>,
    due_date: Option<String>,
    percent_done: Option<Fraction>,
    is_favorite: Option<bool>,
) -> Map<Seq<char>, FieldValue> {
    with_field(
        with_field(
            with_field(
                with_field(
                    with_field(
                        with_field(with_field(no_fields(), "title"@, text_field(title)), "description"@, text_field(description)),
                        "done"@,
                        flag_field(done),
                    ),
                    "priority"@,
                    int_field(priority),
                ),
                "due_date"@,
                text_field(due_date),
            ),
            "percent_done"@,
            fraction_field(percent_done),
        ),
        "is_favorite"@,
        flag_field(is_favorite),
    )
}

/// The request for `task update`: `POST /tasks/{id}` with the fields to change, refused when
/// there are none. `percent_done` comes as a floating-point JSON number; a value that JSON
/// cannot hold (not finite) arrives as `None`.
pub fn task_update_request(
    id: i64,
    title: Option<String>,
    description: Option<String>,
    done: Option<bool>,
    priority: Option<i64>,
    due_date: Option<String>,
    percent_done: Option<Fraction>,
    is_favorite: Option<bool>,
) -> (r: Result<Request, CommandError>)
    ensures
        ({
            let fields = task_update_fields(title, description, done, priority, due_date, percent_done, is_favorite);
            if fields.dom().is_empty() {
                r == Err::<Request, CommandError>(CommandError::NoFieldsToUpdate)
            } else {
                r matches Ok(q) && {
                    &&& q.method == Method::Post
                    &&& q.path@ == "/tasks/"@ + int_text(id as int)
                    &&& q.query@.len() == 0
                    &&& q.body matches Some(b) && body_fields(b) == fields
                }
            }
        }),
{
    let ghost fields = task_update_fields(title, description, done, priority, due_date, percent_done, is_favorite);
    let mut body = new_body();
    insert_opt_str(&mut body, "title", title);
    insert_opt_str(&mut body, "description", description);
    insert_opt_bool(&mut body, "done", done);
    insert_opt_i64(&mut body, "priority", priority);
    insert_opt_str(&mut body, "due_date", due_date);
    insert_opt_fraction(&mut body, "percent_done", percent_done);
    insert_opt_bool(&mut body, "is_favorite", is_favorite);
    assert(body_fields(body) == fields);
    if body_is_empty(&body) {
        return Err(CommandError::NoFieldsToUpdate);
    }
    Ok(Request { method: Method::Post, path: path_with_id("/tasks/", id), query: Vec::new(), body: Some(body) })
}

/// The request for `task delete`: `DELETE /tasks/{id}`.
pub fn task_delete_request(id: i64) -> (r: Request)
    ensures
        r.method == Method::Delete,
        r.path@ == "/tasks/"@ + int_text(id as int),
        r.query@.len() == 0,
        r.body is None,
{
    plain(Method::Delete, path_with_id("/tasks/", id))
}

/// The request for `task assign`: `PUT /tasks/{task_id}/assignees` with the field `user_id`.
pub fn assign_request(task_id: i64, user_id: i64) -> (r: Request)
    ensures
        r.method == Method::Put,
        r.path@ == "/tasks/"@ + int_text(task_id as int) + "/assignees"@,
        r.query@.len() == 0,
        r.body matches Some(b) && body_fields(b) == no_fields().insert("user_id"@, FieldValue::Int(user_id)),
{
    let mut body = new_body();
    insert_field(&mut body, "user_id", FieldValue::Int(user_id));
    Request {
        method: Method::Put,
        path: path_with_id_and("/tasks/", task_id, "/assignees"),
        query: Vec::new(),
        body: Some(body),
    }
}

/// The request for `task unassign`: `DELETE /tasks/{task_id}/assignees/{user_id}`.
pub fn unassign_request(task_id: i64, user_id: i64) -> (r: Request)
    ensures
        r.method == Method::Delete,
        r.path@ == "/tasks/"@ + int_text(task_id as int) + "/assignees/"@ + int_text(user_id as int),
        r.query@.len() == 0,
        r.body is None,
{
    plain(Method::Delete, path_with_ids("/tasks/", task_id, "/assignees/", user_id))
}

/// The request for `task labels`: `POST /tasks/{task_id}/labels/bulk` with the field
/// `label_ids`, the integers of the comma-separated list (other pieces skipped; an empty
/// list clears the labels). Also gives the ids sent.
pub fn set_labels_request(task_id: i64, ids: &str) -> (r: (Request, Vec<i64>))
    ensures
        r.1@ == parsed_ids(split_on(ids@, ',')),
        r.0.method == Method::Post,
        r.0.path@ == "/tasks/"@ + int_text(task_id as int) + "/labels/bulk"@,
        r.0.query@.len() == 0,
        r.0.body matches Some(b) && {
            &&& body_fields(b).dom() == set!["label_ids"@]
            &&& body_fields(b)["label_ids"@] matches FieldValue::Ids(v) && v@ == r.1@
        },
{
    let list = parse_id_list(ids);
    let sent = list.clone();
    let mut body = new_body();
    insert_field(&mut body, "label_ids", FieldValue::Ids(list));
    assert(body_fields(body).dom() =~= set!["label_ids"@]);
    (
        Request {
            method: Method::Post,
            path: path_with_id_and("/tasks/", task_id, "/labels/bulk"),
            query: Vec::new(),
            body: Some(body),
        },
        sent,
    )
}

/// `Task {id} deleted`.
pub fn deleted_message(id: i64) -> (m: String)
    ensures
        m@ == "Task "@ + int_text(id as int) + " deleted"@,
{
    path_with_id_and("Task ", id, " deleted")
}

/// The text shown when the API answers with an error status: a short name for the statuses
/// that users meet most (400, 401, 403, 404), else the status and the reply's text.
pub open spec fn http_error_text(status: u16, body: Seq<char>) -> Seq<char> {
    if status == 404 {
        "Not found (404)"@
    } else if status == 403 {
        "Permission denied (403)"@
    } else if status == 401 {
        "Unauthorized (401)"@
    } else if status == 400 {
        "Bad request (400)"@
    } else {
        "HTTP "@ + nat_text(status as nat) + ": "@ + body
    }
}

/// The message for a failed request, from the reply's status and text.
pub fn http_error_message(status: u16, body: &str) -> (m: String)
    ensures
        m@ == http_error_text(status, body@),
{
    let m = if status == 404 {
        "Not found (404)".to_owned()
    } else if status == 403 {
        "Permission denied (403)".to_owned()
    } else if status == 401 {
        "Unauthorized (401)".to_owned()
    } else if status == 400 {
        "Bad request (400)".to_owned()
    } else {
        let mut m = "HTTP ".to_owned();
        push_u64_text(&mut m, status as u64);
        m.append(": ");
        m.append(body);
        m
    };
    m
}

/// `Comment {id} added`.
pub fn comment_added_message(id: i64) -> (m: String)
    ensures
        m@ == "Comment "@ + int_text(id as int) + " added"@,
{
    path_with_id_and("Comment ", id, " added")
}

/// `User {user_id} assigned to task {task_id}`.
pub fn assigned_message(task_id: i64, user_id: i64) -> (m: String)
    ensures
        m@ == "User "@ + int_text(user_id as int) + " assigned to task "@ + int_text(task_id as int),
{
    path_with_ids("User ", user_id, " assigned to task ", task_id)
}

/// `User {user_id} removed from task {task_id}`.
pub fn unassigned_message(task_id: i64, user_id: i64) -> (m: String)
    ensures
        m@ == "User "@ + int_text(user_id as int) + " removed from task "@ + int_text(task_id as int),
{
    path_with_ids("User ", user_id, " removed from task ", task_id)
}

/// `Labels set on task {task_id}: {count} label(s)`.
pub fn labels_set_message(task_id: i64, count: usize) -> (m: String)
    ensures
        m@ == "Labels set on task "@ + int_text(task_id as int) + ": "@ + nat_text(count as nat) + " label(s)"@,
{
    let mut m = path_with_id_and("Labels set on task ", task_id, ": ");
    push_u64_text(&mut m, count as u64);
    m.append(" label(s)");
    m
}

/// The JSON report of a deletion: `{"deleted": id}`.
pub fn deleted_report(id: i64) -> (b: JsonBody)
    ensures
        body_fields(b) == no_fields().insert("deleted"@, FieldValue::Int(id)),
{
    let mut b = new_body();
    insert_field(&mut b, "deleted", FieldValue::Int(id));
    b
}

/// The JSON report of an unassignment: `{"unassigned": user_id, "task_id": task_id}`.
pub fn unassigned_report(task_id: i64, user_id: i64) -> (b: JsonBody)
    ensures
        body_fields(b) == no_fields().insert("unassigned"@, FieldValue::Int(user_id)).insert(
            "task_id"@,
            FieldValue::Int(task_id),
        ),
{
    let mut b = new_body();
    insert_field(&mut b, "unassigned", FieldValue::Int(user_id));
    insert_field(&mut b, "task_id", FieldValue::Int(task_id));
    b
}

/// The text that `str::to_lowercase` gives (Unicode lower-case mapping).
pub uninterp spec fn lowercase(s: Seq<char>) -> Seq<char>;

/// `str::to_lowercase`, which maps each character to its Unicode lower case.
#[verifier::external_body]
fn to_lowercase(s: &str) -> (r: String)
    ensures
        r@ == lowercase(s@),
{
    s.to_lowercase()
}

/// The projects whose lower-cased title contains `needle`, in list order.
pub open spec fn titles_matching(ps: Seq<Project>, needle: Seq<char>) -> Seq<Project>
    decreases ps.len(),
{
    if ps.len() == 0 {
        seq![]
    } else if has_infix(lowercase(ps.last().title@), needle) {
        titles_matching(ps.drop_last(), needle).push(ps.last())
    } else {
        titles_matching(ps.drop_last(), needle)
    }
}

/// `x` placed after every element of the id-sorted `s` whose id is at most its own.
pub open spec fn insert_by_id(x: Project, s: Seq<Project>) -> Seq<Project>
    decreases s.len(),
{
    if s.len() == 0 {
        seq![x]
    } else if s.last().id <= x.id {
        s.push(x)
    } else {
        insert_by_id(x, s.drop_last()).push(s.last())
    }
}

/// `s` stably sorted by id (`sort_by_key(|p| p.id)`).
pub open spec fn sorted_by_id(s: Seq<Project>) -> Seq<Project>
    decreases s.len(),
{
    if s.len() == 0 {
        s
    } else {
        insert_by_id(s.last(), sorted_by_id(s.drop_last()))
    }
}

proof fn lemma_insert_by_id_position(x: Project, s: Seq<Project>, k: int)
    requires
        0 <= k <= s.len(),
        forall|m: int| k <= m < s.len() ==> (#[trigger] s[m]).id > x.id,
        k == 0 || s[k - 1].id <= x.id,
    ensures
        insert_by_id(x, s) == s.take(k).push(x) + s.skip(k),
    decreases s.len(),
{
    if s.len() == 0 {
        assert(s.take(k).push(x) + s.skip(k) =~= seq![x]);
    } else if k == s.len() {
        assert(s.take(k).push(x) + s.skip(k) =~= s.push(x));
    } else {
        assert(s[s.len() - 1].id > x.id);
        let t = s.drop_last();
        assert forall|m: int| k <= m < t.len() implies (#[trigger] t[m]).id > x.id by {
            assert(t[m] == s[m]);
        }
        lemma_insert_by_id_position(x, t, k);
        assert(t.take(k).push(x) + t.skip(k) + seq![s.last()] =~= s.take(k).push(x) + s.skip(k));
    }
}

/// Whether `p` keeps its parent in `ps`: it has none, or a project of `ps` has that id.
pub open spec fn keeps_parent(p: Project, ps: Seq<Project>) -> bool {
    match parent_of(p) {
        Some(x) => project_ids(ps).contains(x),
        None => true,
    }
}

/// `p` as shown among `ps`: unchanged when it keeps its parent there, else at the top level.
pub open spec fn detached(p: Project, ps: Seq<Project>) -> Project {
    if keeps_parent(p, ps) {
        p
    } else {
        Project {
            id: p.id,
            title: p.title,
            description: p.description,
            parent_project_id: None,
            is_archived: p.is_archived,
            hex_color: p.hex_color,
        }
    }
}

/// The projects of `ps`, each whose parent is not among them moved to the top level.
pub open spec fn detach_orphans(ps: Seq<Project>) -> Seq<Project> {
    ps.map_values(|p: Project| detached(p, ps))
}

/// Whether a project of `ps` has the id `x`.
fn has_id(ps: &Vec<Project>, x: i64) -> (b: bool)
    ensures
        b == project_ids(ps@).contains(x),
{
    let n = ps.len();
    let mut i: usize = 0;
    while i < n
        invariant
            n == ps@.len(),
            i <= n,
            forall|k: int| 0 <= k < i ==> (#[trigger] ps@[k]).id != x,
        decreases n - i,
    {
        if ps[i].id == x {
            assert(project_ids(ps@)[i as int] == x);
            return true;
        }
        i = i + 1;
    }
    assert forall|k: int| 0 <= k < project_ids(ps@).len() implies #[trigger] project_ids(ps@)[k] != x by {
        assert(ps@[k].id != x);
    }
    false
}

/// Moves each project whose parent is not in the list to the top level.
fn detach_orphans_of(ps: Vec<Project>) -> (out: Vec<Project>)
    ensures
        out@ == detach_orphans(ps@),
{
    let ghost orig = ps@;
    let n = ps.len();
    let mut keep: Vec<bool> = Vec::new();
    for i in 0..n
        invariant
            n == orig.len(),
            orig == ps@,
            keep@.len() == i,
            forall|k: int| 0 <= k < i ==> keep@[k] == keeps_parent(#[trigger] orig[k], orig),
    {
        let b = match ps[i].parent_project_id {
            Some(x) => x == 0 || has_id(&ps, x),
            None => true,
        };
        keep.push(b);
    }
    let mut rest = ps;
    let mut out: Vec<Project> = Vec::new();
    let mut i: usize = 0;
    while i < n
        invariant
            n == orig.len(),
            i <= n,
            rest@ == orig.skip(i as int),
            keep@.len() == n,
            forall|k: int| 0 <= k < n ==> keep@[k] == keeps_parent(#[trigger] orig[k], orig),
            out@ == detach_orphans(orig).take(i as int),
        decreases n - i,
    {
        assert(rest@[0] == orig[i as int]);
        let mut p = rest.remove(0);
        assert(rest@ =~= orig.skip(i + 1));
        if !keep[i] {
            p.parent_project_id = None;
        }
        assert(p == detached(orig[i as int], orig));
        out.push(p);
        assert(detach_orphans(orig).take(i + 1) =~= detach_orphans(orig).take(i as int).push(p));
        i = i + 1;
    }
    assert(detach_orphans(orig).take(n as int) =~= detach_orphans(orig));
    out
}

/// The projects that `project list` shows, stably sorted by id: all of them when there is no
/// search; with a search, those whose title contains the search text (both lower-cased), where
/// a match whose parent did not match is shown at the top level, so that every match is shown.
pub fn select_projects(projects: Vec<Project>, search: Option<String>) -> (out: Vec<Project>)
    ensures
        out@ == sorted_by_id(
            match search {
                Some(q) => detach_orphans(titles_matching(projects@, lowercase(q@))),
                None => projects@,
            },
        ),
{
    let ghost orig = projects@;
    let ghost chosen = match search {
        Some(ref q) => detach_orphans(titles_matching(orig, lowercase(q@))),
        None => orig,
    };
    let mut rest = projects;
    let mut picked: Vec<Project> = Vec::new();
    match search {
        Some(q) => {
            let needle = to_lowercase(q.as_str());
            let n = rest.len();
            let mut i: usize = 0;
            while i < n
                invariant
                    n == orig.len(),
                    i <= n,
                    rest@ == orig.skip(i as int),
                    needle@ == lowercase(q@),
                    picked@ == titles_matching(orig.take(i as int), needle@),
                decreases n - i,
            {
                assert(rest@[0] == orig[i as int]);
                let p = rest.remove(0);
                assert(rest@ =~= orig.skip(i + 1));
                assert(orig.take(i + 1).drop_last() =~= orig.take(i as int));
                assert(orig.take(i + 1).last() == p);
                let title = to_lowercase(p.title.as_str());
                if text_contains(title.as_str(), needle.as_str()) {
                    picked.push(p);
                }
                i = i + 1;
            }
            assert(orig.take(n as int) =~= orig);
            picked = detach_orphans_of(picked);
        },
        None => {
            picked = rest;
        },
    }
    assert(picked@ == chosen);
    let n = picked.len();
    let mut out: Vec<Project> = Vec::new();
    let mut i: usize = 0;
    while i < n
        invariant
            n == chosen.len(),
            i <= n,
            picked@ == chosen.skip(i as int),
            out@ == sorted_by_id(chosen.take(i as int)),
        decreases n - i,
    {
        assert(picked@[0] == chosen[i as int]);
        let x = picked.remove(0);
        assert(picked@ =~= chosen.skip(i + 1));
        let mut k = out.len();
        while k > 0 && out[k - 1].id > x.id
            invariant
                k <= out@.len(),
                forall|m: int| k <= m < out@.len() ==> (#[trigger] out@[m]).id > x.id,
            decreases k,
        {
            k = k - 1;
        }
        proof {
            lemma_insert_by_id_position(x, out@, k as int);
            assert(chosen.take(i + 1).drop_last() =~= chosen.take(i as int));
            assert(chosen.take(i + 1).last() == x);
        }
        out.insert(k, x);
        i = i + 1;
    }
    assert(chosen.take(n as int) =~= chosen);
    out
}

} // verus!
