//! What the tables, detail views and trees show, as plain text cells and lines.
//! Colours and table borders are added where the text is printed.

use vstd::prelude::*;
use crate::text::{
    i64_text, int_text, joined, join_texts, lines_of, nat_text, push_i64_text, push_u64_text, text_eq,
    text_lines, texts, truncated,
};
use crate::types::{Assignee, Label, Project, ProjectNode, Task, ZERO_DATE};
use crate::util::truncate;

verus! {

/// The cell text of an optional date: the date, or `-` when it is absent, empty or Vikunja's zero date.
pub open spec fn date_text(d: Option<String>) -> Seq<char> {
    match d {
        Some(s) => if s@ != ZERO_DATE@ && s@.len() > 0 { s@ } else { "-"@ },
        None => "-"@,
    }
}

/// Whether an optional date is set: present, non-empty and not the zero date.
pub fn date_is_set(d: &Option<String>) -> (b: bool)
    ensures
        b == (d matches Some(s) && s@ != ZERO_DATE@ && s@.len() > 0),
{
    match d {
        Some(s) => !text_eq(s.as_str(), ZERO_DATE) && s.unicode_len() > 0,
        None => false,
    }
}

/// The titles of labels.
pub open spec fn label_titles(ls: Seq<Label>) -> Seq<Seq<char>> {
    ls.map_values(|l: Label| l.title@)
}

/// The user names of assignees.
pub open spec fn assignee_names(xs: Seq<Assignee>) -> Seq<Seq<char>> {
    xs.map_values(|a: Assignee| a.username@)
}

/// Texts joined with `, `.
pub fn join_field(items: &Vec<String>) -> (r: String)
    ensures
        r@ == joined(texts(items@), ", "@),
{
    join_texts(items, ", ")
}

fn titles_of(labels: &Vec<Label>) -> (v: Vec<String>)
    ensures
        texts(v@) == label_titles(labels@),
{
    let mut v: Vec<String> = Vec::new();
    let n = labels.len();
    for i in 0..n
        invariant
            n == labels@.len(),
            texts(v@) == label_titles(labels@).take(i as int),
    {
        let ghost before = v@;
        let item = labels[i].title.clone();
        v.push(item);
        assert(texts(v@) =~= texts(before).push(item@));
        assert(label_titles(labels@).take(i + 1) =~= label_titles(labels@).take(i as int).push(item@));
    }
    assert(label_titles(labels@).take(n as int) =~= label_titles(labels@));
    v
}

fn names_of(assignees: &Vec<Assignee>) -> (v: Vec<String>)
    ensures
        texts(v@) == assignee_names(assignees@),
{
    let mut v: Vec<String> = Vec::new();
    let n = assignees.len();
    for i in 0..n
        invariant
            n == assignees@.len(),
            texts(v@) == assignee_names(assignees@).take(i as int),
    {
        let ghost before = v@;
        let item = assignees[i].username.clone();
        v.push(item);
        assert(texts(v@) =~= texts(before).push(item@));
        assert(assignee_names(assignees@).take(i + 1) =~= assignee_names(assignees@).take(i as int).push(item@));
    }
    assert(assignee_names(assignees@).take(n as int) =~= assignee_names(assignees@));
    v
}

/// The labels of a task joined with `, ` (empty when it has none).
pub open spec fn labels_text(t: Task) -> Seq<char> {
    match t.labels {
        Some(ls) => joined(label_titles(ls@), ", "@),
        None => seq![],
    }
}

/// The assignees of a task joined with `, ` (empty when it has none).
pub open spec fn assignees_text(t: Task) -> Seq<char> {
    match t.assignees {
        Some(xs) => joined(assignee_names(xs@), ", "@),
        None => seq![],
    }
}

fn labels_of(t: &Task) -> (s: String)
    ensures
        s@ == labels_text(*t),
{
    match &t.labels {
        Some(ls) => join_field(&titles_of(ls)),
        None => String::new(),
    }
}

fn assignees_of(t: &Task) -> (s: String)
    ensures
        s@ == assignees_text(*t),
{
    match &t.assignees {
        Some(xs) => join_field(&names_of(xs)),
        None => String::new(),
    }
}

/// The cells of a task's table row: id, title (60 characters at most), done mark, priority,
/// project, due date, labels and assignees (30 characters at most each).
pub open spec fn task_row_cells(t: Task) -> Seq<Seq<char>> {
    seq![
        int_text(t.id as int),
        truncated(t.title@, 60),
        if t.done { seq!['\u{2713}'] } else { seq![] },
        int_text(t.priority as int),
        int_text(t.project_id as int),
        date_text(t.due_date),
        truncated(labels_text(t), 30),
        truncated(assignees_text(t), 30),
    ]
}

/// The table row of a task.
pub fn task_row(t: &Task) -> (cells: Vec<String>)
    ensures
        texts(cells@) == task_row_cells(*t),
        cells@.len() == 8,
        cells@[6]@ == truncated(
            match t.labels {
                Some(ls) => joined(label_titles(ls@), ", "@),
                None => seq![],
            },
            30,
        ),
        cells@[7]@ == truncated(
            match t.assignees {
                Some(xs) => joined(assignee_names(xs@), ", "@),
                None => seq![],
            },
            30,
        ),
{
    let due = if date_is_set(&t.due_date) {
        match &t.due_date {
            Some(d) => d.clone(),
            None => String::new(),
        }
    } else {
        "-".to_owned()
    };
    let done = if t.done { "\u{2713}".to_owned() } else { String::new() };
    proof {
        reveal_strlit("\u{2713}");
    }
    let labels = labels_of(t);
    let assignees = assignees_of(t);
    let mut cells: Vec<String> = Vec::new();
    cells.push(i64_text(t.id));
    cells.push(truncate(t.title.as_str(), 60));
    cells.push(done);
    cells.push(i64_text(t.priority));
    cells.push(i64_text(t.project_id));
    cells.push(due);
    cells.push(truncate(labels.as_str(), 30));
    cells.push(truncate(assignees.as_str(), 30));
    assert(texts(cells@)[0] == task_row_cells(*t)[0]);
    assert(texts(cells@)[1] == task_row_cells(*t)[1]);
    assert(texts(cells@)[2] == task_row_cells(*t)[2]);
    assert(texts(cells@)[3] == task_row_cells(*t)[3]);
    assert(texts(cells@)[4] == task_row_cells(*t)[4]);
    assert(texts(cells@)[5] == task_row_cells(*t)[5]);
    assert(texts(cells@)[6] == task_row_cells(*t)[6]);
    assert(texts(cells@)[7] == task_row_cells(*t)[7]);
    assert(texts(cells@) =~= task_row_cells(*t));
    assert(cells@[6]@ == texts(cells@)[6] && cells@[7]@ == texts(cells@)[7]);
    cells
}

/// The table row of a label: id, title and colour (empty when it has none).
pub fn label_row(l: &Label) -> (cells: Vec<String>)
    ensures
        texts(cells@) == seq![
            int_text(l.id as int),
            l.title@,
            match l.hex_color {
                Some(c) => c@,
                None => seq![],
            },
        ],
{
    let color = match &l.hex_color {
        Some(c) => c.clone(),
        None => String::new(),
    };
    let mut cells: Vec<String> = Vec::new();
    cells.push(i64_text(l.id));
    cells.push(l.title.clone());
    cells.push(color);
    assert(texts(cells@) =~= seq![
        int_text(l.id as int),
        l.title@,
        match l.hex_color {
            Some(c) => c@,
            None => seq![],
        },
    ]);
    cells
}

/// What the detail view of a task shows.
pub struct TaskDetail {
    /// The id, in decimal.
    pub id: String,
    /// The title.
    pub title: String,
    /// `✓` for a done task, `✗` for an open one.
    pub done: String,
    /// The priority, in decimal.
    pub priority: String,
    /// The project id, in decimal.
    pub project: String,
    /// The due date, when it is set.
    pub due: Option<String>,
    /// The lines of the description (none when it is empty).
    pub description_lines: Vec<String>,
    /// The label titles joined with `, `, when there are labels.
    pub labels: Option<String>,
    /// The assignee names joined with `, `, when there are assignees.
    pub assignees: Option<String>,
}

/// The parts of a task's detail view.
pub fn task_detail(t: &Task) -> (d: TaskDetail)
    ensures
        d.id@ == int_text(t.id as int),
        d.title@ == t.title@,
        d.done@ == if t.done { seq!['\u{2713}'] } else { seq!['\u{2717}'] },
        d.priority@ == int_text(t.priority as int),
        d.project@ == int_text(t.project_id as int),
        match d.due {
            Some(s) => t.due_date matches Some(x) && x@ != ZERO_DATE@ && x@.len() > 0 && s@ == x@,
            None => !(t.due_date matches Some(x) && x@ != ZERO_DATE@ && x@.len() > 0),
        },
        texts(d.description_lines@) == lines_of(t.description@),
        match d.labels {
            Some(s) => t.labels matches Some(ls) && ls@.len() > 0 && s@ == joined(label_titles(ls@), ", "@),
            None => !(t.labels matches Some(ls) && ls@.len() > 0),
        },
        match d.assignees {
            Some(s) => t.assignees matches Some(xs) && xs@.len() > 0 && s@ == joined(assignee_names(xs@), ", "@),
            None => !(t.assignees matches Some(xs) && xs@.len() > 0),
        },
{
    let due = if date_is_set(&t.due_date) {
        match &t.due_date {
            Some(x) => Some(x.clone()),
            None => None,
        }
    } else {
        None
    };
    let labels = match &t.labels {
        Some(ls) => if ls.len() > 0 { Some(join_field(&titles_of(ls))) } else { None },
        None => None,
    };
    let assignees = match &t.assignees {
        Some(xs) => if xs.len() > 0 { Some(join_field(&names_of(xs))) } else { None },
        None => None,
    };
    let done = if t.done { "\u{2713}".to_owned() } else { "\u{2717}".to_owned() };
    proof {
        reveal_strlit("\u{2713}");
        reveal_strlit("\u{2717}");
    }
    TaskDetail {
        id: i64_text(t.id),
        title: t.title.clone(),
        done,
        priority: i64_text(t.priority),
        project: i64_text(t.project_id),
        due,
        description_lines: text_lines(t.description.as_str()),
        labels,
        assignees,
    }
}

/// What the detail view of a project shows beyond id and title.
pub struct ProjectDetail {
    /// The description, when it is not empty.
    pub description: Option<String>,
    /// The parent, when there is one (zero means none).
    pub parent: Option<i64>,
    /// Whether the project is archived.
    pub archived: bool,
    /// The colour, when it is set and not empty.
    pub color: Option<String>,
}

/// The optional parts of a project's detail view.
pub fn project_detail(p: &Project) -> (d: ProjectDetail)
    ensures
        match d.description {
            Some(s) => p.description@.len() > 0 && s@ == p.description@,
            None => p.description@.len() == 0,
        },
        d.parent == match p.parent_project_id {
            Some(id) => if id != 0 { Some(id) } else { None },
            None => None,
        },
        d.archived == p.is_archived,
        match d.color {
            Some(s) => p.hex_color matches Some(c) && c@.len() > 0 && s@ == c@,
            None => !(p.hex_color matches Some(c) && c@.len() > 0),
        },
{
    let description = if p.description.unicode_len() > 0 { Some(p.description.clone()) } else { None };
    let parent = match p.parent_project_id {
        Some(id) => if id != 0 { Some(id) } else { None },
        None => None,
    };
    let color = match &p.hex_color {
        Some(c) => if c.unicode_len() > 0 { Some(c.clone()) } else { None },
        None => None,
    };
    ProjectDetail { description, parent, archived: p.is_archived, color }
}

/// The number of nodes in a forest.
pub open spec fn forest_size(nodes: Seq<ProjectNode>) -> nat
    decreases nodes,
{
    if nodes.len() == 0 {
        0
    } else {
        forest_size(nodes.drop_last()) + 1 + forest_size(nodes.last().children@)
    }
}

/// The lines of a forest in depth-first order: each node's depth, id and title, its
/// children below it.
pub open spec fn preorder(nodes: Seq<ProjectNode>, depth: nat) -> Seq<(nat, i64, Seq<char>)>
    decreases nodes,
{
    if nodes.len() == 0 {
        seq![]
    } else {
        preorder(nodes.drop_last(), depth) + seq![(depth, nodes.last().id, nodes.last().title@)]
            + preorder(nodes.last().children@, depth + 1)
    }
}

proof fn lemma_forest_size_prefix(nodes: Seq<ProjectNode>, i: int)
    requires
        0 <= i <= nodes.len(),
    ensures
        forest_size(nodes.take(i)) <= forest_size(nodes),
    decreases nodes.len(),
{
    if i < nodes.len() {
        assert(nodes.drop_last().take(i) =~= nodes.take(i));
        lemma_forest_size_prefix(nodes.drop_last(), i);
    } else {
        assert(nodes.take(i) =~= nodes);
    }
}

/// The number of nodes in a forest (`count_nodes`).
pub fn count_nodes(nodes: &Vec<ProjectNode>) -> (n: usize)
    requires
        forest_size(nodes@) <= usize::MAX,
    ensures
        n == forest_size(nodes@),
    decreases nodes@,
{
    let mut total: usize = 0;
    let len = nodes.len();
    for i in 0..len
        invariant
            len == nodes@.len(),
            forest_size(nodes@) <= usize::MAX,
            total == forest_size(nodes@.take(i as int)),
    {
        proof {
            assert(nodes@.take(i + 1).drop_last() =~= nodes@.take(i as int));
            assert(nodes@.take(i + 1).last() == nodes@[i as int]);
            lemma_forest_size_prefix(nodes@, i + 1);
            assert(decreases_to!(nodes@ => nodes@[i as int]));
        }
        let below = count_nodes(&nodes[i].children);
        total = total + 1 + below;
    }
    assert(nodes@.take(len as int) =~= nodes@);
    total
}

/// One line of the project tree.
pub struct TreeLine {
    /// How many levels below the top the project stands.
    pub depth: usize,
    pub id: i64,
    pub title: String,
}

/// The depth, id and title of tree lines.
pub open spec fn line_views(lines: Seq<TreeLine>) -> Seq<(nat, i64, Seq<char>)> {
    lines.map_values(|l: TreeLine| (l.depth as nat, l.id, l.title@))
}

fn push_tree_lines(out: &mut Vec<TreeLine>, nodes: &Vec<ProjectNode>, depth: usize)
    requires
        depth + forest_size(nodes@) <= usize::MAX,
    ensures
        line_views(final(out)@) == line_views(old(out)@) + preorder(nodes@, depth as nat),
    decreases nodes@,
{
    let len = nodes.len();
    let ghost start = out@;
    for i in 0..len
        invariant
            len == nodes@.len(),
            depth + forest_size(nodes@) <= usize::MAX,
            line_views(out@) == line_views(start) + preorder(nodes@.take(i as int), depth as nat),
    {
        proof {
            assert(nodes@.take(i + 1).drop_last() =~= nodes@.take(i as int));
            assert(nodes@.take(i + 1).last() == nodes@[i as int]);
            lemma_forest_size_prefix(nodes@, i + 1);
            assert(decreases_to!(nodes@ => nodes@[i as int]));
        }
        let ghost before = out@;
        out.push(TreeLine { depth, id: nodes[i].id, title: nodes[i].title.clone() });
        assert(line_views(out@) =~= line_views(before).push((depth as nat, nodes@[i as int].id, nodes@[i as int].title@)));
        push_tree_lines(out, &nodes[i].children, depth + 1);
        assert(line_views(out@) =~= line_views(start) + preorder(nodes@.take(i + 1), depth as nat));
    }
    assert(nodes@.take(len as int) =~= nodes@);
}

/// The lines of the project tree, depth first: each project, then its sub-projects one level deeper.
pub fn tree_lines(roots: &Vec<ProjectNode>) -> (lines: Vec<TreeLine>)
    requires
        forest_size(roots@) <= usize::MAX,
    ensures
        line_views(lines@) == preorder(roots@, 0),
{
    let mut lines: Vec<TreeLine> = Vec::new();
    push_tree_lines(&mut lines, roots, 0);
    assert(line_views(lines@) =~= preorder(roots@, 0));
    lines
}

/// A comment as the comment list shows it (fields missing in the reply are 0 or empty).
pub struct Comment {
    pub id: i64,
    pub author: String,
    pub created: String,
    pub comment: String,
}

/// A comment from the fields found in a reply: a missing id is 0, missing texts are empty.
pub fn comment_from(id: Option<i64>, comment: Option<String>, author: Option<String>, created: Option<String>) -> (c: Comment)
    ensures
        c.id == match id {
            Some(n) => n,
            None => 0,
        },
        c.comment@ == text_or_empty(comment),
        c.author@ == text_or_empty(author),
        c.created@ == text_or_empty(created),
{
    Comment {
        id: match id {
            Some(n) => n,
            None => 0,
        },
        comment: or_empty(comment),
        author: or_empty(author),
        created: or_empty(created),
    }
}

/// An optional text, empty when absent.
pub open spec fn text_or_empty(s: Option<String>) -> Seq<char> {
    match s {
        Some(t) => t@,
        None => seq![],
    }
}

fn or_empty(s: Option<String>) -> (t: String)
    ensures
        t@ == text_or_empty(s),
{
    match s {
        Some(t) => t,
        None => String::new(),
    }
}

/// What the comment list shows.
pub enum CommentListing {
    /// The reply as it came, when it is not a list.
    Raw,
    /// A message, when there are no comments.
    Message(String),
    /// The lines of the comments.
    Lines(Vec<String>),
}

/// What the comment list shows for a reply: the reply itself when it is not a list (`None`),
/// `No comments` for an empty list, else the lines of the comments.
pub fn comment_listing(comments: Option<Vec<Comment>>) -> (r: CommentListing)
    ensures
        match comments {
            None => r is Raw,
            Some(cs) => if cs@.len() == 0 {
                r matches CommentListing::Message(m) && m@ == "No comments"@
            } else {
                r matches CommentListing::Lines(ls) && texts(ls@) == comment_blocks(cs@)
            },
        },
{
    match comments {
        None => CommentListing::Raw,
        Some(cs) => {
            if cs.len() == 0 {
                CommentListing::Message("No comments".to_owned())
            } else {
                CommentListing::Lines(comment_lines(&cs))
            }
        },
    }
}

/// The lines for one comment: `[id] author @ created`, then each line of the text indented by two spaces.
pub open spec fn comment_block(c: Comment) -> Seq<Seq<char>> {
    seq!["["@ + int_text(c.id as int) + "] "@ + c.author@ + " @ "@ + c.created@]
        + lines_of(c.comment@).map_values(|l: Seq<char>| "  "@ + l)
}

/// The lines for a list of comments, one block after another.
pub open spec fn comment_blocks(cs: Seq<Comment>) -> Seq<Seq<char>>
    decreases cs.len(),
{
    if cs.len() == 0 {
        seq![]
    } else {
        comment_blocks(cs.drop_last()) + comment_block(cs.last())
    }
}

/// The lines that list comments.
pub fn comment_lines(comments: &Vec<Comment>) -> (lines: Vec<String>)
    ensures
        texts(lines@) == comment_blocks(comments@),
{
    let mut lines: Vec<String> = Vec::new();
    let n = comments.len();
    for i in 0..n
        invariant
            n == comments@.len(),
            texts(lines@) == comment_blocks(comments@.take(i as int)),
    {
        let c = &comments[i];
        let ghost start = lines@;
        let mut head = "[".to_owned();
        push_i64_text(&mut head, c.id);
        head.append("] ");
        head.append(c.author.as_str());
        head.append(" @ ");
        head.append(c.created.as_str());
        lines.push(head);
        let body = text_lines(c.comment.as_str());
        let m = body.len();
        for j in 0..m
            invariant
                m == body@.len(),
                texts(body@) == lines_of(c.comment@),
                texts(lines@) == texts(start) + seq!["["@ + int_text(c.id as int) + "] "@ + c.author@ + " @ "@ + c.created@]
                    + lines_of(c.comment@).map_values(|l: Seq<char>| "  "@ + l).take(j as int),
        {
            let mut line = "  ".to_owned();
            line.append(body[j].as_str());
            let ghost before = lines@;
            lines.push(line);
            assert(texts(lines@) =~= texts(before).push(line@));
            assert(texts(body@)[j as int] == body@[j as int]@);
            assert(lines_of(c.comment@).map_values(|l: Seq<char>| "  "@ + l).take(j + 1)
                =~= lines_of(c.comment@).map_values(|l: Seq<char>| "  "@ + l).take(j as int).push(line@));
        }
        proof {
            assert(lines_of(c.comment@).map_values(|l: Seq<char>| "  "@ + l).take(m as int)
                =~= lines_of(c.comment@).map_values(|l: Seq<char>| "  "@ + l));
            assert(comments@.take(i + 1).drop_last() =~= comments@.take(i as int));
            assert(comments@.take(i + 1).last() == comments@[i as int]);
            assert(texts(lines@) =~= comment_blocks(comments@.take(i + 1)));
        }
    }
    assert(comments@.take(n as int) =~= comments@);
    lines
}

} // verus!
