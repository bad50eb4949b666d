//! The JSON shapes of tasks and project summaries: every date and time is
//! rendered as fixed-format text, statuses as their stored names.
use vstd::prelude::*;
use crate::date::{Date, DateTime, date_text, date_to_string, datetime_text, datetime_to_string};
use crate::db::{ProjectSummary, SummaryView};
use crate::model::{Task, TaskInfo, opt_view, status_text};
use crate::text::{chars_of, string_from_chars};

verus! {

/// A task as it is written out as JSON.
#[derive(Debug)]
pub struct TaskJson {
    pub id: u32,
    pub title: String,
    /// One of "open", "done", "closed".
    pub status: String,
    pub project: Option<String>,
    /// "YYYY-MM-DD", or absent.
    pub due: Option<String>,
    /// "YYYY-MM-DD HH:MM:SS".
    pub created: String,
    /// "YYYY-MM-DD HH:MM:SS", or absent.
    pub done_at: Option<String>,
    /// "YYYY-MM-DD HH:MM:SS".
    pub updated: String,
    /// Reminder dates as "YYYY-MM-DD".
    pub reminds: Vec<String>,
    pub important: bool,
    pub source: String,
}

pub struct TaskJsonView {
    pub id: u32,
    pub title: Seq<char>,
    pub status: Seq<char>,
    pub project: Option<Seq<char>>,
    pub due: Option<Seq<char>>,
    pub created: Seq<char>,
    pub done_at: Option<Seq<char>>,
    pub updated: Seq<char>,
    pub reminds: Seq<Seq<char>>,
    pub important: bool,
    pub source: Seq<char>,
}

impl View for TaskJson {
    type V = TaskJsonView;

    open spec fn view(&self) -> TaskJsonView {
        TaskJsonView {
            id: self.id,
            title: self.title@,
            status: self.status@,
            project: opt_view(self.project),
            due: opt_view(self.due),
            created: self.created@,
            done_at: opt_view(self.done_at),
            updated: self.updated@,
            reminds: self.reminds@.map_values(|s: String| s@),
            important: self.important,
            source: self.source@,
        }
    }
}

pub open spec fn opt_date_text(d: Option<Date>) -> Option<Seq<char>> {
    match d {
        Some(x) => Some(date_text(x)),
        None => None,
    }
}

pub open spec fn opt_datetime_text(d: Option<DateTime>) -> Option<Seq<char>> {
    match d {
        Some(x) => Some(datetime_text(x)),
        None => None,
    }
}

/// The JSON form of a task.
pub open spec fn task_json_of(t: TaskInfo) -> TaskJsonView {
    TaskJsonView {
        id: t.id,
        title: t.title,
        status: status_text(t.status),
        project: t.project,
        due: opt_date_text(t.due),
        created: datetime_text(t.created),
        done_at: opt_datetime_text(t.done_at),
        updated: datetime_text(t.updated),
        reminds: t.reminds.map_values(|d: Date| date_text(d)),
        important: t.important,
        source: t.source,
    }
}

/// A copy of a text.
pub fn copy_string(s: &String) -> (r: String)
    ensures
        r@ == s@,
{
    s.clone()
}

/// A copy of an optional text.
pub fn copy_opt_string(s: &Option<String>) -> (r: Option<String>)
    ensures
        opt_view(r) == opt_view(*s),
{
    match s {
        Some(x) => Some(x.clone()),
        None => None,
    }
}

impl TaskJson {
    /// The JSON form of `task`.
    pub fn from(task: &Task) -> (r: TaskJson)
        ensures
            r@ == task_json_of(task@),
    {
        let mut reminds: Vec<String> = Vec::new();
        let mut i: usize = 0;
        while i < task.reminds.len()
            invariant
                0 <= i <= task.reminds.len(),
                reminds@.map_values(|s: String| s@) == task.reminds@.subrange(0, i as int).map_values(
                    |d: Date| date_text(d),
                ),
            decreases task.reminds.len() - i,
        {
            let s = date_to_string(task.reminds[i]);
            let ghost before = reminds@.map_values(|s: String| s@);
            reminds.push(s);
            proof {
                assert(reminds@.map_values(|s: String| s@) =~= before.push(s@));
                assert(task.reminds@.subrange(0, i + 1).map_values(|d: Date| date_text(d))
                    =~= task.reminds@.subrange(0, i as int).map_values(|d: Date| date_text(d)).push(
                    date_text(task.reminds@[i as int]),
                ));
            }
            i = i + 1;
        }
        proof {
            assert(task.reminds@.subrange(0, task.reminds@.len() as int) == task.reminds@);
        }
        let status = string_from_chars(chars_of(task.status.as_str()).as_slice());
        TaskJson {
            id: task.id,
            title: copy_string(&task.title),
            status,
            project: copy_opt_string(&task.project),
            due: match task.due {
                Some(d) => Some(date_to_string(d)),
                None => None,
            },
            created: datetime_to_string(task.created),
            done_at: match task.done_at {
                Some(d) => Some(datetime_to_string(d)),
                None => None,
            },
            updated: datetime_to_string(task.updated),
            reminds,
            important: task.important,
            source: copy_string(&task.source),
        }
    }
}

/// A project summary as it is written out as JSON.
#[derive(Debug)]
pub struct ProjectJson {
    pub name: String,
    pub category: Option<String>,
    pub open: u32,
    pub done: u32,
    pub closed: u32,
    pub total: u32,
}

pub struct ProjectJsonView {
    pub name: Seq<char>,
    pub category: Option<Seq<char>>,
    pub open: u32,
    pub done: u32,
    pub closed: u32,
    pub total: int,
}

impl View for ProjectJson {
    type V = ProjectJsonView;

    open spec fn view(&self) -> ProjectJsonView {
        ProjectJsonView {
            name: self.name@,
            category: opt_view(self.category),
            open: self.open,
            done: self.done,
            closed: self.closed,
            total: self.total as int,
        }
    }
}

/// The JSON form of a project summary: its counts and their sum.
pub open spec fn project_json_of(p: SummaryView) -> ProjectJsonView {
    ProjectJsonView {
        name: p.name,
        category: p.category,
        open: p.open_count,
        done: p.done_count,
        closed: p.closed_count,
        total: p.open_count + p.done_count + p.closed_count,
    }
}

impl ProjectJson {
    /// The JSON form of `p`; the total is the sum of its three counts, which
    /// must fit in a `u32`.
    pub fn from(p: &ProjectSummary) -> (r: ProjectJson)
        requires
            p.open_count + p.done_count + p.closed_count <= u32::MAX,
        ensures
            r@ == project_json_of(p@),
    {
        ProjectJson {
            name: copy_string(&p.name),
            category: copy_opt_string(&p.category),
            open: p.open_count,
            done: p.done_count,
            closed: p.closed_count,
            total: p.open_count + p.done_count + p.closed_count,
        }
    }
}

/// The JSON forms of a list of tasks, in order.
pub fn tasks_json(tasks: &[Task]) -> (r: Vec<TaskJson>)
    ensures
        r@.len() == tasks@.len(),
        forall|i: int| 0 <= i < tasks@.len() ==> #[trigger] r@[i]@ == task_json_of(tasks@[i]@),
{
    let mut out: Vec<TaskJson> = Vec::new();
    let mut i: usize = 0;
    while i < tasks.len()
        invariant
            0 <= i <= tasks.len(),
            out@.len() == i,
            forall|j: int| 0 <= j < i ==> #[trigger] out@[j]@ == task_json_of(tasks@[j]@),
        decreases tasks.len() - i,
    {
        out.push(TaskJson::from(&tasks[i]));
        i = i + 1;
    }
    out
}

/// The JSON forms of a list of project summaries, in order; each total must
/// fit in a `u32`.
pub fn projects_json(ps: &[ProjectSummary]) -> (r: Vec<ProjectJson>)
    requires
        forall|i: int|
            0 <= i < ps@.len() ==> #[trigger] ps@[i].open_count + ps@[i].done_count
                + ps@[i].closed_count <= u32::MAX,
    ensures
        r@.len() == ps@.len(),
        forall|i: int| 0 <= i < ps@.len() ==> #[trigger] r@[i]@ == project_json_of(ps@[i]@),
{
    let mut out: Vec<ProjectJson> = Vec::new();
    let mut i: usize = 0;
    while i < ps.len()
        invariant
            0 <= i <= ps.len(),
            out@.len() == i,
            forall|j: int| 0 <= j < i ==> #[trigger] out@[j]@ == project_json_of(ps@[j]@),
            forall|k: int|
                0 <= k < ps@.len() ==> #[trigger] ps@[k].open_count + ps@[k].done_count
                    + ps@[k].closed_count <= u32::MAX,
        decreases ps.len() - i,
    {
        out.push(ProjectJson::from(&ps[i]));
        i = i + 1;
    }
    out
}

} // verus!
