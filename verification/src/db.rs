//! The task store: tasks, projects and reminders as the three tables of the
//! task database hold them, with the queries and updates the commands make.
//!
//! `TaskDb` keeps the rows of the `tasks`, `projects` and `task_reminds`
//! tables and the next row id of each. Every operation states, over
//! `DbState` (the rows as mathematical values), exactly which rows it
//! selects, in which order, and how it changes the tables.
use vstd::prelude::*;
use crate::date::{Date, DateTime, parse_ymd, parse_ymd_hms, lemma_lt_iff_day_number};
use crate::model::{Task, TaskInfo, Status, SortKey, SortOrder, opt_view, status_of_text};
use crate::order::{sort_tasks, sorted_tasks, infos, orderable, task_before, text_ord, text_compare, lemma_text_ord_antisym, lemma_text_ord_trans, lemma_text_ord_zero};
use crate::keyword::{contains_text, contains_keyword};
use crate::text::{chars_of, trimmed, trim_chars, string_from_chars, str_eq};

verus! {

broadcast use vstd::seq_lib::group_to_multiset_ensures;

/// A row of the `tasks` table.
#[derive(Debug)]
pub struct TaskRecord {
    pub id: u32,
    pub title: String,
    pub status: Status,
    pub source: String,
    pub project_id: Option<u32>,
    pub due: Option<Date>,
    pub done_at: Option<DateTime>,
    pub created: DateTime,
    pub updated: DateTime,
    pub important: bool,
}

/// A row of the `projects` table.
#[derive(Debug)]
pub struct ProjectRecord {
    pub id: u32,
    pub name: String,
    pub category: Option<String>,
}

/// A row of the `task_reminds` table.
#[derive(Debug, Clone, Copy, PartialEq, Eq, Structural)]
pub struct RemindRecord {
    pub id: u32,
    pub task_id: u32,
    pub remind_at: Date,
}

/// Per-project task counts, as `list_projects` reports them.
#[derive(Debug)]
pub struct ProjectSummary {
    pub name: String,
    pub category: Option<String>,
    pub open_count: u32,
    pub done_count: u32,
    pub closed_count: u32,
}

/// The only failure of the store: a table has used up its row ids.
#[derive(Debug, Clone, Copy, PartialEq, Eq, Structural)]
pub enum DbError {
    IdsExhausted,
    NoSortKey,
}

/// The tables of the task database.
#[derive(Debug)]
pub struct TaskDb {
    pub tasks: Vec<TaskRecord>,
    pub projects: Vec<ProjectRecord>,
    pub reminds: Vec<RemindRecord>,
    pub next_task_id: u32,
    pub next_project_id: u32,
    pub next_remind_id: u32,
}

pub struct TaskRow {
    pub id: u32,
    pub title: Seq<char>,
    pub status: Status,
    pub source: Seq<char>,
    pub project_id: Option<u32>,
    pub due: Option<Date>,
    pub done_at: Option<DateTime>,
    pub created: DateTime,
    pub updated: DateTime,
    pub important: bool,
}

pub struct ProjectRow {
    pub id: u32,
    pub name: Seq<char>,
    pub category: Option<Seq<char>>,
}

pub struct SummaryView {
    pub name: Seq<char>,
    pub category: Option<Seq<char>>,
    pub open_count: u32,
    pub done_count: u32,
    pub closed_count: u32,
}

/// The tables as mathematical values.
pub struct DbState {
    pub tasks: Seq<TaskRow>,
    pub projects: Seq<ProjectRow>,
    pub reminds: Seq<RemindRecord>,
    pub next_task_id: u32,
    pub next_project_id: u32,
    pub next_remind_id: u32,
}

impl View for TaskRecord {
    type V = TaskRow;

    open spec fn view(&self) -> TaskRow {
        TaskRow {
            id: self.id,
            title: self.title@,
            status: self.status,
            source: self.source@,
            project_id: self.project_id,
            due: self.due,
            done_at: self.done_at,
            created: self.created,
            updated: self.updated,
            important: self.important,
        }
    }
}

impl View for ProjectRecord {
    type V = ProjectRow;

    open spec fn view(&self) -> ProjectRow {
        ProjectRow { id: self.id, name: self.name@, category: opt_view(self.category) }
    }
}

impl View for ProjectSummary {
    type V = SummaryView;

    open spec fn view(&self) -> SummaryView {
        SummaryView {
            name: self.name@,
            category: opt_view(self.category),
            open_count: self.open_count,
            done_count: self.done_count,
            closed_count: self.closed_count,
        }
    }
}

impl View for TaskDb {
    type V = DbState;

    open spec fn view(&self) -> DbState {
        DbState {
            tasks: self.tasks@.map_values(|t: TaskRecord| t@),
            projects: self.projects@.map_values(|p: ProjectRecord| p@),
            reminds: self.reminds@,
            next_task_id: self.next_task_id,
            next_project_id: self.next_project_id,
            next_remind_id: self.next_remind_id,
        }
    }
}

pub open spec fn opt_str_view(o: Option<&str>) -> Option<Seq<char>> {
    match o {
        Some(s) => Some(s@),
        None => None,
    }
}

pub open spec fn opt_date_wf(d: Option<Date>) -> bool {
    d is Some ==> d->0.wf()
}

pub open spec fn opt_datetime_wf(d: Option<DateTime>) -> bool {
    d is Some ==> d->0.wf()
}

// ----- the store invariant -----

pub open spec fn task_row_wf(t: TaskRow) -> bool {
    &&& opt_date_wf(t.due)
    &&& opt_datetime_wf(t.done_at)
    &&& t.created.wf()
    &&& t.updated.wf()
    &&& t.title.len() < usize::MAX
}

pub open spec fn has_project_id(ps: Seq<ProjectRow>, pid: u32) -> bool {
    exists|j: int| 0 <= j < ps.len() && ps[j].id == pid
}

impl DbState {
    pub open spec fn wf(self) -> bool {
        &&& forall|i: int, j: int|
            0 <= i < j < self.tasks.len() ==> self.tasks[i].id < self.tasks[j].id
        &&& forall|i: int| 0 <= i < self.tasks.len() ==> self.tasks[i].id < self.next_task_id
        &&& self.tasks.len() <= self.next_task_id
        &&& forall|i: int| 0 <= i < self.tasks.len() ==> task_row_wf(#[trigger] self.tasks[i])
        &&& forall|i: int|
            0 <= i < self.tasks.len() && (#[trigger] self.tasks[i]).project_id is Some
                ==> has_project_id(self.projects, self.tasks[i].project_id->0)
        &&& forall|i: int, j: int|
            0 <= i < j < self.projects.len() ==> self.projects[i].id < self.projects[j].id
        &&& forall|i: int|
            0 <= i < self.projects.len() ==> self.projects[i].id < self.next_project_id
        &&& forall|i: int, j: int|
            0 <= i < j < self.projects.len() ==> self.projects[i].name != self.projects[j].name
        &&& forall|i: int, j: int|
            0 <= i < j < self.reminds.len() ==> self.reminds[i].id < self.reminds[j].id
        &&& forall|i: int| 0 <= i < self.reminds.len() ==> self.reminds[i].id < self.next_remind_id
        &&& forall|i: int| 0 <= i < self.reminds.len() ==> (#[trigger] self.reminds[i]).remind_at.wf()
    }
}

impl TaskDb {
    pub open spec fn wf(&self) -> bool {
        self@.wf()
    }
}

/// The SQL that reads tasks with the name of their project, for a store kept
/// in SQLite.
pub fn tasks_select_sql() -> (r: &'static str)
    ensures
        r@ == "SELECT t.id, t.title, t.status, t.source, p.name AS project, t.due, t.done_at, t.created, t.updated, t.important\n     FROM tasks t\n     LEFT JOIN projects p ON t.project_id = p.id"@,
{
    "SELECT t.id, t.title, t.status, t.source, p.name AS project, t.due, t.done_at, t.created, t.updated, t.important\n     FROM tasks t\n     LEFT JOIN projects p ON t.project_id = p.id"
}

// ----- lookups -----

pub open spec fn has_task(ts: Seq<TaskRow>, id: u32) -> bool {
    exists|i: int| 0 <= i < ts.len() && ts[i].id == id
}

pub open spec fn task_pos(ts: Seq<TaskRow>, id: u32) -> int {
    choose|i: int| 0 <= i < ts.len() && ts[i].id == id
}

pub open spec fn project_of(ps: Seq<ProjectRow>, pid: u32) -> ProjectRow {
    ps[choose|j: int| 0 <= j < ps.len() && ps[j].id == pid]
}

pub open spec fn has_project_named(ps: Seq<ProjectRow>, name: Seq<char>) -> bool {
    exists|j: int| 0 <= j < ps.len() && ps[j].name == name
}

pub open spec fn project_pos_named(ps: Seq<ProjectRow>, name: Seq<char>) -> int {
    choose|j: int| 0 <= j < ps.len() && ps[j].name == name
}

/// The name of a task's project, when it has one.
pub open spec fn project_name_of(s: DbState, t: TaskRow) -> Option<Seq<char>> {
    match t.project_id {
        Some(pid) => if has_project_id(s.projects, pid) {
            Some(project_of(s.projects, pid).name)
        } else {
            None
        },
        None => None,
    }
}

/// The category of a task's project, when it has a project with a category.
pub open spec fn project_category_of(s: DbState, t: TaskRow) -> Option<Seq<char>> {
    match t.project_id {
        Some(pid) => if has_project_id(s.projects, pid) {
            project_of(s.projects, pid).category
        } else {
            None
        },
        None => None,
    }
}

/// A task row joined with its project's name; no reminders attached.
pub open spec fn row_info(s: DbState, t: TaskRow) -> TaskInfo {
    TaskInfo {
        id: t.id,
        title: t.title,
        status: t.status,
        source: t.source,
        created: t.created,
        project: project_name_of(s, t),
        due: t.due,
        done_at: t.done_at,
        updated: t.updated,
        reminds: Seq::empty(),
        important: t.important,
    }
}

proof fn lemma_task_pos(ts: Seq<TaskRow>, id: u32, i: int)
    requires
        forall|a: int, b: int| 0 <= a < b < ts.len() ==> ts[a].id < ts[b].id,
        0 <= i < ts.len(),
        ts[i].id == id,
    ensures
        has_task(ts, id),
        task_pos(ts, id) == i,
{
    let k = task_pos(ts, id);
    assert(0 <= k < ts.len() && ts[k].id == id);
    if k < i {
        assert(ts[k].id < ts[i].id);
    } else if k > i {
        assert(ts[i].id < ts[k].id);
    }
}

proof fn lemma_project_of(ps: Seq<ProjectRow>, pid: u32, j: int)
    requires
        forall|a: int, b: int| 0 <= a < b < ps.len() ==> ps[a].id < ps[b].id,
        0 <= j < ps.len(),
        ps[j].id == pid,
    ensures
        has_project_id(ps, pid),
        project_of(ps, pid) == ps[j],
{
    let k = choose|k: int| 0 <= k < ps.len() && ps[k].id == pid;
    if k < j {
        assert(ps[k].id < ps[j].id);
    } else if k > j {
        assert(ps[j].id < ps[k].id);
    }
}

proof fn lemma_project_named(ps: Seq<ProjectRow>, name: Seq<char>, j: int)
    requires
        forall|a: int, b: int| 0 <= a < b < ps.len() ==> ps[a].name != ps[b].name,
        0 <= j < ps.len(),
        ps[j].name == name,
    ensures
        has_project_named(ps, name),
        project_pos_named(ps, name) == j,
{
    let k = project_pos_named(ps, name);
    assert(0 <= k < ps.len() && ps[k].name == name);
    if k < j {
        assert(ps[k].name != ps[j].name);
    } else if k > j {
        assert(ps[j].name != ps[k].name);
    }
}

proof fn lemma_filter_take_step<A>(s: Seq<A>, pred: spec_fn(A) -> bool, k: int)
    requires
        0 <= k < s.len(),
    ensures
        s.take(k + 1).filter(pred) == (if pred(s[k]) {
            s.take(k).filter(pred).push(s[k])
        } else {
            s.take(k).filter(pred)
        }),
{
    reveal_with_fuel(Seq::filter, 1);
    assert(s.take(k + 1).drop_last() =~= s.take(k));
    assert(s.take(k + 1).last() == s[k]);
}

proof fn lemma_filter_all<A>(s: Seq<A>, pred: spec_fn(A) -> bool, k: int)
    requires
        k == s.len(),
    ensures
        s.take(k).filter(pred) == s.filter(pred),
{
    assert(s.take(k) =~= s);
}

impl TaskDb {
    /// An empty database.
    pub fn new() -> (r: TaskDb)
        ensures
            r.wf(),
            r@.tasks.len() == 0,
            r@.projects.len() == 0,
            r@.reminds.len() == 0,
            r@.next_task_id == 1,
            r@.next_project_id == 1,
            r@.next_remind_id == 1,
    {
        TaskDb {
            tasks: Vec::new(),
            projects: Vec::new(),
            reminds: Vec::new(),
            next_task_id: 1,
            next_project_id: 1,
            next_remind_id: 1,
        }
    }

    /// Index of the task with id `id`.
    pub fn task_index(&self, id: u32) -> (r: Option<usize>)
        requires
            self.wf(),
        ensures
            match r {
                Some(i) => i < self@.tasks.len() && self@.tasks[i as int].id == id && has_task(
                    self@.tasks,
                    id,
                ) && task_pos(self@.tasks, id) == i,
                None => !has_task(self@.tasks, id),
            },
    {
        let mut i: usize = 0;
        while i < self.tasks.len()
            invariant
                self.wf(),
                i <= self.tasks@.len(),
                forall|k: int| 0 <= k < i ==> self@.tasks[k].id != id,
            decreases self.tasks@.len() - i,
        {
            if self.tasks[i].id == id {
                proof {
                    assert(self@.tasks[i as int] == self.tasks@[i as int]@);
                    lemma_task_pos(self@.tasks, id, i as int);
                }
                return Some(i);
            }
            assert(self@.tasks[i as int] == self.tasks@[i as int]@);
            i = i + 1;
        }
        None
    }

    /// Index of the project with id `pid`.
    fn project_index(&self, pid: u32) -> (r: Option<usize>)
        requires
            self.wf(),
        ensures
            match r {
                Some(j) => j < self@.projects.len() && self@.projects[j as int].id == pid
                    && has_project_id(self@.projects, pid) && project_of(self@.projects, pid)
                    == self@.projects[j as int],
                None => !has_project_id(self@.projects, pid),
            },
    {
        let mut j: usize = 0;
        while j < self.projects.len()
            invariant
                self.wf(),
                j <= self.projects@.len(),
                forall|k: int| 0 <= k < j ==> self@.projects[k].id != pid,
            decreases self.projects@.len() - j,
        {
            assert(self@.projects[j as int] == self.projects@[j as int]@);
            if self.projects[j].id == pid {
                proof {
                    lemma_project_of(self@.projects, pid, j as int);
                }
                return Some(j);
            }
            j = j + 1;
        }
        None
    }

    /// Index of the project named exactly `name`.
    fn project_index_named(&self, name: &[char]) -> (r: Option<usize>)
        requires
            self.wf(),
        ensures
            match r {
                Some(j) => j < self@.projects.len() && self@.projects[j as int].name == name@
                    && has_project_named(self@.projects, name@) && project_pos_named(
                    self@.projects,
                    name@,
                ) == j,
                None => !has_project_named(self@.projects, name@),
            },
    {
        let mut j: usize = 0;
        while j < self.projects.len()
            invariant
                self.wf(),
                j <= self.projects@.len(),
                forall|k: int| 0 <= k < j ==> self@.projects[k].name != name@,
            decreases self.projects@.len() - j,
        {
            assert(self@.projects[j as int] == self.projects@[j as int]@);
            let pn = chars_of(self.projects[j].name.as_str());
            if crate::text::chars_eq(pn.as_slice(), name) {
                proof {
                    lemma_project_named(self@.projects, name@, j as int);
                }
                return Some(j);
            }
            j = j + 1;
        }
        None
    }

    /// The task with its project's name, from the row at index `i`.
    fn task_at(&self, i: usize) -> (r: Task)
        requires
            self.wf(),
            i < self@.tasks.len(),
        ensures
            r@ == row_info(self@, self@.tasks[i as int]),
    {
        let rec = &self.tasks[i];
        assert(self@.tasks[i as int] == rec@);
        let project = match rec.project_id {
            Some(pid) => match self.project_index(pid) {
                Some(j) => Some(self.projects[j].name.clone()),
                None => None,
            },
            None => None,
        };
        proof {
            match rec.project_id {
                Some(pid) => {
                    if has_project_id(self@.projects, pid) {
                        let j = choose|j: int|
                            0 <= j < self@.projects.len() && self@.projects[j].id == pid;
                        assert(self@.projects[j] == self.projects@[j]@);
                    }
                },
                None => {},
            }
        }
        let t = Task {
            id: rec.id,
            title: rec.title.clone(),
            status: rec.status,
            source: rec.source.clone(),
            created: rec.created,
            project,
            due: rec.due,
            done_at: rec.done_at,
            updated: rec.updated,
            reminds: Vec::new(),
            important: rec.important,
        };
        proof {
            match rec.project_id {
                Some(pid) => {
                    if has_project_id(self@.projects, pid) {
                        let j = choose|j: int|
                            0 <= j < self@.projects.len() && self@.projects[j].id == pid;
                        assert(project_of(self@.projects, pid) == self@.projects[j]);
                    }
                },
                None => {},
            }
            assert(t@.reminds =~= Seq::<Date>::empty());
        }
        t
    }
}

// ----- resolving a project name to a project row -----

/// Whether resolving `project` adds a new project row.
pub open spec fn needs_new_project(s: DbState, project: Option<Seq<char>>) -> bool {
    match project {
        Some(p) => trimmed(p).len() > 0 && !has_project_named(s.projects, trimmed(p)),
        None => false,
    }
}

/// The project a task gets for the given name: none for a missing or blank
/// name, else the project with the trimmed name, which is created (without a
/// category) when there is none.
pub open spec fn spec_resolve_project(s: DbState, project: Option<Seq<char>>) -> (DbState, Option<u32>) {
    match project {
        None => (s, None),
        Some(p) => {
            let name = trimmed(p);
            if name.len() == 0 {
                (s, None)
            } else if has_project_named(s.projects, name) {
                (s, Some(s.projects[project_pos_named(s.projects, name)].id))
            } else {
                (
                    DbState {
                        projects: s.projects.push(
                            ProjectRow { id: s.next_project_id, name, category: None },
                        ),
                        next_project_id: (s.next_project_id + 1) as u32,
                        ..s
                    },
                    Some(s.next_project_id),
                )
            }
        },
    }
}

impl TaskDb {
    fn resolve_project_id(&mut self, project: Option<&str>) -> (r: Option<u32>)
        requires
            old(self).wf(),
            needs_new_project(old(self)@, opt_str_view(project)) ==> old(self)@.next_project_id
                < u32::MAX,
        ensures
            final(self).wf(),
            (final(self)@, r) == spec_resolve_project(old(self)@, opt_str_view(project)),
            final(self).tasks@ == old(self).tasks@,
            final(self).reminds@ == old(self).reminds@,
            final(self).next_task_id == old(self).next_task_id,
            final(self).next_remind_id == old(self).next_remind_id,
    {
        let p = match project {
            None => { return None; },
            Some(p) => p,
        };
        let pc = chars_of(p);
        let name = trim_chars(pc.as_slice());
        if name.len() == 0 {
            return None;
        }
        match self.project_index_named(name.as_slice()) {
            Some(j) => {
                assert(self@.projects[j as int] == self.projects@[j as int]@);
                Some(self.projects[j].id)
            },
            None => {
                let id = self.next_project_id;
                let ghost old_state = self@;
                self.projects.push(
                    ProjectRecord { id, name: string_from_chars(name.as_slice()), category: None },
                );
                self.next_project_id = id + 1;
                proof {
                    assert(self@.projects =~= old_state.projects.push(
                        ProjectRow { id, name: name@, category: None },
                    ));
                    assert(self@.tasks =~= old_state.tasks);
                    assert forall|i: int|
                        0 <= i < self@.tasks.len() && (#[trigger] self@.tasks[i]).project_id is Some
                        implies has_project_id(self@.projects, self@.tasks[i].project_id->0) by {
                        let pid = self@.tasks[i].project_id->0;
                        assert(has_project_id(old_state.projects, pid));
                        let j = choose|j: int|
                            0 <= j < old_state.projects.len() && old_state.projects[j].id == pid;
                        assert(self@.projects[j].id == pid);
                    }
                    assert forall|a: int, b: int|
                        0 <= a < b < self@.projects.len() implies self@.projects[a].name
                        != self@.projects[b].name by {
                        if b == old_state.projects.len() {
                            assert(old_state.projects[a].name != name@);
                        }
                    }
                }
                Some(id)
            },
        }
    }
}

// ----- adding, finding and changing tasks -----

/// Whether `add_task` can allocate the ids it needs.
pub open spec fn add_ok(s: DbState, project: Option<Seq<char>>) -> bool {
    &&& s.next_task_id < u32::MAX
    &&& needs_new_project(s, project) ==> s.next_project_id < u32::MAX
}

/// The tables after adding an open task (source "private") created and
/// updated at `now`.
pub open spec fn spec_add_task(
    s: DbState,
    title: Seq<char>,
    project: Option<Seq<char>>,
    due: Option<Date>,
    now: DateTime,
    important: bool,
) -> DbState {
    let (s1, pid) = spec_resolve_project(s, project);
    DbState {
        tasks: s1.tasks.push(
            TaskRow {
                id: s.next_task_id,
                title,
                status: Status::Open,
                source: "private"@,
                project_id: pid,
                due,
                done_at: None,
                created: now,
                updated: now,
                important,
            },
        ),
        next_task_id: (s.next_task_id + 1) as u32,
        ..s1
    }
}

/// The task with id `id`, joined with its project's name.
pub open spec fn spec_find_task(s: DbState, id: u32) -> Option<TaskInfo> {
    if has_task(s.tasks, id) {
        Some(row_info(s, s.tasks[task_pos(s.tasks, id)]))
    } else {
        None
    }
}

/// The tables after replacing the row of task `id` by `f(row)`; unchanged when
/// there is no such task.
pub open spec fn with_task_row(s: DbState, id: u32, row: TaskRow) -> DbState {
    if has_task(s.tasks, id) {
        DbState { tasks: s.tasks.update(task_pos(s.tasks, id), row), ..s }
    } else {
        s
    }
}

pub open spec fn spec_close_task(s: DbState, id: u32, now: DateTime) -> DbState {
    let t = s.tasks[task_pos(s.tasks, id)];
    with_task_row(s, id, TaskRow { status: Status::Closed, updated: now, ..t })
}

/// The tables after removing task `id`'s due date, updated at `now`.
pub open spec fn spec_clear_due(s: DbState, id: u32, now: DateTime) -> DbState {
    let t = s.tasks[task_pos(s.tasks, id)];
    with_task_row(s, id, TaskRow { due: None, updated: now, ..t })
}

pub open spec fn spec_complete_task(s: DbState, id: u32, now: DateTime) -> DbState {
    let t = s.tasks[task_pos(s.tasks, id)];
    with_task_row(s, id, TaskRow { status: Status::Done, done_at: Some(now), updated: now, ..t })
}

/// The tables after `update_task`: the project name is resolved first (even
/// when no task has the id), then the task's row takes each given value and
/// `updated` becomes `now`. A blank project name removes the task's project.
pub open spec fn spec_update_task(
    s: DbState,
    id: u32,
    title: Option<Seq<char>>,
    project: Option<Seq<char>>,
    due: Option<Date>,
    now: DateTime,
    important: Option<bool>,
) -> DbState {
    let (s1, pid) = spec_resolve_project(s, project);
    let t = s1.tasks[task_pos(s1.tasks, id)];
    with_task_row(
        s1,
        id,
        TaskRow {
            title: match title {
                Some(x) => x,
                None => t.title,
            },
            project_id: if project is Some {
                pid
            } else {
                t.project_id
            },
            due: match due {
                Some(d) => Some(d),
                None => t.due,
            },
            important: match important {
                Some(b) => b,
                None => t.important,
            },
            updated: now,
            ..t
        },
    )
}

/// Replaces the row at index `i`, keeping every other row.
proof fn lemma_set_row_keeps_wf(s: DbState, i: int, row: TaskRow)
    requires
        s.wf(),
        0 <= i < s.tasks.len(),
        row.id == s.tasks[i].id,
        task_row_wf(row),
        row.project_id is Some ==> has_project_id(s.projects, row.project_id->0),
    ensures
        (DbState { tasks: s.tasks.update(i, row), ..s }).wf(),
{
    let s2 = DbState { tasks: s.tasks.update(i, row), ..s };
    assert forall|a: int|
        0 <= a < s2.tasks.len() && (#[trigger] s2.tasks[a]).project_id is Some implies has_project_id(
        s2.projects,
        s2.tasks[a].project_id->0,
    ) by {
        if a != i {
            assert(s2.tasks[a] == s.tasks[a]);
        }
    }
    assert forall|a: int| 0 <= a < s2.tasks.len() implies task_row_wf(#[trigger] s2.tasks[a]) by {
        if a != i {
            assert(s2.tasks[a] == s.tasks[a]);
        }
    }
}

impl TaskDb {
    fn set_task(&mut self, i: usize, rec: TaskRecord)
        requires
            old(self).wf(),
            i < old(self)@.tasks.len(),
            rec.id == old(self)@.tasks[i as int].id,
            task_row_wf(rec@),
            rec.project_id is Some ==> has_project_id(old(self)@.projects, rec.project_id->0),
        ensures
            final(self)@ == (DbState { tasks: old(self)@.tasks.update(i as int, rec@), ..old(self)@ }),
            final(self).wf(),
    {
        let ghost s = self@;
        let _ = self.tasks.remove(i);
        self.tasks.insert(i, rec);
        proof {
            assert(self@.tasks =~= s.tasks.update(i as int, rec@));
            lemma_set_row_keeps_wf(s, i as int, rec@);
        }
    }
}

/// Adds an open task and returns its id. Fails, changing nothing, when the
/// task ids (or, for a new project, the project ids) are used up.
pub fn add_task(
    db: &mut TaskDb,
    title: &str,
    project: Option<&str>,
    due: Option<Date>,
    now: DateTime,
    important: bool,
) -> (r: Result<u32, DbError>)
    requires
        old(db).wf(),
        opt_date_wf(due),
        now.wf(),
        title@.len() < usize::MAX,
    ensures
        final(db).wf(),
        add_ok(old(db)@, opt_str_view(project)) ==> r == Ok::<u32, DbError>(old(db)@.next_task_id)
            && final(db)@ == spec_add_task(
            old(db)@,
            title@,
            opt_str_view(project),
            due,
            now,
            important,
        ),
        !add_ok(old(db)@, opt_str_view(project)) ==> r == Err::<u32, DbError>(DbError::IdsExhausted)
            && final(db)@ == old(db)@,
{
    if db.next_task_id == u32::MAX {
        return Err(DbError::IdsExhausted);
    }
    let needs_project = match project {
        None => false,
        Some(p) => {
            let pc = chars_of(p);
            let name = trim_chars(pc.as_slice());
            name.len() > 0 && db.project_index_named(name.as_slice()).is_none()
        },
    };
    if needs_project && db.next_project_id == u32::MAX {
        return Err(DbError::IdsExhausted);
    }
    let ghost s = db@;
    let pid = db.resolve_project_id(project);
    let id = db.next_task_id;
    let ghost s1 = db@;
    let rec = TaskRecord {
        id,
        title: string_from_chars(chars_of(title).as_slice()),
        status: Status::Open,
        source: string_from_chars(chars_of("private").as_slice()),
        project_id: pid,
        due,
        done_at: None,
        created: now,
        updated: now,
        important,
    };
    db.tasks.push(rec);
    db.next_task_id = id + 1;
    proof {
        assert(db@.tasks =~= s1.tasks.push(rec@));
        assert(db@ == spec_add_task(s, title@, opt_str_view(project), due, now, important));
        let ghost st = db@;
        assert forall|a: int|
            0 <= a < st.tasks.len() && (#[trigger] st.tasks[a]).project_id is Some implies has_project_id(
            st.projects,
            st.tasks[a].project_id->0,
        ) by {
            if a == st.tasks.len() - 1 {
                let pid0 = pid->0;
                match project {
                    Some(p) => {
                        let nm = trimmed(p@);
                        if has_project_named(s.projects, nm) {
                            let j = project_pos_named(s.projects, nm);
                            assert(st.projects[j].id == pid0);
                        } else {
                            assert(st.projects[st.projects.len() - 1].id == pid0);
                        }
                    },
                    None => {},
                }
            } else {
                assert(st.tasks[a] == s1.tasks[a]);
            }
        }
        assert forall|a: int| 0 <= a < st.tasks.len() implies task_row_wf(#[trigger] st.tasks[a]) by {
            if a < st.tasks.len() - 1 {
                assert(st.tasks[a] == s1.tasks[a]);
            }
        }
    }
    Ok(id)
}

/// The task with id `id`, with its project's name and no reminders.
pub fn find_task(db: &TaskDb, id: u32) -> (r: Option<Task>)
    requires
        db.wf(),
    ensures
        match r {
            Some(t) => spec_find_task(db@, id) == Some(t@),
            None => spec_find_task(db@, id) is None,
        },
{
    match db.task_index(id) {
        Some(i) => Some(db.task_at(i)),
        None => None,
    }
}

/// Marks task `id` closed, updated at `now`; no change when there is no such
/// task.
pub fn close_task(db: &mut TaskDb, id: u32, now: DateTime)
    requires
        old(db).wf(),
        now.wf(),
    ensures
        final(db).wf(),
        final(db)@ == spec_close_task(old(db)@, id, now),
{
    match db.task_index(id) {
        Some(i) => {
            let ghost s = db@;
            let old_rec = &db.tasks[i];
            assert(s.tasks[i as int] == old_rec@);
            let rec = TaskRecord {
                id: old_rec.id,
                title: old_rec.title.clone(),
                status: Status::Closed,
                source: old_rec.source.clone(),
                project_id: old_rec.project_id,
                due: old_rec.due,
                done_at: old_rec.done_at,
                created: old_rec.created,
                updated: now,
                important: old_rec.important,
            };
            db.set_task(i, rec);
        },
        None => {},
    }
}

/// Removes the due date of task `id`, updated at `now`; no change when there
/// is no such task.
pub fn clear_due(db: &mut TaskDb, id: u32, now: DateTime)
    requires
        old(db).wf(),
        now.wf(),
    ensures
        final(db).wf(),
        final(db)@ == spec_clear_due(old(db)@, id, now),
{
    match db.task_index(id) {
        Some(i) => {
            let ghost s = db@;
            let old_rec = &db.tasks[i];
            assert(s.tasks[i as int] == old_rec@);
            let rec = TaskRecord {
                id: old_rec.id,
                title: old_rec.title.clone(),
                status: old_rec.status,
                source: old_rec.source.clone(),
                project_id: old_rec.project_id,
                due: None,
                done_at: old_rec.done_at,
                created: old_rec.created,
                updated: now,
                important: old_rec.important,
            };
            db.set_task(i, rec);
        },
        None => {},
    }
}

/// Marks task `id` done: status done, `done_at` and `updated` both `now`; no
/// change when there is no such task.
pub fn complete_task(db: &mut TaskDb, id: u32, now: DateTime)
    requires
        old(db).wf(),
        now.wf(),
    ensures
        final(db).wf(),
        final(db)@ == spec_complete_task(old(db)@, id, now),
{
    match db.task_index(id) {
        Some(i) => {
            let ghost s = db@;
            let old_rec = &db.tasks[i];
            assert(s.tasks[i as int] == old_rec@);
            let rec = TaskRecord {
                id: old_rec.id,
                title: old_rec.title.clone(),
                status: Status::Done,
                source: old_rec.source.clone(),
                project_id: old_rec.project_id,
                due: old_rec.due,
                done_at: Some(now),
                created: old_rec.created,
                updated: now,
                important: old_rec.important,
            };
            db.set_task(i, rec);
        },
        None => {},
    }
}

/// Whether `update_task` can allocate a project id it needs.
pub open spec fn update_ok(s: DbState, project: Option<Seq<char>>) -> bool {
    needs_new_project(s, project) ==> s.next_project_id < u32::MAX
}

/// Sets the given fields of task `id` and its `updated` time. The project name
/// is resolved as `add_task` does; a blank name removes the project. Fails,
/// changing nothing, when a new project is needed and project ids are used up.
pub fn update_task(
    db: &mut TaskDb,
    id: u32,
    title: Option<&str>,
    project: Option<&str>,
    due: Option<Date>,
    now: DateTime,
    important: Option<bool>,
) -> (r: Result<(), DbError>)
    requires
        old(db).wf(),
        opt_date_wf(due),
        now.wf(),
        title matches Some(t) ==> t@.len() < usize::MAX,
    ensures
        final(db).wf(),
        update_ok(old(db)@, opt_str_view(project)) ==> r is Ok && final(db)@ == spec_update_task(
            old(db)@,
            id,
            opt_str_view(title),
            opt_str_view(project),
            due,
            now,
            important,
        ),
        !update_ok(old(db)@, opt_str_view(project)) ==> r == Err::<(), DbError>(
            DbError::IdsExhausted,
        ) && final(db)@ == old(db)@,
{
    let needs_project = match project {
        None => false,
        Some(p) => {
            let pc = chars_of(p);
            let name = trim_chars(pc.as_slice());
            name.len() > 0 && db.project_index_named(name.as_slice()).is_none()
        },
    };
    if needs_project && db.next_project_id == u32::MAX {
        return Err(DbError::IdsExhausted);
    }
    let pid = db.resolve_project_id(project);
    let ghost s1 = db@;
    match db.task_index(id) {
        Some(i) => {
            let old_rec = &db.tasks[i];
            assert(s1.tasks[i as int] == old_rec@);
            let new_title = match title {
                Some(t) => string_from_chars(chars_of(t).as_slice()),
                None => old_rec.title.clone(),
            };
            let new_project = if project.is_some() {
                pid
            } else {
                old_rec.project_id
            };
            let rec = TaskRecord {
                id: old_rec.id,
                title: new_title,
                status: old_rec.status,
                source: old_rec.source.clone(),
                project_id: new_project,
                due: match due {
                    Some(d) => Some(d),
                    None => old_rec.due,
                },
                done_at: old_rec.done_at,
                created: old_rec.created,
                updated: now,
                important: match important {
                    Some(b) => b,
                    None => old_rec.important,
                },
            };
            proof {
                if project is Some && pid is Some {
                    let p = project->0;
                    let nm = trimmed(p@);
                    if has_project_named(old(db)@.projects, nm) {
                        let j = project_pos_named(old(db)@.projects, nm);
                        assert(s1.projects[j].id == pid->0);
                    } else {
                        assert(s1.projects[s1.projects.len() - 1].id == pid->0);
                    }
                } else if project is None && old_rec.project_id is Some {
                    assert(s1.tasks[i as int].project_id == old_rec.project_id);
                }
            }
            db.set_task(i, rec);
        },
        None => {},
    }
    Ok(())
}

} // verus!

verus! {

// ----- selecting task rows -----

/// The row conditions of the task queries.
pub enum RowFilter {
    /// `list_tasks`: open tasks unless `all`; with the given project name,
    /// project category and due date when given; important ones when
    /// `important_only`.
    List {
        all: bool,
        project: Option<Vec<char>>,
        category: Option<Vec<char>>,
        due: Option<Date>,
        important_only: bool,
    },
    /// `get_due_tasks`: open tasks due on or before `target`.
    DueBy { target: Date },
    /// `search_tasks`: titles matching `%keyword%`, open ones unless `all`,
    /// with the given project name when given.
    Search { keyword: Vec<char>, all: bool, project: Option<Vec<char>> },
    /// `get_tasks_with_remind_today`: open tasks with a reminder on `day`.
    RemindOn { day: Date },
}

/// The row conditions of the task queries, as mathematical values.
pub enum RowQuery {
    List {
        all: bool,
        project: Option<Seq<char>>,
        category: Option<Seq<char>>,
        due: Option<Date>,
        important_only: bool,
    },
    DueBy { target: Date },
    Search { keyword: Seq<char>, all: bool, project: Option<Seq<char>> },
    RemindOn { day: Date },
}

impl View for RowFilter {
    type V = RowQuery;

    open spec fn view(&self) -> RowQuery {
        match *self {
            RowFilter::List { all, project, category, due, important_only } => RowQuery::List {
                all,
                project: opt_chars_view(project),
                category: opt_chars_view(category),
                due,
                important_only,
            },
            RowFilter::DueBy { target } => RowQuery::DueBy { target },
            RowFilter::Search { keyword, all, project } => RowQuery::Search {
                keyword: keyword@,
                all,
                project: opt_chars_view(project),
            },
            RowFilter::RemindOn { day } => RowQuery::RemindOn { day },
        }
    }
}

pub open spec fn opt_chars_view(o: Option<Vec<char>>) -> Option<Seq<char>> {
    match o {
        Some(v) => Some(v@),
        None => None,
    }
}

pub open spec fn has_remind_on(s: DbState, id: u32, day: Date) -> bool {
    exists|k: int| 0 <= k < s.reminds.len() && s.reminds[k].task_id == id && s.reminds[k].remind_at == day
}

/// Whether task row `t` meets the filter.
pub open spec fn row_matches(s: DbState, f: RowQuery, t: TaskRow) -> bool {
    match f {
        RowQuery::List { all, project, category, due, important_only } => {
            &&& (all || t.status == Status::Open)
            &&& (project is Some ==> project_name_of(s, t) == project)
            &&& (category is Some ==> project_category_of(s, t) == category)
            &&& (due is Some ==> t.due == due)
            &&& (important_only ==> t.important)
        },
        RowQuery::DueBy { target } => {
            &&& t.status == Status::Open
            &&& t.due is Some
            &&& t.due->0.le(target)
        },
        RowQuery::Search { keyword, all, project } => {
            &&& contains_text(keyword, t.title)
            &&& (all || t.status == Status::Open)
            &&& (project is Some ==> project_name_of(s, t) == project)
        },
        RowQuery::RemindOn { day } => {
            &&& t.status == Status::Open
            &&& has_remind_on(s, t.id, day)
        },
    }
}

/// The tasks meeting the filter, in id order, joined with their project names.
pub open spec fn selected(s: DbState, f: RowQuery) -> Seq<TaskInfo> {
    s.tasks.filter(|t: TaskRow| row_matches(s, f, t)).map_values(|t: TaskRow| row_info(s, t))
}

impl TaskDb {
    /// The name of the project of the task row at index `i`.
    fn project_name_at(&self, i: usize) -> (r: Option<Vec<char>>)
        requires
            self.wf(),
            i < self@.tasks.len(),
        ensures
            opt_chars_view(r) == project_name_of(self@, self@.tasks[i as int]),
    {
        assert(self@.tasks[i as int] == self.tasks@[i as int]@);
        match self.tasks[i].project_id {
            Some(pid) => match self.project_index(pid) {
                Some(j) => {
                    assert(self@.projects[j as int] == self.projects@[j as int]@);
                    Some(chars_of(self.projects[j].name.as_str()))
                },
                None => None,
            },
            None => None,
        }
    }

    /// The category of the project of the task row at index `i`.
    fn project_category_at(&self, i: usize) -> (r: Option<Vec<char>>)
        requires
            self.wf(),
            i < self@.tasks.len(),
        ensures
            opt_chars_view(r) == project_category_of(self@, self@.tasks[i as int]),
    {
        assert(self@.tasks[i as int] == self.tasks@[i as int]@);
        match self.tasks[i].project_id {
            Some(pid) => match self.project_index(pid) {
                Some(j) => {
                    assert(self@.projects[j as int] == self.projects@[j as int]@);
                    match &self.projects[j].category {
                        Some(c) => Some(chars_of(c.as_str())),
                        None => None,
                    }
                },
                None => None,
            },
            None => None,
        }
    }

    fn has_remind_on_exec(&self, id: u32, day: &Date) -> (r: bool)
        ensures
            r == has_remind_on(self@, id, *day),
    {
        let mut k: usize = 0;
        while k < self.reminds.len()
            invariant
                k <= self.reminds@.len(),
                forall|x: int|
                    0 <= x < k ==> !(self@.reminds[x].task_id == id && self@.reminds[x].remind_at
                        == *day),
            decreases self.reminds@.len() - k,
        {
            if self.reminds[k].task_id == id && self.reminds[k].remind_at.same_day(day) {
                assert(self@.reminds[k as int].task_id == id && self@.reminds[k as int].remind_at
                    == *day);
                return true;
            }
            k = k + 1;
        }
        false
    }

    /// Whether the task row at index `i` meets the filter.
    fn row_matches_at(&self, i: usize, f: &RowFilter) -> (r: bool)
        requires
            self.wf(),
            i < self@.tasks.len(),
        ensures
            r == row_matches(self@, f@, self@.tasks[i as int]),
    {
        let rec = &self.tasks[i];
        assert(self@.tasks[i as int] == rec@);
        assert(task_row_wf(self@.tasks[i as int]));
        match f {
            RowFilter::List { all, project, category, due, important_only } => {
                if !*all && !rec.status.is_open() {
                    return false;
                }
                if let Some(p) = project {
                    match self.project_name_at(i) {
                        Some(n) => {
                            if !crate::text::chars_eq(n.as_slice(), p.as_slice()) {
                                return false;
                            }
                        },
                        None => {
                            return false;
                        },
                    }
                }
                if let Some(c) = category {
                    match self.project_category_at(i) {
                        Some(n) => {
                            if !crate::text::chars_eq(n.as_slice(), c.as_slice()) {
                                return false;
                            }
                        },
                        None => {
                            return false;
                        },
                    }
                }
                if let Some(d) = due {
                    match &rec.due {
                        Some(x) => {
                            if !x.same_day(d) {
                                return false;
                            }
                        },
                        None => {
                            return false;
                        },
                    }
                }
                if *important_only && !rec.important {
                    return false;
                }
                true
            },
            RowFilter::DueBy { target } => {
                if !rec.status.is_open() {
                    return false;
                }
                match &rec.due {
                    Some(x) => x.is_on_or_before(target),
                    None => false,
                }
            },
            RowFilter::Search { keyword, all, project } => {
                let title = chars_of(rec.title.as_str());
                if !contains_keyword(keyword.as_slice(), title.as_slice()) {
                    return false;
                }
                if !*all && !rec.status.is_open() {
                    return false;
                }
                if let Some(p) = project {
                    match self.project_name_at(i) {
                        Some(n) => {
                            if !crate::text::chars_eq(n.as_slice(), p.as_slice()) {
                                return false;
                            }
                        },
                        None => {
                            return false;
                        },
                    }
                }
                true
            },
            RowFilter::RemindOn { day } => {
                if !rec.status.is_open() {
                    return false;
                }
                self.has_remind_on_exec(rec.id, day)
            },
        }
    }

    /// The tasks meeting the filter, in id order.
    pub fn select(&self, f: &RowFilter) -> (r: Vec<Task>)
        requires
            self.wf(),
        ensures
            infos(r@) == selected(self@, f@),
            forall|a: int, b: int| 0 <= a < b < r@.len() ==> r@[a].id < r@[b].id,
            forall|a: int| 0 <= a < r@.len() ==> orderable(#[trigger] r@[a]@),
    {
        let ghost s = self@;
        let ghost pred = |t: TaskRow| row_matches(s, f@, t);
        let ghost fi = |t: TaskRow| row_info(s, t);
        let mut out: Vec<Task> = Vec::new();
        let mut k: usize = 0;
        while k < self.tasks.len()
            invariant
                self.wf(),
                s == self@,
                pred == (|t: TaskRow| row_matches(s, f@, t)),
                fi == (|t: TaskRow| row_info(s, t)),
                k <= self.tasks@.len(),
                infos(out@) == s.tasks.take(k as int).filter(pred).map_values(fi),
                forall|a: int, b: int| 0 <= a < b < out@.len() ==> out@[a].id < out@[b].id,
                forall|a: int, j: int|
                    0 <= a < out@.len() && k <= j < s.tasks.len() ==> out@[a].id < s.tasks[j].id,
                forall|a: int| 0 <= a < out@.len() ==> orderable(#[trigger] out@[a]@),
            decreases self.tasks@.len() - k,
        {
            proof {
                lemma_filter_take_step(s.tasks, pred, k as int);
            }
            if self.row_matches_at(k, f) {
                let t = self.task_at(k);
                let ghost before = out@;
                out.push(t);
                proof {
                    assert(infos(out@) =~= infos(before).push(t@));
                    assert(task_row_wf(s.tasks[k as int]));
                    assert forall|a: int, j: int|
                        0 <= a < out@.len() && k + 1 <= j < s.tasks.len() implies out@[a].id
                        < s.tasks[j].id by {
                        if a < before.len() {
                            assert(out@[a] == before[a]);
                        }
                    }
                }
            } else {
                proof {
                    assert forall|a: int, j: int|
                        0 <= a < out@.len() && k + 1 <= j < s.tasks.len() implies out@[a].id
                        < s.tasks[j].id by {}
                }
            }
            k = k + 1;
        }
        proof {
            lemma_filter_all(s.tasks, pred, k as int);
        }
        out
    }
}

fn opt_chars(o: Option<&str>) -> (r: Option<Vec<char>>)
    ensures
        opt_chars_view(r) == opt_str_view(o),
{
    match o {
        Some(s) => Some(chars_of(s)),
        None => None,
    }
}

/// The tasks that meet the filters (open ones only unless `all`; the given
/// project name, project category and due date when given; important ones
/// when `important_only`), sorted by `sorts` in direction `order`. Rows
/// without a due date or project come last for those keys; ties keep id
/// order. An empty key list makes no valid query.
pub fn list_tasks(
    db: &TaskDb,
    all: bool,
    project: Option<&str>,
    category: Option<&str>,
    due: Option<Date>,
    sorts: &[SortKey],
    order: SortOrder,
    important_only: bool,
) -> (r: Result<Vec<Task>, DbError>)
    requires
        db.wf(),
    ensures
        sorts@.len() == 0 <==> r is Err,
        r is Err ==> r == Err::<Vec<Task>, DbError>(DbError::NoSortKey),
        r matches Ok(v) ==> {
            &&& infos(v@).to_multiset() == selected(
                db@,
                RowQuery::List {
                    all,
                    project: opt_str_view(project),
                    category: opt_str_view(category),
                    due,
                    important_only,
                },
            ).to_multiset()
            &&& sorted_tasks(sorts@, order, infos(v@))
        },
{
    if sorts.len() == 0 {
        return Err(DbError::NoSortKey);
    }
    let f = RowFilter::List {
        all,
        project: opt_chars(project),
        category: opt_chars(category),
        due,
        important_only,
    };
    let rows = db.select(&f);
    Ok(sort_tasks(rows, sorts, order))
}

} // verus!

verus! {

/// The open tasks due on or before `target`, earliest due date first (ties in
/// id order).
pub fn get_due_tasks(db: &TaskDb, target: Date) -> (r: Vec<Task>)
    requires
        db.wf(),
    ensures
        infos(r@).to_multiset() == selected(db@, RowQuery::DueBy { target }).to_multiset(),
        sorted_tasks(seq![SortKey::Due], SortOrder::Asc, infos(r@)),
{
    let rows = db.select(&RowFilter::DueBy { target });
    let keys: Vec<SortKey> = vec![SortKey::Due];
    let r = sort_tasks(rows, keys.as_slice(), SortOrder::Asc);
    assert(keys@ =~= seq![SortKey::Due]);
    r
}

/// The tasks whose title contains `keyword` as literal text (ASCII letters
/// match regardless of case; no character of the keyword is a wildcard), open
/// ones unless `all`, with the given project when given, in id order.
pub fn search_tasks(db: &TaskDb, keyword: &str, all: bool, project: Option<&str>) -> (r: Vec<Task>)
    requires
        db.wf(),
    ensures
        infos(r@) == selected(
            db@,
            RowQuery::Search { keyword: keyword@, all, project: opt_str_view(project) },
        ),
{
    let f = RowFilter::Search { keyword: chars_of(keyword), all, project: opt_chars(project) };
    db.select(&f)
}

/// The open tasks with a reminder on `today`, each once, in id order.
pub fn get_tasks_with_remind_today(db: &TaskDb, today: Date) -> (r: Vec<Task>)
    requires
        db.wf(),
    ensures
        infos(r@) == selected(db@, RowQuery::RemindOn { day: today }),
{
    db.select(&RowFilter::RemindOn { day: today })
}

// ----- reminders -----

pub open spec fn spec_add_remind(s: DbState, task_id: u32, remind_at: Date) -> DbState {
    DbState {
        reminds: s.reminds.push(RemindRecord { id: s.next_remind_id, task_id, remind_at }),
        next_remind_id: (s.next_remind_id + 1) as u32,
        ..s
    }
}

/// The reminder dates of a task, in the order of the reminder rows.
pub open spec fn remind_dates(s: DbState, task_id: u32) -> Seq<Date> {
    s.reminds.filter(|r: RemindRecord| r.task_id == task_id).map_values(
        |r: RemindRecord| r.remind_at,
    )
}

pub open spec fn dates_sorted(s: Seq<Date>) -> bool {
    forall|i: int, j: int| 0 <= i < j < s.len() ==> s[i].le(s[j])
}

/// Records a reminder for a task (the task need not exist). Fails, changing
/// nothing, when reminder ids are used up.
pub fn add_remind(db: &mut TaskDb, task_id: u32, remind_at: Date) -> (r: Result<(), DbError>)
    requires
        old(db).wf(),
        remind_at.wf(),
    ensures
        final(db).wf(),
        old(db)@.next_remind_id < u32::MAX ==> r is Ok && final(db)@ == spec_add_remind(
            old(db)@,
            task_id,
            remind_at,
        ),
        old(db)@.next_remind_id == u32::MAX ==> r == Err::<(), DbError>(DbError::IdsExhausted)
            && final(db)@ == old(db)@,
{
    if db.next_remind_id == u32::MAX {
        return Err(DbError::IdsExhausted);
    }
    let ghost s = db@;
    let id = db.next_remind_id;
    db.reminds.push(RemindRecord { id, task_id, remind_at });
    db.next_remind_id = id + 1;
    assert(db@.tasks =~= s.tasks);
    assert(db@.projects =~= s.projects);
    assert(db@.reminds =~= s.reminds.push(RemindRecord { id, task_id, remind_at }));
    assert forall|i: int| 0 <= i < db@.reminds.len() implies (#[trigger] db@.reminds[i]).remind_at.wf() by {
        if i < s.reminds.len() {
            assert(db@.reminds[i] == s.reminds[i]);
        }
    }
    Ok(())
}

/// Sorts dates, earliest first.
fn sort_dates(v: Vec<Date>) -> (r: Vec<Date>)
    requires
        forall|i: int| 0 <= i < v@.len() ==> (#[trigger] v@[i]).wf(),
    ensures
        r@.to_multiset() == v@.to_multiset(),
        dates_sorted(r@),
        forall|i: int| 0 <= i < r@.len() ==> (#[trigger] r@[i]).wf(),
{
    let mut out: Vec<Date> = Vec::new();
    let mut rest = v;
    let ghost all = rest@;
    let ghost n = rest@.len();
    while rest.len() > 0
        invariant
            n == all.len(),
            rest@.len() <= n,
            rest@ == all.subrange(0, rest@.len() as int),
            out@.to_multiset() == all.subrange(rest@.len() as int, n as int).to_multiset(),
            dates_sorted(out@),
            forall|i: int| 0 <= i < n ==> (#[trigger] all[i]).wf(),
            forall|i: int| 0 <= i < out@.len() ==> (#[trigger] out@[i]).wf(),
        decreases rest@.len(),
    {
        let ghost k0 = rest@.len() - 1;
        let x = rest.pop().unwrap();
        assert(rest@ =~= all.subrange(0, rest@.len() as int));
        let mut pos: usize = 0;
        while pos < out.len() && out[pos].is_on_or_before(&x)
            invariant
                pos <= out@.len(),
                forall|i: int| 0 <= i < pos ==> out@[i].le(x),
            decreases out@.len() - pos,
        {
            pos = pos + 1;
        }
        let ghost old_out = out@;
        proof {
            if pos < old_out.len() {
                lemma_lt_iff_day_number(old_out[pos as int], x);
                lemma_lt_iff_day_number(x, old_out[pos as int]);
                assert(x.lt(old_out[pos as int]));
            }
        }
        out.insert(pos, x);
        proof {
            assert(all.subrange(rest@.len() as int, n as int) =~= all.subrange(
                (rest@.len() + 1) as int,
                n as int,
            ).insert(0, x));
            assert forall|i: int, j: int| 0 <= i < j < out@.len() implies out@[i].le(out@[j]) by {
                let a = out@[i];
                let b = out@[j];
                lemma_lt_iff_day_number(a, b);
                if i < pos && j > pos {
                    lemma_lt_iff_day_number(a, x);
                    lemma_lt_iff_day_number(x, b);
                    assert(b == old_out[j - 1]);
                    lemma_lt_iff_day_number(old_out[pos as int], b);
                    lemma_lt_iff_day_number(x, old_out[pos as int]);
                    if pos < j - 1 {
                        assert(old_out[pos as int].le(b));
                    }
                } else if i == pos && j > pos {
                    assert(b == old_out[j - 1]);
                    lemma_lt_iff_day_number(x, old_out[pos as int]);
                    lemma_lt_iff_day_number(old_out[pos as int], b);
                    if pos < j - 1 {
                        assert(old_out[pos as int].le(b));
                    }
                } else if i > pos {
                    assert(a == old_out[i - 1]);
                    assert(b == old_out[j - 1]);
                }
            }
        }
    }
    assert(all.subrange(0, n as int) =~= all);
    out
}

/// The reminder dates of a task, earliest first.
pub fn get_reminds_for_task(db: &TaskDb, task_id: u32) -> (r: Vec<Date>)
    requires
        db.wf(),
    ensures
        r@.to_multiset() == remind_dates(db@, task_id).to_multiset(),
        dates_sorted(r@),
        forall|i: int| 0 <= i < r@.len() ==> (#[trigger] r@[i]).wf(),
{
    let ghost s = db@;
    let ghost pred = |r: RemindRecord| r.task_id == task_id;
    let ghost fd = |r: RemindRecord| r.remind_at;
    let mut out: Vec<Date> = Vec::new();
    let mut k: usize = 0;
    while k < db.reminds.len()
        invariant
            db.wf(),
            s == db@,
            pred == (|r: RemindRecord| r.task_id == task_id),
            fd == (|r: RemindRecord| r.remind_at),
            k <= db.reminds@.len(),
            out@ == s.reminds.take(k as int).filter(pred).map_values(fd),
            forall|i: int| 0 <= i < out@.len() ==> (#[trigger] out@[i]).wf(),
        decreases db.reminds@.len() - k,
    {
        proof {
            lemma_filter_take_step(s.reminds, pred, k as int);
        }
        if db.reminds[k].task_id == task_id {
            let ghost before = out@;
            out.push(db.reminds[k].remind_at);
            assert(out@ =~= before.push(s.reminds[k as int].remind_at));
        }
        k = k + 1;
    }
    proof {
        lemma_filter_all(s.reminds, pred, k as int);
    }
    sort_dates(out)
}

/// The reminders that remain after deleting those matching `gone`.
fn keep_reminds(db: &mut TaskDb, task_id: u32, date: Option<Date>) -> (removed: usize)
    requires
        old(db).wf(),
    ensures
        final(db).wf(),
        final(db)@ == (DbState {
            reminds: old(db)@.reminds.filter(|r: RemindRecord| !remind_gone(r, task_id, date)),
            ..old(db)@
        }),
        removed == old(db)@.reminds.len() - final(db)@.reminds.len(),
{
    let ghost s = db@;
    let ghost pred = |r: RemindRecord| !remind_gone(r, task_id, date);
    let mut kept: Vec<RemindRecord> = Vec::new();
    let mut k: usize = 0;
    while k < db.reminds.len()
        invariant
            s == db@,
            s.wf(),
            pred == (|r: RemindRecord| !remind_gone(r, task_id, date)),
            k <= db.reminds@.len(),
            kept@ == s.reminds.take(k as int).filter(pred),
            kept@.len() <= k,
            forall|a: int, b: int| 0 <= a < b < kept@.len() ==> kept@[a].id < kept@[b].id,
            forall|a: int, j: int|
                0 <= a < kept@.len() && k <= j < s.reminds.len() ==> kept@[a].id < s.reminds[j].id,
            forall|a: int|
                0 <= a < kept@.len() ==> kept@[a].id < s.next_remind_id && (
                #[trigger] kept@[a]).remind_at.wf(),
        decreases db.reminds@.len() - k,
    {
        proof {
            lemma_filter_take_step(s.reminds, pred, k as int);
        }
        let r = db.reminds[k];
        let gone = r.task_id == task_id && match date {
            Some(d) => r.remind_at.same_day(&d),
            None => true,
        };
        if !gone {
            let ghost before = kept@;
            kept.push(r);
            proof {
                assert forall|a: int, j: int|
                    0 <= a < kept@.len() && k + 1 <= j < s.reminds.len() implies kept@[a].id
                    < s.reminds[j].id by {
                    if a < before.len() {
                        assert(kept@[a] == before[a]);
                    }
                }
            }
        }
        k = k + 1;
    }
    proof {
        lemma_filter_all(s.reminds, pred, k as int);
    }
    let removed = db.reminds.len() - kept.len();
    db.reminds = kept;
    assert(db@.tasks =~= s.tasks);
    assert(db@.projects =~= s.projects);
    removed
}

/// A reminder row is deleted: it belongs to `task_id` and, when a date is
/// given, falls on it.
pub open spec fn remind_gone(r: RemindRecord, task_id: u32, date: Option<Date>) -> bool {
    r.task_id == task_id && match date {
        Some(d) => r.remind_at == d,
        None => true,
    }
}

/// Deletes every reminder of a task.
pub fn delete_reminds_for_task(db: &mut TaskDb, task_id: u32)
    requires
        old(db).wf(),
    ensures
        final(db).wf(),
        final(db)@ == (DbState {
            reminds: old(db)@.reminds.filter(|r: RemindRecord| !remind_gone(r, task_id, None)),
            ..old(db)@
        }),
{
    let _ = keep_reminds(db, task_id, None);
}

/// Deletes the reminders of a task on one date and returns how many there
/// were.
pub fn delete_remind(db: &mut TaskDb, task_id: u32, remind_at: Date) -> (r: usize)
    requires
        old(db).wf(),
    ensures
        final(db).wf(),
        final(db)@ == (DbState {
            reminds: old(db)@.reminds.filter(
                |r: RemindRecord| !remind_gone(r, task_id, Some(remind_at)),
            ),
            ..old(db)@
        }),
        r == old(db)@.reminds.len() - final(db)@.reminds.len(),
{
    keep_reminds(db, task_id, Some(remind_at))
}

} // verus!

verus! {

// ----- projects -----

/// A category as stored: trimmed, and none when blank.
pub open spec fn normalized_category(c: Option<Seq<char>>) -> Option<Seq<char>> {
    match c {
        Some(x) => if trimmed(x).len() > 0 {
            Some(trimmed(x))
        } else {
            None
        },
        None => None,
    }
}

/// The tables after setting the category of the project named exactly
/// `project`; unchanged when there is no such project.
pub open spec fn spec_set_project_category(
    s: DbState,
    project: Seq<char>,
    category: Option<Seq<char>>,
) -> DbState {
    if has_project_named(s.projects, project) {
        let j = project_pos_named(s.projects, project);
        DbState {
            projects: s.projects.update(
                j,
                ProjectRow { category: normalized_category(category), ..s.projects[j] },
            ),
            ..s
        }
    } else {
        s
    }
}

/// Sets (or, with `None` or a blank value, clears) the category of an existing
/// project. Returns whether the project exists; no project is created.
pub fn set_project_category(db: &mut TaskDb, project: &str, category: Option<&str>) -> (r: bool)
    requires
        old(db).wf(),
    ensures
        final(db).wf(),
        r == has_project_named(old(db)@.projects, project@),
        final(db)@ == spec_set_project_category(old(db)@, project@, opt_str_view(category)),
{
    let normalized: Option<String> = match category {
        Some(c) => {
            let t = trim_chars(chars_of(c).as_slice());
            if t.len() > 0 {
                Some(string_from_chars(t.as_slice()))
            } else {
                None
            }
        },
        None => None,
    };
    let name = chars_of(project);
    match db.project_index_named(name.as_slice()) {
        Some(j) => {
            let ghost s = db@;
            let old_rec = db.projects.remove(j);
            assert(s.projects[j as int] == old_rec@);
            let rec = ProjectRecord { id: old_rec.id, name: old_rec.name, category: normalized };
            db.projects.insert(j, rec);
            proof {
                assert(db@.projects =~= s.projects.update(
                    j as int,
                    ProjectRow {
                        category: normalized_category(opt_str_view(category)),
                        ..s.projects[j as int]
                    },
                ));
                assert(db@.tasks =~= s.tasks);
                assert forall|i: int|
                    0 <= i < db@.tasks.len() && (#[trigger] db@.tasks[i]).project_id is Some
                    implies has_project_id(db@.projects, db@.tasks[i].project_id->0) by {
                    let pid = db@.tasks[i].project_id->0;
                    let k = choose|k: int| 0 <= k < s.projects.len() && s.projects[k].id == pid;
                    assert(db@.projects[k].id == pid);
                }
                assert forall|a: int| 0 <= a < db@.projects.len() implies db@.projects[a].name
                    == s.projects[a].name && db@.projects[a].id == s.projects[a].id by {}
                assert forall|a: int, b: int|
                    0 <= a < b < db@.projects.len() implies db@.projects[a].name
                    != db@.projects[b].name && db@.projects[a].id < db@.projects[b].id by {
                    assert(s.projects[a].name != s.projects[b].name);
                }
                assert(db@.reminds =~= s.reminds);
            }
            true
        },
        None => false,
    }
}

/// The number of tasks of project `pid` with status `st`.
pub open spec fn count_status(s: DbState, pid: u32, st: Status) -> nat {
    s.tasks.filter(|t: TaskRow| t.project_id == Some(pid) && t.status == st).len()
}

/// A project's name, category and task counts by status.
pub open spec fn summary_of(s: DbState, p: ProjectRow) -> SummaryView {
    SummaryView {
        name: p.name,
        category: p.category,
        open_count: count_status(s, p.id, Status::Open) as u32,
        done_count: count_status(s, p.id, Status::Done) as u32,
        closed_count: count_status(s, p.id, Status::Closed) as u32,
    }
}

pub open spec fn summaries(s: Seq<ProjectSummary>) -> Seq<SummaryView> {
    s.map_values(|p: ProjectSummary| p@)
}

pub open spec fn names_sorted(s: Seq<SummaryView>) -> bool {
    forall|i: int, j: int| 0 <= i < j < s.len() ==> text_ord(s[i].name, s[j].name) < 0
}

impl TaskDb {
    /// Counts the tasks of project `pid` with status `st`.
    fn count_tasks(&self, pid: u32, st: Status) -> (r: u32)
        requires
            self.wf(),
        ensures
            r == count_status(self@, pid, st),
    {
        let ghost s = self@;
        let ghost pred = |t: TaskRow| t.project_id == Some(pid) && t.status == st;
        let mut n: u32 = 0;
        let mut k: usize = 0;
        while k < self.tasks.len()
            invariant
                s == self@,
                s.wf(),
                pred == (|t: TaskRow| t.project_id == Some(pid) && t.status == st),
                k <= self.tasks@.len(),
                n == s.tasks.take(k as int).filter(pred).len(),
                n <= k,
            decreases self.tasks@.len() - k,
        {
            proof {
                lemma_filter_take_step(s.tasks, pred, k as int);
            }
            assert(s.tasks[k as int] == self.tasks@[k as int]@);
            if self.tasks[k].project_id == Some(pid) && self.tasks[k].status == st {
                n = n + 1;
            }
            k = k + 1;
        }
        proof {
            lemma_filter_all(s.tasks, pred, k as int);
        }
        n
    }
}

/// Sorts project summaries with distinct names by name.
fn sort_summaries(v: Vec<ProjectSummary>) -> (r: Vec<ProjectSummary>)
    requires
        forall|i: int, j: int| 0 <= i < j < v@.len() ==> v@[i].name@ != v@[j].name@,
    ensures
        summaries(r@).to_multiset() == summaries(v@).to_multiset(),
        names_sorted(summaries(r@)),
{
    let mut out: Vec<ProjectSummary> = Vec::new();
    let mut rest = v;
    let ghost all = summaries(rest@);
    let ghost n = rest@.len();
    while rest.len() > 0
        invariant
            n == all.len(),
            rest@.len() <= n,
            summaries(rest@) == all.subrange(0, rest@.len() as int),
            summaries(out@).to_multiset() == all.subrange(rest@.len() as int, n as int).to_multiset(),
            names_sorted(summaries(out@)),
            forall|i: int, j: int| 0 <= i < j < n ==> all[i].name != all[j].name,
            forall|i: int|
                0 <= i < out@.len() ==> exists|j: int|
                    rest@.len() <= j < n && #[trigger] summaries(out@)[i] == all[j],
        decreases rest@.len(),
    {
        let ghost k0 = rest@.len() - 1;
        let ghost old_rest = rest@;
        assert(summaries(old_rest)[k0] == old_rest[k0]@);
        let x = rest.pop().unwrap();
        assert(x@ == all[k0]);
        assert(summaries(rest@) =~= all.subrange(0, rest@.len() as int)) by {
            assert forall|i: int| 0 <= i < rest@.len() implies summaries(rest@)[i] == all[i] by {
                assert(summaries(rest@)[i] == rest@[i]@);
                assert(summaries(old_rest)[i] == old_rest[i]@);
            }
        }
        let xn = chars_of(x.name.as_str());
        let mut pos: usize = 0;
        while pos < out.len() && text_compare(
            chars_of(out[pos].name.as_str()).as_slice(),
            xn.as_slice(),
        ) < 0
            invariant
                pos <= out@.len(),
                xn@ == x.name@,
                forall|i: int| 0 <= i < pos ==> text_ord(summaries(out@)[i].name, x@.name) < 0,
            decreases out@.len() - pos,
        {
            assert(summaries(out@)[pos as int] == out@[pos as int]@);
            pos = pos + 1;
        }
        let ghost old_out = summaries(out@);
        proof {
            assert forall|i: int| 0 <= i < old_out.len() implies old_out[i].name != x@.name by {
                let j = choose|j: int| rest@.len() + 1 <= j < n && #[trigger] old_out[i] == all[j];
                assert(all[j].name != all[k0].name);
            }
            if pos < old_out.len() {
                assert(old_out[pos as int] == out@[pos as int]@);
                lemma_text_ord_antisym(old_out[pos as int].name, x@.name, 0);
                if text_ord(old_out[pos as int].name, x@.name) == 0 {
                    assert(old_out[pos as int].name.subrange(0, 0) =~= x@.name.subrange(0, 0));
                    lemma_text_ord_zero(old_out[pos as int].name, x@.name, 0);
                }
                assert(text_ord(x@.name, old_out[pos as int].name) < 0);
            }
        }
        out.insert(pos, x);
        proof {
            let new_out = summaries(out@);
            assert(new_out =~= old_out.insert(pos as int, x@));
            assert(all.subrange(rest@.len() as int, n as int) =~= all.subrange(
                (rest@.len() + 1) as int,
                n as int,
            ).insert(0, x@));
            assert forall|i: int, j: int| 0 <= i < j < new_out.len() implies text_ord(
                new_out[i].name,
                new_out[j].name,
            ) < 0 by {
                if j < pos {
                } else if j == pos {
                } else if i < pos {
                    assert(new_out[j] == old_out[j - 1]);
                    if j - 1 > pos {
                        assert(text_ord(old_out[pos as int].name, old_out[j - 1].name) < 0);
                        lemma_text_ord_trans(x@.name, old_out[pos as int].name, old_out[j - 1].name, 0);
                    }
                    lemma_text_ord_trans(new_out[i].name, x@.name, new_out[j].name, 0);
                } else if i == pos {
                    assert(new_out[j] == old_out[j - 1]);
                    if j - 1 > pos {
                        assert(text_ord(old_out[pos as int].name, old_out[j - 1].name) < 0);
                        lemma_text_ord_trans(x@.name, old_out[pos as int].name, old_out[j - 1].name, 0);
                    }
                } else {
                    assert(new_out[i] == old_out[i - 1]);
                    assert(new_out[j] == old_out[j - 1]);
                }
            }
            assert forall|i: int| 0 <= i < out@.len() implies exists|j: int|
                rest@.len() <= j < n && #[trigger] summaries(out@)[i] == all[j] by {
                if i < pos {
                    let j = choose|j: int| rest@.len() + 1 <= j < n && #[trigger] old_out[i] == all[j];
                    assert(summaries(out@)[i] == all[j]);
                } else if i == pos {
                    assert(summaries(out@)[i] == all[rest@.len() as int]);
                } else {
                    let j = choose|j: int|
                        rest@.len() + 1 <= j < n && #[trigger] old_out[i - 1] == all[j];
                    assert(summaries(out@)[i] == all[j]);
                }
            }
        }
    }
    assert(all.subrange(0, n as int) =~= all);
    out
}

/// Every project with its category and the number of its open, done and
/// closed tasks, sorted by name (projects without tasks included).
pub fn list_projects(db: &TaskDb) -> (r: Vec<ProjectSummary>)
    requires
        db.wf(),
    ensures
        summaries(r@).to_multiset() == db@.projects.map_values(
            |p: ProjectRow| summary_of(db@, p),
        ).to_multiset(),
        names_sorted(summaries(r@)),
{
    let ghost s = db@;
    let ghost fs = |p: ProjectRow| summary_of(s, p);
    let mut out: Vec<ProjectSummary> = Vec::new();
    let mut j: usize = 0;
    while j < db.projects.len()
        invariant
            s == db@,
            s.wf(),
            fs == (|p: ProjectRow| summary_of(s, p)),
            j <= db.projects@.len(),
            summaries(out@) == s.projects.take(j as int).map_values(fs),
        decreases db.projects@.len() - j,
    {
        let p = &db.projects[j];
        assert(s.projects[j as int] == p@);
        let summary = ProjectSummary {
            name: p.name.clone(),
            category: match &p.category {
                Some(c) => Some(c.clone()),
                None => None,
            },
            open_count: db.count_tasks(p.id, Status::Open),
            done_count: db.count_tasks(p.id, Status::Done),
            closed_count: db.count_tasks(p.id, Status::Closed),
        };
        let ghost before = summaries(out@);
        out.push(summary);
        proof {
            assert(summaries(out@) =~= before.push(summary@));
            assert(s.projects.take(j + 1).map_values(fs) =~= s.projects.take(j as int).map_values(
                fs,
            ).push(fs(s.projects[j as int])));
        }
        j = j + 1;
    }
    assert(s.projects.take(j as int) =~= s.projects);
    proof {
        assert forall|a: int, b: int| 0 <= a < b < out@.len() implies out@[a].name@
            != out@[b].name@ by {
            assert(summaries(out@)[a] == out@[a]@);
            assert(summaries(out@)[b] == out@[b]@);
        }
    }
    sort_summaries(out)
}

} // verus!

verus! {

// ----- loading stored rows -----

/// The database state made of the given rows and next ids.
pub open spec fn state_of(
    tasks: Seq<TaskRecord>,
    projects: Seq<ProjectRecord>,
    reminds: Seq<RemindRecord>,
    next_task_id: u32,
    next_project_id: u32,
    next_remind_id: u32,
) -> DbState {
    DbState {
        tasks: tasks.map_values(|t: TaskRecord| t@),
        projects: projects.map_values(|p: ProjectRecord| p@),
        reminds,
        next_task_id,
        next_project_id,
        next_remind_id,
    }
}

fn opt_date_ok(d: &Option<Date>) -> (r: bool)
    ensures
        r == opt_date_wf(*d),
{
    match d {
        Some(x) => x.is_valid(),
        None => true,
    }
}

fn opt_datetime_ok(d: &Option<DateTime>) -> (r: bool)
    ensures
        r == opt_datetime_wf(*d),
{
    match d {
        Some(x) => x.is_valid(),
        None => true,
    }
}

fn task_row_ok(t: &TaskRecord) -> (r: bool)
    ensures
        r == task_row_wf(t@),
{
    opt_date_ok(&t.due) && opt_datetime_ok(&t.done_at) && t.created.is_valid()
        && t.updated.is_valid() && chars_of(t.title.as_str()).len() < usize::MAX
}

fn has_project_id_in(projects: &Vec<ProjectRecord>, pid: u32) -> (r: bool)
    ensures
        r == has_project_id(projects@.map_values(|p: ProjectRecord| p@), pid),
{
    let ghost ps = projects@.map_values(|p: ProjectRecord| p@);
    let mut j: usize = 0;
    while j < projects.len()
        invariant
            ps == projects@.map_values(|p: ProjectRecord| p@),
            j <= projects@.len(),
            forall|k: int| 0 <= k < j ==> ps[k].id != pid,
        decreases projects@.len() - j,
    {
        assert(ps[j as int] == projects@[j as int]@);
        if projects[j].id == pid {
            return true;
        }
        j = j + 1;
    }
    false
}

impl TaskDb {
    /// A database of stored rows, if they meet the store invariant: increasing
    /// row ids below the next ids, valid dates, existing projects for tasks and
    /// distinct project names.
    pub fn from_rows(
        tasks: Vec<TaskRecord>,
        projects: Vec<ProjectRecord>,
        reminds: Vec<RemindRecord>,
        next_task_id: u32,
        next_project_id: u32,
        next_remind_id: u32,
    ) -> (r: Option<TaskDb>)
        ensures
            r is Some <==> state_of(
                tasks@,
                projects@,
                reminds@,
                next_task_id,
                next_project_id,
                next_remind_id,
            ).wf(),
            r matches Some(db) ==> db@ == state_of(
                tasks@,
                projects@,
                reminds@,
                next_task_id,
                next_project_id,
                next_remind_id,
            ),
    {
        let ghost st = state_of(
            tasks@,
            projects@,
            reminds@,
            next_task_id,
            next_project_id,
            next_remind_id,
        );
        if tasks.len() > next_task_id as usize {
            return None;
        }
        // tasks
        let mut i: usize = 0;
        while i < tasks.len()
            invariant
                st == state_of(tasks@, projects@, reminds@, next_task_id, next_project_id, next_remind_id),
                st.tasks == tasks@.map_values(|t: TaskRecord| t@),
                st.projects == projects@.map_values(|p: ProjectRecord| p@),
                i <= tasks@.len(),
                forall|a: int, b: int| 0 <= a < b < i ==> st.tasks[a].id < st.tasks[b].id,
                forall|a: int| 0 <= a < i ==> st.tasks[a].id < next_task_id,
                forall|a: int| 0 <= a < i ==> task_row_wf(#[trigger] st.tasks[a]),
                forall|a: int|
                    0 <= a < i && (#[trigger] st.tasks[a]).project_id is Some ==> has_project_id(
                        st.projects,
                        st.tasks[a].project_id->0,
                    ),
            decreases tasks@.len() - i,
        {
            let t = &tasks[i];
            assert(st.tasks[i as int] == t@);
            if i > 0 {
                assert(st.tasks[i - 1] == tasks@[i - 1]@);
                if tasks[i - 1].id >= t.id {
                    return None;
                }
            }
            if t.id >= next_task_id || !task_row_ok(t) {
                return None;
            }
            match t.project_id {
                Some(pid) => {
                    if !has_project_id_in(&projects, pid) {
                        return None;
                    }
                },
                None => {},
            }
            i = i + 1;
        }
        // projects
        let mut j: usize = 0;
        while j < projects.len()
            invariant
                st == state_of(tasks@, projects@, reminds@, next_task_id, next_project_id, next_remind_id),
                st.projects == projects@.map_values(|p: ProjectRecord| p@),
                j <= projects@.len(),
                forall|a: int, b: int| 0 <= a < b < j ==> st.projects[a].id < st.projects[b].id,
                forall|a: int| 0 <= a < j ==> st.projects[a].id < next_project_id,
                forall|a: int, b: int| 0 <= a < b < j ==> st.projects[a].name != st.projects[b].name,
            decreases projects@.len() - j,
        {
            let p = &projects[j];
            assert(st.projects[j as int] == p@);
            if j > 0 {
                assert(st.projects[j - 1] == projects@[j - 1]@);
                if projects[j - 1].id >= p.id {
                    return None;
                }
            }
            if p.id >= next_project_id {
                return None;
            }
            let pn = chars_of(p.name.as_str());
            let mut k: usize = 0;
            while k < j
                invariant
                    st == state_of(tasks@, projects@, reminds@, next_task_id, next_project_id, next_remind_id),
                    st.projects == projects@.map_values(|p: ProjectRecord| p@),
                    j < projects@.len(),
                    k <= j,
                    pn@ == st.projects[j as int].name,
                    forall|a: int| 0 <= a < k ==> st.projects[a].name != st.projects[j as int].name,
                decreases j - k,
            {
                assert(st.projects[k as int] == projects@[k as int]@);
                if crate::text::chars_eq(chars_of(projects[k].name.as_str()).as_slice(), pn.as_slice()) {
                    return None;
                }
                k = k + 1;
            }
            j = j + 1;
        }
        // reminders
        let mut m: usize = 0;
        while m < reminds.len()
            invariant
                st == state_of(tasks@, projects@, reminds@, next_task_id, next_project_id, next_remind_id),
                st.reminds == reminds@,
                m <= reminds@.len(),
                forall|a: int, b: int| 0 <= a < b < m ==> st.reminds[a].id < st.reminds[b].id,
                forall|a: int| 0 <= a < m ==> st.reminds[a].id < next_remind_id,
                forall|a: int| 0 <= a < m ==> (#[trigger] st.reminds[a]).remind_at.wf(),
            decreases reminds@.len() - m,
        {
            if m > 0 && reminds[m - 1].id >= reminds[m].id {
                assert(st.reminds[m - 1].id >= st.reminds[m as int].id);
                return None;
            }
            if reminds[m].id >= next_remind_id || !reminds[m].remind_at.is_valid() {
                assert(st.reminds[m as int].id >= next_remind_id || !st.reminds[m as int].remind_at.wf());
                return None;
            }
            m = m + 1;
        }
        Some(TaskDb { tasks, projects, reminds, next_task_id, next_project_id, next_remind_id })
    }
}

/// chrono's reading of a stored date ("YYYY-MM-DD").
pub open spec fn spec_parse_date(s: Seq<char>) -> Option<Date> {
    match crate::date::chrono_parse_ymd(s) {
        Some(t) => Some(crate::date::ymd_of(t)),
        None => None,
    }
}

/// The reading of a stored date-time: "YYYY-MM-DD HH:MM:SS", or a date alone,
/// read as midnight.
pub open spec fn spec_parse_datetime(s: Seq<char>) -> Option<DateTime> {
    match crate::date::chrono_parse_ymd_hms(s) {
        Some(t) => Some(crate::date::ymd_hms_of(t)),
        None => match crate::date::chrono_parse_ymd(s) {
            Some(t) => Some(
                DateTime { date: crate::date::ymd_of(t), hour: 0, minute: 0, second: 0 },
            ),
            None => None,
        },
    }
}

/// Reads a stored date.
pub fn parse_date(s: &str) -> (r: Option<Date>)
    ensures
        r == spec_parse_date(s@),
        r matches Some(d) ==> d.wf(),
{
    parse_ymd(s)
}

/// Reads a stored date-time; a date alone is read as midnight.
pub fn parse_datetime(s: &str) -> (r: Option<DateTime>)
    ensures
        r == spec_parse_datetime(s@),
        r matches Some(d) ==> d.wf(),
{
    match parse_ymd_hms(s) {
        Some(t) => Some(t),
        None => match parse_ymd(s) {
            Some(d) => Some(DateTime { date: d, hour: 0, minute: 0, second: 0 }),
            None => None,
        },
    }
}

pub open spec fn opt_parse_date(s: Option<&str>) -> Option<Option<Date>> {
    match s {
        None => Some(None),
        Some(x) => match spec_parse_date(x@) {
            Some(d) => Some(Some(d)),
            None => None,
        },
    }
}

pub open spec fn opt_parse_datetime(s: Option<&str>) -> Option<Option<DateTime>> {
    match s {
        None => Some(None),
        Some(x) => match spec_parse_datetime(x@) {
            Some(d) => Some(Some(d)),
            None => None,
        },
    }
}

/// Whether `row_to_task` accepts the stored values.
pub open spec fn row_ok(
    id: i64,
    title: Seq<char>,
    project_id: Option<i64>,
    due: Option<&str>,
    done_at: Option<&str>,
    created: Seq<char>,
    updated: Seq<char>,
    important: i64,
) -> bool {
    &&& 0 <= id <= u32::MAX
    &&& (project_id matches Some(p) ==> 0 <= p <= u32::MAX)
    &&& i32::MIN <= important <= i32::MAX
    &&& opt_parse_date(due) is Some
    &&& opt_parse_datetime(done_at) is Some
    &&& spec_parse_datetime(created) is Some
    &&& spec_parse_datetime(updated) is Some
    &&& title.len() < usize::MAX
}

/// A task row read from stored values: integers must fit their types, dates
/// and date-times must parse, and any status other than "done" or "closed"
/// reads as open.
pub fn row_to_task(
    id: i64,
    title: String,
    status: &str,
    source: String,
    project_id: Option<i64>,
    due: Option<&str>,
    done_at: Option<&str>,
    created: &str,
    updated: &str,
    important: i64,
) -> (r: Option<TaskRecord>)
    ensures
        r is Some <==> row_ok(id, title@, project_id, due, done_at, created@, updated@, important),
        r matches Some(t) ==> {
            &&& t.id == id
            &&& t@.title == title@
            &&& t.status == status_of_text(status@)
            &&& t@.source == source@
            &&& t.project_id == (match project_id {
                Some(p) => Some(p as u32),
                None => None::<u32>,
            })
            &&& Some(t.due) == opt_parse_date(due)
            &&& Some(t.done_at) == opt_parse_datetime(done_at)
            &&& Some(t.created) == spec_parse_datetime(created@)
            &&& Some(t.updated) == spec_parse_datetime(updated@)
            &&& t.important == (important != 0)
            &&& task_row_wf(t@)
        },
{
    if id < 0 || id > 4294967295i64 || important < -2147483648i64 || important > 2147483647i64 {
        return None;
    }
    let pid: Option<u32> = match project_id {
        Some(p) => {
            if p < 0 || p > 4294967295i64 {
                return None;
            }
            Some(p as u32)
        },
        None => None,
    };
    let due_d: Option<Date> = match due {
        Some(s) => match parse_date(s) {
            Some(d) => Some(d),
            None => {
                return None;
            },
        },
        None => None,
    };
    let done_d: Option<DateTime> = match done_at {
        Some(s) => match parse_datetime(s) {
            Some(d) => Some(d),
            None => {
                return None;
            },
        },
        None => None,
    };
    let created_d = match parse_datetime(created) {
        Some(d) => d,
        None => {
            return None;
        },
    };
    let updated_d = match parse_datetime(updated) {
        Some(d) => d,
        None => {
            return None;
        },
    };
    if chars_of(title.as_str()).len() == usize::MAX {
        return None;
    }
    Some(
        TaskRecord {
            id: id as u32,
            title,
            status: crate::model::Status::from_str(status),
            source,
            project_id: pid,
            due: due_d,
            done_at: done_d,
            created: created_d,
            updated: updated_d,
            important: important != 0,
        },
    )
}

// ----- migrating a file of the older layout -----

/// The project an older file's task names: none when the name is empty.
pub open spec fn legacy_name(n: Option<Seq<char>>) -> Option<Seq<char>> {
    match n {
        Some(x) => if x.len() > 0 {
            Some(x)
        } else {
            None
        },
        None => None,
    }
}

pub open spec fn project_rows(ps: Seq<ProjectRecord>) -> Seq<ProjectRow> {
    ps.map_values(|p: ProjectRecord| p@)
}

pub open spec fn name_views(names: Seq<Option<String>>) -> Seq<Option<Seq<char>>> {
    names.map_values(|n: Option<String>| opt_view(n))
}

pub open spec fn project_names(ps: Seq<ProjectRow>) -> Seq<Seq<char>> {
    ps.map_values(|p: ProjectRow| p.name)
}

/// The projects after moving an older file's task projects into the projects
/// table: the projects `ps` there already, then each non-empty name not yet
/// among them, once, in order of first appearance, numbered from `next` on,
/// without a category.
pub open spec fn migrated_projects(ps: Seq<ProjectRow>, next: int, names: Seq<Option<Seq<char>>>) -> Seq<ProjectRow>
    decreases names.len(),
{
    if names.len() == 0 {
        ps
    } else {
        let prev = migrated_projects(ps, next, names.drop_last());
        match legacy_name(names.last()) {
            Some(x) => if project_names(prev).contains(x) {
                prev
            } else {
                prev.push(ProjectRow { id: (next + prev.len() - ps.len()) as u32, name: x, category: None })
            },
            None => prev,
        }
    }
}

/// The project id an older file's task gets: that of the project with its
/// name, none when it names none.
pub open spec fn migrated_id(ps: Seq<ProjectRow>, n: Option<Seq<char>>, id: Option<u32>) -> bool {
    match legacy_name(n) {
        None => id is None,
        Some(x) => id matches Some(k) && exists|j: int| 0 <= j < ps.len() && ps[j].name == x && ps[j].id == k,
    }
}

pub open spec fn names_distinct(ps: Seq<ProjectRow>) -> bool {
    forall|a: int, b: int| 0 <= a < b < ps.len() ==> ps[a].name != ps[b].name
}

proof fn lemma_migrated_grows(ps: Seq<ProjectRow>, next: int, names: Seq<Option<Seq<char>>>, k: int)
    requires
        0 <= k <= names.len(),
    ensures
        migrated_projects(ps, next, names.subrange(0, k)).len() <= migrated_projects(ps, next, names).len(),
        ps.len() <= migrated_projects(ps, next, names).len(),
        forall|j: int|
            0 <= j < migrated_projects(ps, next, names.subrange(0, k)).len() ==> #[trigger] migrated_projects(
                ps,
                next,
                names,
            )[j] == migrated_projects(ps, next, names.subrange(0, k))[j],
    decreases names.len() - k,
{
    if k == names.len() {
        assert(names.subrange(0, k) =~= names);
        lemma_migrated_prefix_keeps(ps, next, names);
    } else {
        lemma_migrated_grows(ps, next, names.drop_last(), k);
        assert(names.drop_last().subrange(0, k) =~= names.subrange(0, k));
        lemma_migrated_prefix_keeps(ps, next, names);
    }
}

proof fn lemma_migrated_prefix_keeps(ps: Seq<ProjectRow>, next: int, names: Seq<Option<Seq<char>>>)
    ensures
        ps.len() <= migrated_projects(ps, next, names).len(),
        names.len() > 0 ==> migrated_projects(ps, next, names.drop_last()).len() <= migrated_projects(
            ps,
            next,
            names,
        ).len(),
        names.len() > 0 ==> forall|j: int|
            0 <= j < migrated_projects(ps, next, names.drop_last()).len() ==> #[trigger] migrated_projects(
                ps,
                next,
                names,
            )[j] == migrated_projects(ps, next, names.drop_last())[j],
        forall|j: int| 0 <= j < ps.len() ==> #[trigger] migrated_projects(ps, next, names)[j] == ps[j],
    decreases names.len(),
{
    if names.len() > 0 {
        lemma_migrated_prefix_keeps(ps, next, names.drop_last());
    }
}

/// Every non-empty name of an older file's tasks is a project afterwards.
proof fn lemma_migrated_has_names(ps: Seq<ProjectRow>, next: int, names: Seq<Option<Seq<char>>>, i: int)
    requires
        0 <= i < names.len(),
        legacy_name(names[i]) is Some,
    ensures
        project_names(migrated_projects(ps, next, names)).contains(legacy_name(names[i])->0),
    decreases names.len(),
{
    let prev = migrated_projects(ps, next, names.drop_last());
    let full = migrated_projects(ps, next, names);
    lemma_migrated_prefix_keeps(ps, next, names);
    let x = legacy_name(names[i])->0;
    let j: int = if i < names.len() - 1 {
        lemma_migrated_has_names(ps, next, names.drop_last(), i);
        choose|j: int| 0 <= j < project_names(prev).len() && project_names(prev)[j] == x
    } else if project_names(prev).contains(x) {
        choose|j: int| 0 <= j < project_names(prev).len() && project_names(prev)[j] == x
    } else {
        prev.len() as int
    };
    if j < prev.len() {
        assert(full[j] == prev[j]);
    }
    assert(project_names(full)[j] == x);
}

/// Moves the project names that an older file keeps on its tasks into the
/// projects table: returns the projects afterwards, the next project id, and
/// each task's project id; none when project ids run out.
pub fn migrate_legacy_projects(
    projects: Vec<ProjectRecord>,
    next_project_id: u32,
    names: &[Option<String>],
) -> (r: Option<(Vec<ProjectRecord>, u32, Vec<Option<u32>>)>)
    requires
        names_distinct(project_rows(projects@)),
    ensures
        ({
            let ps = project_rows(projects@);
            let want = migrated_projects(ps, next_project_id as int, name_views(names@));
            &&& r is None <==> next_project_id + (want.len() - ps.len()) > u32::MAX
            &&& r matches Some(t) ==> {
                &&& project_rows(t.0@) == want
                &&& t.1 == next_project_id + (want.len() - ps.len())
                &&& names_distinct(want)
                &&& t.2@.len() == names@.len()
                &&& forall|i: int| 0 <= i < names@.len() ==> migrated_id(want, opt_view(#[trigger] names@[i]), t.2@[i])
            }
        }),
{
    let ghost ps = project_rows(projects@);
    let ghost nv = name_views(names@);
    let ghost next = next_project_id as int;
    let base: usize = projects.len();
    let mut out = projects;
    let mut next_id: u64 = next_project_id as u64;
    let mut i: usize = 0;
    while i < names.len()
        invariant
            0 <= i <= names.len(),
            base == ps.len(),
            ps == project_rows(projects@),
            next == next_project_id as int,
            nv == name_views(names@),
            project_rows(out@) == migrated_projects(ps, next, nv.subrange(0, i as int)),
            names_distinct(project_rows(out@)),
            next_id == next + (out@.len() - base),
            next_id <= u32::MAX,
            ps.len() <= out@.len(),
        decreases names.len() - i,
    {
        let ghost before = project_rows(out@);
        proof {
            assert(nv.subrange(0, i + 1).drop_last() =~= nv.subrange(0, i as int));
            assert(nv.subrange(0, i + 1).last() == nv[i as int]);
            assert(nv[i as int] == opt_view(names@[i as int]));
        }
        match &names[i] {
            Some(name) => {
                if crate::text::chars_of(name.as_str()).len() > 0 {
                    let mut found = false;
                    let mut j: usize = 0;
                    while j < out.len()
                        invariant
                            j <= out@.len(),
                            before == project_rows(out@),
                            !found ==> forall|k: int| 0 <= k < j ==> before[k].name != name@,
                            found ==> project_names(before).contains(name@),
                        decreases out@.len() - j,
                    {
                        if crate::text::str_eq(out[j].name.as_str(), name.as_str()) {
                            found = true;
                            assert(project_names(before)[j as int] == name@);
                        }
                        j = j + 1;
                    }
                    if !found {
                        proof {
                            assert(!project_names(before).contains(name@)) by {
                                if project_names(before).contains(name@) {
                                    let k = choose|k: int| 0 <= k < project_names(before).len() && project_names(before)[k] == name@;
                                    assert(before[k].name == name@);
                                }
                            }
                        }
                        if next_id >= u32::MAX as u64 {
                            proof {
                                let s = nv.subrange(0, i + 1);
                                assert(s.drop_last() =~= nv.subrange(0, i as int));
                                assert(legacy_name(s.last()) == Some(name@));
                                assert(migrated_projects(ps, next, s) == before.push(
                                    ProjectRow { id: (next + before.len() - ps.len()) as u32, name: name@, category: None },
                                ));
                                lemma_migrated_grows(ps, next, nv, i + 1);
                            }
                            return None;
                        }
                        out.push(ProjectRecord { id: next_id as u32, name: name.clone(), category: None });
                        next_id = next_id + 1;
                        proof {
                            let after = project_rows(out@);
                            assert(after =~= before.push(ProjectRow { id: (next + before.len() - ps.len()) as u32, name: name@, category: None }));
                        }
                    } else {
                        proof {
                            assert(project_rows(out@) =~= before);
                        }
                    }
                }
            },
            None => {},
        }
        i = i + 1;
    }
    proof {
        assert(nv.subrange(0, names@.len() as int) =~= nv);
    }
    let ghost want = project_rows(out@);
    let mut ids: Vec<Option<u32>> = Vec::new();
    let mut k: usize = 0;
    while k < names.len()
        invariant
            k <= names.len(),
            want == project_rows(out@),
            want == migrated_projects(ps, next, nv),
            nv == name_views(names@),
            ids@.len() == k,
            forall|m: int| 0 <= m < k ==> migrated_id(want, opt_view(#[trigger] names@[m]), ids@[m]),
        decreases names.len() - k,
    {
        let mut id: Option<u32> = None;
        match &names[k] {
            Some(name) => {
                if crate::text::chars_of(name.as_str()).len() > 0 {
                    let mut j: usize = 0;
                    while j < out.len()
                        invariant
                            j <= out@.len(),
                            want == project_rows(out@),
                            id matches Some(v) ==> exists|q: int| 0 <= q < want.len() && want[q].name == name@ && want[q].id == v,
                            id is None ==> forall|q: int| 0 <= q < j ==> want[q].name != name@,
                        decreases out@.len() - j,
                    {
                        if id.is_none() && crate::text::str_eq(out[j].name.as_str(), name.as_str()) {
                            id = Some(out[j].id);
                            assert(want[j as int].name == name@ && want[j as int].id == out@[j as int].id);
                        }
                        j = j + 1;
                    }
                    proof {
                        assert(nv[k as int] == opt_view(names@[k as int]));
                        lemma_migrated_has_names(ps, next, nv, k as int);
                        if id is None {
                            let q = choose|q: int| 0 <= q < project_names(want).len() && project_names(want)[q] == name@;
                            assert(want[q].name == name@);
                        }
                    }
                }
            },
            None => {},
        }
        ids.push(id);
        k = k + 1;
    }
    Some((out, next_id as u32, ids))
}

/// The `important` value a task of an older file gets: its stored value when
/// the file has the column (0 when the value is missing), else 0.
pub fn legacy_important(has_column: bool, value: Option<i64>) -> (r: i64)
    ensures
        r == (if has_column {
            match value {
                Some(v) => v,
                None => 0,
            }
        } else {
            0
        }),
{
    if has_column {
        match value {
            Some(v) => v,
            None => 0,
        }
    } else {
        0
    }
}

} // verus!
