//! Laws of the task store: what a read gives back after each kind of write.
use vstd::prelude::*;
use crate::date::{Date, DateTime};
use crate::model::{SortKey, SortOrder, Status, TaskInfo};
use crate::order::{sorted_tasks, task_before, keys_ord_from, key_ord};
use crate::db::{DbState, TaskRow, ProjectRow, RemindRecord, add_ok, has_project_id, has_project_named, has_task, needs_new_project, normalized_category, project_of, project_pos_named, remind_dates, remind_gone, row_info, spec_add_remind, spec_add_task, spec_close_task, spec_complete_task, spec_find_task, spec_resolve_project, spec_set_project_category, spec_update_task, task_pos, update_ok, with_task_row, count_status};
use crate::text::trimmed;
use crate::keyword::{contains_text, holds_at};
use crate::text::ascii_fold;

verus! {

/// The project name a task gets when it is added or moved with `project`.
pub open spec fn resolved_name(project: Option<Seq<char>>) -> Option<Seq<char>> {
    match project {
        Some(p) => if trimmed(p).len() > 0 {
            Some(trimmed(p))
        } else {
            None
        },
        None => None,
    }
}

/// Resolving a project name keeps the tasks and reminders and yields the
/// project with the trimmed name.
pub proof fn lemma_resolve(s: DbState, project: Option<Seq<char>>)
    requires
        s.wf(),
        needs_new_project(s, project) ==> s.next_project_id < u32::MAX,
    ensures
        ({
            let (s1, pid) = spec_resolve_project(s, project);
            &&& s1.tasks == s.tasks
            &&& s1.reminds == s.reminds
            &&& s1.next_task_id == s.next_task_id
            &&& s1.next_remind_id == s.next_remind_id
            &&& (forall|j: int| 0 <= j < s.projects.len() ==> s1.projects[j] == s.projects[j])
            &&& s.projects.len() <= s1.projects.len()
            &&& forall|a: int, b: int|
                0 <= a < b < s1.projects.len() ==> s1.projects[a].id < s1.projects[b].id
            &&& forall|a: int| 0 <= a < s1.projects.len() ==> s1.projects[a].id < s1.next_project_id
            &&& forall|a: int, b: int|
                0 <= a < b < s1.projects.len() ==> s1.projects[a].name != s1.projects[b].name
            &&& (pid is Some <==> resolved_name(project) is Some)
            &&& (pid matches Some(x) ==> has_project_id(s1.projects, x) && project_of(
                s1.projects,
                x,
            ).name == resolved_name(project)->0)
        }),
{
    let (s1, pid) = spec_resolve_project(s, project);
    match project {
        Some(p) => {
            let name = trimmed(p);
            if name.len() > 0 {
                if has_project_named(s.projects, name) {
                    let j = project_pos_named(s.projects, name);
                    lemma_project_of_pos(s1.projects, s1.projects[j].id, j);
                } else {
                    let j = s.projects.len() as int;
                    assert forall|a: int, b: int| 0 <= a < b < s1.projects.len() implies s1.projects[a].name
                        != s1.projects[b].name by {
                        if b == j {
                            assert(s.projects[a].name != name);
                        }
                    }
                    lemma_project_of_pos(s1.projects, s.next_project_id, j);
                }
            }
        },
        None => {},
    }
}

/// With increasing project ids, the project with an id is the one at its
/// position.
pub proof fn lemma_project_of_pos(ps: Seq<ProjectRow>, pid: u32, j: int)
    requires
        forall|a: int, b: int| 0 <= a < b < ps.len() ==> ps[a].id < ps[b].id,
        0 <= j < ps.len(),
        ps[j].id == pid,
    ensures
        has_project_id(ps, pid),
        project_of(ps, pid) == ps[j],
{
    let k = choose|k: int| 0 <= k < ps.len() && ps[k].id == pid;
    if k < j {
        assert(ps[k].id < ps[j].id);
    } else if k > j {
        assert(ps[j].id < ps[k].id);
    }
}

/// With increasing task ids, the task with an id is the one at its position.
pub proof fn lemma_task_pos_at(ts: Seq<TaskRow>, id: u32, i: int)
    requires
        forall|a: int, b: int| 0 <= a < b < ts.len() ==> ts[a].id < ts[b].id,
        0 <= i < ts.len(),
        ts[i].id == id,
    ensures
        has_task(ts, id),
        task_pos(ts, id) == i,
{
    let k = task_pos(ts, id);
    assert(0 <= k < ts.len() && ts[k].id == id);
    if k < i {
        assert(ts[k].id < ts[i].id);
    } else if k > i {
        assert(ts[i].id < ts[k].id);
    }
}

/// Finding a task just added gives it back: open, source "private", created
/// and updated at `now`, with the trimmed project name (none for a blank
/// one), no completion time and no reminders.
pub proof fn law_find_after_add(
    s: DbState,
    title: Seq<char>,
    project: Option<Seq<char>>,
    due: Option<Date>,
    now: DateTime,
    important: bool,
)
    requires
        s.wf(),
        add_ok(s, project),
    ensures
        spec_find_task(spec_add_task(s, title, project, due, now, important), s.next_task_id)
            == Some(
            TaskInfo {
                id: s.next_task_id,
                title,
                status: Status::Open,
                source: "private"@,
                created: now,
                project: resolved_name(project),
                due,
                done_at: None,
                updated: now,
                reminds: Seq::empty(),
                important,
            },
        ),
{
    lemma_resolve(s, project);
    let (s1, pid) = spec_resolve_project(s, project);
    let s2 = spec_add_task(s, title, project, due, now, important);
    let i = s.tasks.len() as int;
    assert forall|a: int, b: int| 0 <= a < b < s2.tasks.len() implies s2.tasks[a].id
        < s2.tasks[b].id by {
        if b == i {
            assert(s.tasks[a].id < s.next_task_id);
        }
    }
    lemma_task_pos_at(s2.tasks, s.next_task_id, i);
    let info = row_info(s2, s2.tasks[i]);
    assert(info.project == resolved_name(project));
}

/// A task is added under an id no task had before: larger than every id in
/// the store, so ids are never reused.
pub proof fn law_added_id_is_new(
    s: DbState,
    title: Seq<char>,
    project: Option<Seq<char>>,
    due: Option<Date>,
    now: DateTime,
    important: bool,
)
    requires
        s.wf(),
        add_ok(s, project),
    ensures
        !has_task(s.tasks, s.next_task_id),
        forall|i: int| 0 <= i < s.tasks.len() ==> s.tasks[i].id < s.next_task_id,
        spec_add_task(s, title, project, due, now, important).tasks.last().id == s.next_task_id,
        spec_add_task(s, title, project, due, now, important).next_task_id > s.next_task_id,
{
    lemma_resolve(s, project);
}

/// Adding a task changes no other task.
pub proof fn law_add_keeps_others(
    s: DbState,
    title: Seq<char>,
    project: Option<Seq<char>>,
    due: Option<Date>,
    now: DateTime,
    important: bool,
    id: u32,
)
    requires
        s.wf(),
        add_ok(s, project),
        id != s.next_task_id,
    ensures
        spec_find_task(spec_add_task(s, title, project, due, now, important), id)
            == spec_find_task(s, id),
{
    lemma_resolve(s, project);
    let (s1, pid) = spec_resolve_project(s, project);
    let s2 = spec_add_task(s, title, project, due, now, important);
    let n = s.tasks.len() as int;
    assert forall|a: int, b: int| 0 <= a < b < s2.tasks.len() implies s2.tasks[a].id
        < s2.tasks[b].id by {
        if b == n {
            assert(s.tasks[a].id < s.next_task_id);
        }
    }
    if has_task(s.tasks, id) {
        let i = task_pos(s.tasks, id);
        lemma_task_pos_at(s2.tasks, id, i);
        let t = s.tasks[i];
        assert(s2.tasks[i] == t);
        match t.project_id {
            Some(pid0) => {
                let j = choose|j: int| 0 <= j < s.projects.len() && s.projects[j].id == pid0;
                lemma_project_of_pos(s.projects, pid0, j);
                lemma_project_of_pos(s2.projects, pid0, j);
            },
            None => {},
        }
    } else {
        assert(!has_task(s2.tasks, id)) by {
            if has_task(s2.tasks, id) {
                let k = choose|k: int| 0 <= k < s2.tasks.len() && s2.tasks[k].id == id;
                assert(k < n);
                assert(s.tasks[k].id == id);
            }
        }
    }
}

/// Changing one row of a task leaves lookups of it well defined.
proof fn lemma_with_row(s: DbState, id: u32, row: TaskRow)
    requires
        s.wf(),
        has_task(s.tasks, id),
        row.id == id,
    ensures
        has_task(with_task_row(s, id, row).tasks, id),
        task_pos(with_task_row(s, id, row).tasks, id) == task_pos(s.tasks, id),
        with_task_row(s, id, row).tasks[task_pos(s.tasks, id)] == row,
        with_task_row(s, id, row).projects == s.projects,
{
    let i = task_pos(s.tasks, id);
    let s2 = with_task_row(s, id, row);
    assert forall|a: int, b: int| 0 <= a < b < s2.tasks.len() implies s2.tasks[a].id
        < s2.tasks[b].id by {
        assert(s2.tasks[a].id == s.tasks[a].id);
        assert(s2.tasks[b].id == s.tasks[b].id);
    }
    lemma_task_pos_at(s2.tasks, id, i);
}

/// Replacing the row of task `id` leaves every other task as it was.
proof fn lemma_with_row_keeps_others(s: DbState, id: u32, row: TaskRow, other: u32)
    requires
        forall|a: int, b: int| 0 <= a < b < s.tasks.len() ==> s.tasks[a].id < s.tasks[b].id,
        has_task(s.tasks, id) ==> row.id == id,
        other != id,
    ensures
        spec_find_task(with_task_row(s, id, row), other) == spec_find_task(s, other),
{
    let s2 = with_task_row(s, id, row);
    if has_task(s.tasks, id) {
        let i = task_pos(s.tasks, id);
        assert forall|a: int, b: int| 0 <= a < b < s2.tasks.len() implies s2.tasks[a].id
            < s2.tasks[b].id by {
            assert(s2.tasks[a].id == s.tasks[a].id);
            assert(s2.tasks[b].id == s.tasks[b].id);
        }
        if has_task(s.tasks, other) {
            let k = task_pos(s.tasks, other);
            assert(k != i);
            assert(s2.tasks[k] == s.tasks[k]);
            lemma_task_pos_at(s2.tasks, other, k);
        } else {
            assert(!has_task(s2.tasks, other)) by {
                if has_task(s2.tasks, other) {
                    let k = choose|k: int| 0 <= k < s2.tasks.len() && s2.tasks[k].id == other;
                    assert(k != i);
                    assert(s.tasks[k].id == other);
                }
            }
        }
    }
}

/// Completing a task changes no other task.
pub proof fn law_complete_keeps_others(s: DbState, id: u32, now: DateTime, other: u32)
    requires
        s.wf(),
        other != id,
    ensures
        spec_find_task(spec_complete_task(s, id, now), other) == spec_find_task(s, other),
{
    let t = s.tasks[task_pos(s.tasks, id)];
    if has_task(s.tasks, id) {
        assert(t.id == id);
    }
    lemma_with_row_keeps_others(
        s,
        id,
        TaskRow { status: Status::Done, done_at: Some(now), updated: now, ..t },
        other,
    );
}

/// Closing a task changes no other task.
pub proof fn law_close_keeps_others(s: DbState, id: u32, now: DateTime, other: u32)
    requires
        s.wf(),
        other != id,
    ensures
        spec_find_task(spec_close_task(s, id, now), other) == spec_find_task(s, other),
{
    let t = s.tasks[task_pos(s.tasks, id)];
    if has_task(s.tasks, id) {
        assert(t.id == id);
    }
    lemma_with_row_keeps_others(s, id, TaskRow { status: Status::Closed, updated: now, ..t }, other);
}

/// Completing a task marks it done with its completion time and update time
/// both `now`; nothing else of it changes.
pub proof fn law_complete_then_find(s: DbState, id: u32, now: DateTime)
    requires
        s.wf(),
        has_task(s.tasks, id),
    ensures
        ({
            let before = spec_find_task(s, id)->0;
            spec_find_task(spec_complete_task(s, id, now), id) == Some(
                TaskInfo { status: Status::Done, done_at: Some(now), updated: now, ..before },
            )
        }),
{
    let t = s.tasks[task_pos(s.tasks, id)];
    lemma_with_row(
        s,
        id,
        TaskRow { status: Status::Done, done_at: Some(now), updated: now, ..t },
    );
}

/// Closing a task marks it closed, updated at `now`; nothing else of it
/// changes.
pub proof fn law_close_then_find(s: DbState, id: u32, now: DateTime)
    requires
        s.wf(),
        has_task(s.tasks, id),
    ensures
        ({
            let before = spec_find_task(s, id)->0;
            spec_find_task(spec_close_task(s, id, now), id) == Some(
                TaskInfo { status: Status::Closed, updated: now, ..before },
            )
        }),
{
    let t = s.tasks[task_pos(s.tasks, id)];
    lemma_with_row(s, id, TaskRow { status: Status::Closed, updated: now, ..t });
}

/// Updating a task sets exactly the given fields and the update time; the
/// project becomes the trimmed name given (none for a blank one).
pub proof fn law_update_then_find(
    s: DbState,
    id: u32,
    title: Option<Seq<char>>,
    project: Option<Seq<char>>,
    due: Option<Date>,
    now: DateTime,
    important: Option<bool>,
)
    requires
        s.wf(),
        has_task(s.tasks, id),
        update_ok(s, project),
    ensures
        ({
            let before = spec_find_task(s, id)->0;
            spec_find_task(spec_update_task(s, id, title, project, due, now, important), id)
                == Some(
                TaskInfo {
                    title: match title {
                        Some(x) => x,
                        None => before.title,
                    },
                    project: if project is Some {
                        resolved_name(project)
                    } else {
                        before.project
                    },
                    due: match due {
                        Some(d) => Some(d),
                        None => before.due,
                    },
                    important: match important {
                        Some(b) => b,
                        None => before.important,
                    },
                    updated: now,
                    ..before
                },
            )
        }),
{
    lemma_resolve(s, project);
    let (s1, pid) = spec_resolve_project(s, project);
    let i = task_pos(s.tasks, id);
    let t = s1.tasks[task_pos(s1.tasks, id)];
    assert(s1.tasks == s.tasks);
    let row = TaskRow {
        title: match title {
            Some(x) => x,
            None => t.title,
        },
        project_id: if project is Some {
            pid
        } else {
            t.project_id
        },
        due: match due {
            Some(d) => Some(d),
            None => t.due,
        },
        important: match important {
            Some(b) => b,
            None => t.important,
        },
        updated: now,
        ..t
    };
    let s2 = spec_update_task(s, id, title, project, due, now, important);
    assert(s2 == with_task_row(s1, id, row));
    assert forall|a: int, b: int| 0 <= a < b < s2.tasks.len() implies s2.tasks[a].id
        < s2.tasks[b].id by {
        assert(s2.tasks[a].id == s.tasks[a].id);
        assert(s2.tasks[b].id == s.tasks[b].id);
    }
    lemma_task_pos_at(s2.tasks, id, i);
    assert(s2.tasks[i] == row);
    if project is None {
        match t.project_id {
            Some(pid0) => {
                let j = choose|j: int| 0 <= j < s.projects.len() && s.projects[j].id == pid0;
                lemma_project_of_pos(s.projects, pid0, j);
                lemma_project_of_pos(s2.projects, pid0, j);
            },
            None => {},
        }
    }
}

/// Updating a task changes no other task, even when it adds the project it
/// names.
pub proof fn law_update_keeps_others(
    s: DbState,
    id: u32,
    title: Option<Seq<char>>,
    project: Option<Seq<char>>,
    due: Option<Date>,
    now: DateTime,
    important: Option<bool>,
    other: u32,
)
    requires
        s.wf(),
        update_ok(s, project),
        other != id,
    ensures
        spec_find_task(spec_update_task(s, id, title, project, due, now, important), other)
            == spec_find_task(s, other),
{
    lemma_resolve(s, project);
    let (s1, pid) = spec_resolve_project(s, project);
    let t = s1.tasks[task_pos(s1.tasks, id)];
    let row = TaskRow {
        title: match title {
            Some(x) => x,
            None => t.title,
        },
        project_id: if project is Some {
            pid
        } else {
            t.project_id
        },
        due: match due {
            Some(d) => Some(d),
            None => t.due,
        },
        important: match important {
            Some(b) => b,
            None => t.important,
        },
        updated: now,
        ..t
    };
    assert(spec_update_task(s, id, title, project, due, now, important) == with_task_row(s1, id, row));
    lemma_with_row_keeps_others(s1, id, row, other);
    // Resolving the project name keeps the other task and its project's name.
    if has_task(s.tasks, other) {
        let k = task_pos(s.tasks, other);
        match s.tasks[k].project_id {
            Some(pid0) => {
                let j = choose|j: int| 0 <= j < s.projects.len() && s.projects[j].id == pid0;
                lemma_project_of_pos(s.projects, pid0, j);
                lemma_project_of_pos(s1.projects, pid0, j);
            },
            None => {},
        }
    }
}

/// A reminder just added is the last reminder date of its task.
pub proof fn law_remind_dates_after_add(s: DbState, task_id: u32, remind_at: Date)
    ensures
        remind_dates(spec_add_remind(s, task_id, remind_at), task_id) == remind_dates(
            s,
            task_id,
        ).push(remind_at),
{
    let s2 = spec_add_remind(s, task_id, remind_at);
    let pred = |r: RemindRecord| r.task_id == task_id;
    reveal_with_fuel(Seq::filter, 1);
    assert(s2.reminds.drop_last() =~= s.reminds);
    assert(s2.reminds.filter(pred) == s.reminds.filter(pred).push(s2.reminds.last()));
    assert(remind_dates(s2, task_id) =~= remind_dates(s, task_id).push(remind_at));
}

/// The tables after adding the reminders `rs` to task `task_id`, one after
/// another.
pub open spec fn spec_add_reminds(s: DbState, task_id: u32, rs: Seq<Date>) -> DbState
    decreases rs.len(),
{
    if rs.len() == 0 {
        s
    } else {
        spec_add_remind(spec_add_reminds(s, task_id, rs.drop_last()), task_id, rs.last())
    }
}

/// Adding several reminders to a task appends them, in the order added, to
/// its reminder dates, duplicates kept; so a task that had none holds exactly
/// the added dates (which `get_reminds_for_task` returns sorted).
pub proof fn law_reminds_after_adds(s: DbState, task_id: u32, rs: Seq<Date>)
    ensures
        remind_dates(spec_add_reminds(s, task_id, rs), task_id) == remind_dates(s, task_id) + rs,
        remind_dates(s, task_id).len() == 0 ==> remind_dates(spec_add_reminds(s, task_id, rs), task_id).to_multiset()
            == rs.to_multiset(),
    decreases rs.len(),
{
    if rs.len() == 0 {
        assert(remind_dates(s, task_id) + rs =~= remind_dates(s, task_id));
    } else {
        let prev = spec_add_reminds(s, task_id, rs.drop_last());
        law_reminds_after_adds(s, task_id, rs.drop_last());
        law_remind_dates_after_add(prev, task_id, rs.last());
        assert((remind_dates(s, task_id) + rs.drop_last()).push(rs.last()) =~= remind_dates(s, task_id) + rs);
    }
    if remind_dates(s, task_id).len() == 0 {
        assert(remind_dates(s, task_id) + rs =~= rs);
    }
}

/// After deleting a task's reminders it has none left.
pub proof fn law_no_reminds_after_delete(s: DbState, task_id: u32)
    ensures
        remind_dates(
            DbState {
                reminds: s.reminds.filter(|r: RemindRecord| !remind_gone(r, task_id, None)),
                ..s
            },
            task_id,
        ).len() == 0,
{
    let kept = s.reminds.filter(|r: RemindRecord| !remind_gone(r, task_id, None));
    let pred = |r: RemindRecord| r.task_id == task_id;
    broadcast use vstd::seq_lib::group_filter_ensures;
    assert(kept.filter(pred).len() == 0) by {
        if kept.filter(pred).len() > 0 {
            let x = kept.filter(pred)[0];
            assert(pred(x));
            lemma_filter_from(kept, pred, 0);
            let j = choose|j: int| 0 <= j < kept.len() && kept[j] == x;
            assert(!remind_gone(kept[j], task_id, None));
        }
    }
}

/// Every element of a filtered sequence is an element of the sequence.
pub proof fn lemma_filter_from<A>(s: Seq<A>, pred: spec_fn(A) -> bool, i: int)
    requires
        0 <= i < s.filter(pred).len(),
    ensures
        exists|j: int| 0 <= j < s.len() && s[j] == s.filter(pred)[i],
    decreases s.len(),
{
    reveal_with_fuel(Seq::filter, 1);
    if s.len() > 0 {
        let sub = s.drop_last().filter(pred);
        if i < sub.len() {
            lemma_filter_from(s.drop_last(), pred, i);
            let j = choose|j: int| 0 <= j < s.drop_last().len() && s.drop_last()[j] == sub[i];
            assert(s[j] == s.filter(pred)[i]);
        } else {
            assert(s[s.len() - 1] == s.filter(pred)[i]);
        }
    }
}

/// After deleting a task's reminders on a date, none of its reminders falls
/// on that date.
pub proof fn law_no_remind_on_deleted_date(s: DbState, task_id: u32, date: Date)
    ensures
        !remind_dates(
            DbState {
                reminds: s.reminds.filter(
                    |r: RemindRecord| !remind_gone(r, task_id, Some(date)),
                ),
                ..s
            },
            task_id,
        ).contains(date),
{
    let kept = s.reminds.filter(|r: RemindRecord| !remind_gone(r, task_id, Some(date)));
    let pred = |r: RemindRecord| r.task_id == task_id;
    let s2 = DbState { reminds: kept, ..s };
    broadcast use vstd::seq_lib::group_filter_ensures;
    if remind_dates(s2, task_id).contains(date) {
        let k = choose|k: int|
            0 <= k < remind_dates(s2, task_id).len() && remind_dates(s2, task_id)[k] == date;
        let x = kept.filter(pred)[k];
        assert(pred(x));
        lemma_filter_from(kept, pred, k);
        let j = choose|j: int| 0 <= j < kept.len() && kept[j] == x;
        assert(!remind_gone(kept[j], task_id, Some(date)));
    }
}

/// Setting a category of an existing project stores it trimmed (none when
/// blank); a missing project is left missing.
pub proof fn law_category_after_set(s: DbState, project: Seq<char>, category: Option<Seq<char>>)
    requires
        s.wf(),
    ensures
        has_project_named(s.projects, project) ==> ({
            let s2 = spec_set_project_category(s, project, category);
            &&& has_project_named(s2.projects, project)
            &&& s2.projects[project_pos_named(s2.projects, project)].category
                == normalized_category(category)
        }),
        !has_project_named(s.projects, project) ==> spec_set_project_category(
            s,
            project,
            category,
        ) == s,
{
    if has_project_named(s.projects, project) {
        let j = project_pos_named(s.projects, project);
        let s2 = spec_set_project_category(s, project, category);
        assert(s2.projects[j].name == project);
        let k = project_pos_named(s2.projects, project);
        if k != j {
            assert(s2.projects[k].name == s.projects[k].name);
            if k < j {
                assert(s.projects[k].name != s.projects[j].name);
            } else {
                assert(s.projects[j].name != s.projects[k].name);
            }
        }
    }
}

/// The counts of a project's open, done and closed tasks add up to the number
/// of its tasks.
pub proof fn law_counts_add_up(s: DbState, pid: u32)
    ensures
        count_status(s, pid, Status::Open) + count_status(s, pid, Status::Done) + count_status(
            s,
            pid,
            Status::Closed,
        ) == s.tasks.filter(|t: TaskRow| t.project_id == Some(pid)).len(),
{
    lemma_counts_prefix(s, pid, s.tasks.len() as int);
    assert(s.tasks.take(s.tasks.len() as int) =~= s.tasks);
}

proof fn lemma_counts_prefix(s: DbState, pid: u32, k: int)
    requires
        0 <= k <= s.tasks.len(),
    ensures
        s.tasks.take(k).filter(|t: TaskRow| t.project_id == Some(pid) && t.status == Status::Open).len()
            + s.tasks.take(k).filter(
            |t: TaskRow| t.project_id == Some(pid) && t.status == Status::Done,
        ).len() + s.tasks.take(k).filter(
            |t: TaskRow| t.project_id == Some(pid) && t.status == Status::Closed,
        ).len() == s.tasks.take(k).filter(|t: TaskRow| t.project_id == Some(pid)).len(),
    decreases k,
{
    reveal_with_fuel(Seq::filter, 1);
    if k > 0 {
        lemma_counts_prefix(s, pid, k - 1);
        assert(s.tasks.take(k).drop_last() =~= s.tasks.take(k - 1));
    } else {
        assert(s.tasks.take(0) =~= Seq::<TaskRow>::empty());
    }
}

/// A task whose title holds the keyword as written is found by a search that
/// admits its status and project.
pub proof fn law_search_finds_substring(keyword: Seq<char>, title: Seq<char>, at: int)
    requires
        0 <= at,
        at + keyword.len() <= title.len(),
        title.subrange(at, at + keyword.len()) == keyword,
    ensures
        contains_text(keyword, title),
{
    assert forall|m: int| 0 <= m < keyword.len() implies ascii_fold(#[trigger] title[at + m]) == ascii_fold(
        keyword[m],
    ) by {
        assert(title[at + m] == title.subrange(at, at + keyword.len())[m]);
    }
    assert(holds_at(keyword, title, at));
}

/// Search ignores the case of ASCII letters: a title holding the keyword with
/// other upper and lower case ASCII letters is found all the same.
pub proof fn law_search_ignores_ascii_case(keyword: Seq<char>, title: Seq<char>, at: int)
    requires
        0 <= at,
        at + keyword.len() <= title.len(),
        forall|m: int| 0 <= m < keyword.len() ==> ascii_fold(#[trigger] title[at + m]) == ascii_fold(keyword[m]),
    ensures
        contains_text(keyword, title),
{
    assert(holds_at(keyword, title, at));
}

/// Search reads the keyword as literal text: a keyword without ASCII letters,
/// such as "%" or "_", finds only titles that hold it exactly.
pub proof fn law_search_is_literal(keyword: Seq<char>, title: Seq<char>)
    requires
        forall|m: int| 0 <= m < keyword.len() ==> !('A' <= #[trigger] keyword[m] <= 'Z' || 'a' <= keyword[m] <= 'z'),
        contains_text(keyword, title),
    ensures
        exists|at: int| 0 <= at && at + keyword.len() <= title.len() && #[trigger] title.subrange(at, at + keyword.len()) == keyword,
{
    let at = choose|at: int| holds_at(keyword, title, at);
    assert(holds_at(keyword, title, at));
    assert(title.subrange(at, at + keyword.len()) =~= keyword) by {
        assert forall|m: int| 0 <= m < keyword.len() implies title.subrange(at, at + keyword.len())[m] == keyword[m] by {
            assert(ascii_fold(title[at + m]) == ascii_fold(keyword[m]));
        }
    }
}

/// In a list sorted first by due date, in either direction, the tasks without
/// a due date come after every task with one.
pub proof fn law_no_due_last(keys: Seq<SortKey>, order: SortOrder, s: Seq<TaskInfo>, i: int, j: int)
    requires
        keys.len() > 0,
        keys[0] == SortKey::Due,
        sorted_tasks(keys, order, s),
        0 <= i < j < s.len(),
        s[i].due is None,
    ensures
        s[j].due is None,
{
    assert(task_before(keys, order, s[i], s[j]));
    if s[j].due is Some {
        assert(key_ord(keys[0], order, s[i], s[j]) == 1);
        assert(keys_ord_from(keys, order, s[i], s[j], 0) == 1);
    }
}

/// In a list sorted first by project, in either direction, the tasks without
/// a project come after every task with one.
pub proof fn law_no_project_last(keys: Seq<SortKey>, order: SortOrder, s: Seq<TaskInfo>, i: int, j: int)
    requires
        keys.len() > 0,
        keys[0] == SortKey::Project,
        sorted_tasks(keys, order, s),
        0 <= i < j < s.len(),
        s[i].project is None,
    ensures
        s[j].project is None,
{
    assert(task_before(keys, order, s[i], s[j]));
    if s[j].project is Some {
        assert(key_ord(keys[0], order, s[i], s[j]) == 1);
        assert(keys_ord_from(keys, order, s[i], s[j], 0) == 1);
    }
}

} // verus!
