//! `edit`: changing one task from options, and applying an edited file to
//! the tasks it was written for.
use vstd::prelude::*;
use crate::commands::{
    Report, ReportView, chars_to_string, failure, fuzzy_fails, invalid_date_message,
    invalid_date_text, labeled_task_message, labeled_task_text, opt_fuzzy, report_error,
    report_line, success, task_error_message, task_error_text, write_failed_text,
};
use crate::commands::edit::yaml::{EditEntry, EntryView, entries_of, entries_view, entry_of};
use crate::date::{Date, DateTime, date_text, push_date_text};
use crate::date_parser::{fuzzy_date_on, parse_fuzzy_date_on};
use crate::db::{
    DbState, RemindRecord, RowQuery, TaskDb, add_remind, close_task, delete_remind,
    delete_reminds_for_task, find_task, has_remind_on, list_tasks, opt_str_view, remind_gone,
    selected, spec_add_remind, spec_close_task, spec_find_task, spec_update_task, update_ok,
    spec_clear_due, clear_due,
    update_task,
};
use crate::model::{SortKey, SortOrder, Task, TaskInfo, opt_view};
use crate::order::{infos, sorted_tasks};
use crate::text::{chars_of, decimal, push_decimal, push_str, str_eq};

use crate::db::{TaskRow, has_task, spec_resolve_project, task_pos};
use crate::laws::{law_update_then_find, lemma_resolve, lemma_task_pos_at, resolved_name};
use crate::text::trimmed;
pub mod yaml;

verus! {

/// Options of `edit`.
#[derive(Debug)]
pub struct EditArgs {
    /// The task to edit (optional with `interactive`).
    pub id: Option<u32>,
    pub title: Option<String>,
    pub project: Option<String>,
    /// New due date, "YYYY-MM-DD" or a fuzzy date.
    pub due: Option<String>,
    pub important: bool,
    pub no_important: bool,
    /// A reminder date to add.
    pub remind: Option<String>,
    /// A reminder date to remove.
    pub remove_remind: Option<String>,
    /// Remove all reminders.
    pub no_remind: bool,
    /// Edit in an editor instead.
    pub interactive: bool,
    /// With `interactive`: only tasks of this project.
    pub filter_project: Option<String>,
}

pub struct EditView {
    pub id: Option<u32>,
    pub title: Option<Seq<char>>,
    pub project: Option<Seq<char>>,
    pub due: Option<Seq<char>>,
    pub important: bool,
    pub no_important: bool,
    pub remind: Option<Seq<char>>,
    pub remove_remind: Option<Seq<char>>,
    pub no_remind: bool,
    pub interactive: bool,
    pub filter_project: Option<Seq<char>>,
}

impl View for EditArgs {
    type V = EditView;

    open spec fn view(&self) -> EditView {
        EditView {
            id: self.id,
            title: opt_view(self.title),
            project: opt_view(self.project),
            due: opt_view(self.due),
            important: self.important,
            no_important: self.no_important,
            remind: opt_view(self.remind),
            remove_remind: opt_view(self.remove_remind),
            no_remind: self.no_remind,
            interactive: self.interactive,
            filter_project: opt_view(self.filter_project),
        }
    }
}

pub open spec fn fields_text() -> Seq<char> {
    "Error: specify at least one field to edit (--title, --project, --due)"@
}

/// Whether the options ask for any change.
pub open spec fn asks_change(a: EditView) -> bool {
    a.title is Some || a.project is Some || a.due is Some || a.important || a.no_important
        || a.remind is Some || a.remove_remind is Some || a.no_remind
}

/// The first reason the options of the flag mode are refused, before the
/// task is looked up.
pub open spec fn flag_error(a: EditView, today: Date) -> Option<Seq<char>> {
    if a.id is None {
        Some("Error: task ID is required"@)
    } else if a.important && a.no_important {
        Some("Error: --important and --no-important cannot be used together"@)
    } else if a.no_remind && (a.remind is Some || a.remove_remind is Some) {
        Some("Error: --no-remind cannot be used with --remind or --remove-remind"@)
    } else if !asks_change(a) {
        Some(fields_text())
    } else if a.title == Some(Seq::<char>::empty()) {
        Some("Error: title cannot be empty"@)
    } else if fuzzy_fails(a.due, today) {
        Some(invalid_date_text("due"@, a.due->0))
    } else if fuzzy_fails(a.remind, today) {
        Some(invalid_date_text("remind"@, a.remind->0))
    } else if fuzzy_fails(a.remove_remind, today) {
        Some(invalid_date_text("remind"@, a.remove_remind->0))
    } else {
        None
    }
}

pub open spec fn important_flag(a: EditView) -> Option<bool> {
    if a.important {
        Some(true)
    } else if a.no_important {
        Some(false)
    } else {
        None
    }
}

/// Whether the options change a field of the task row.
pub open spec fn changes_row(a: EditView) -> bool {
    a.title is Some || a.project is Some || a.due is Some || important_flag(a) is Some
}

pub open spec fn without_reminds(s: DbState, id: u32, date: Option<Date>) -> DbState {
    DbState { reminds: s.reminds.filter(|r: RemindRecord| !remind_gone(r, id, date)), ..s }
}

/// The tables after the reminder removals: all of the task's reminders, then
/// those on the date to remove.
pub open spec fn after_removals(s: DbState, id: u32, a: EditView, today: Date) -> DbState {
    let s1 = if a.no_remind {
        without_reminds(s, id, None)
    } else {
        s
    };
    match a.remove_remind {
        Some(r) => without_reminds(s1, id, fuzzy_date_on(r, today)),
        None => s1,
    }
}

/// The row changes the options ask for, applied to task `id`.
pub open spec fn after_row_change(s: DbState, id: u32, a: EditView, now: DateTime) -> DbState {
    if changes_row(a) {
        spec_update_task(s, id, a.title, a.project, opt_fuzzy(a.due, now.date), now, important_flag(a))
    } else {
        s
    }
}

/// The changes of the flag mode on a task that exists: its row, then its
/// reminders (removals before the addition). Fails when ids are used up.
pub open spec fn spec_change_task(s: DbState, id: u32, a: EditView, now: DateTime) -> (DbState, bool) {
    let today = now.date;
    if changes_row(a) && !update_ok(s, a.project) {
        (s, false)
    } else {
        let s2 = after_removals(after_row_change(s, id, a, now), id, a, today);
        match a.remind {
            Some(r) => if s2.next_remind_id < u32::MAX {
                (spec_add_remind(s2, id, fuzzy_date_on(r, today)->0), true)
            } else {
                (s2, false)
            },
            None => (s2, true),
        }
    }
}

/// What the flag mode of `edit` does at time `now`: the options are checked,
/// the task looked up (a reminder to remove must exist), then its fields and
/// reminders changed and "Updated: #<id> <title>" printed.
pub open spec fn spec_edit_flag(s: DbState, a: EditView, now: DateTime) -> (DbState, ReportView) {
    let today = now.date;
    match flag_error(a, today) {
        Some(msg) => (s, failure(msg)),
        None => {
            let id = a.id->0;
            match spec_find_task(s, id) {
                None => (s, failure(task_error_text(id, "not found"@))),
                Some(t) => if a.remove_remind is Some && !has_remind_on(
                    s,
                    id,
                    fuzzy_date_on(a.remove_remind->0, today)->0,
                ) {
                    (
                        s,
                        failure(
                            task_error_text(id, "has no remind on "@ + date_text(fuzzy_date_on(a.remove_remind->0, today)->0)),
                        ),
                    )
                } else {
                    let (s2, ok) = spec_change_task(s, id, a, now);
                    let title = match a.title {
                        Some(x) => x,
                        None => t.title,
                    };
                    if ok {
                        (s2, success(seq![labeled_task_text("Updated: "@, id, title)]))
                    } else {
                        (s2, failure(write_failed_text()))
                    }
                }
            }
        },
    }
}

/// Whether task `id` has a reminder on `day`.
pub fn has_remind(db: &TaskDb, id: u32, day: Date) -> (r: bool)
    requires
        db.wf(),
    ensures
        r == has_remind_on(db@, id, day),
{
    let mut k: usize = 0;
    while k < db.reminds.len()
        invariant
            db.wf(),
            k <= db.reminds@.len(),
            forall|j: int| 0 <= j < k ==> !(db@.reminds[j].task_id == id && db@.reminds[j].remind_at == day),
        decreases db.reminds@.len() - k,
    {
        let r = db.reminds[k];
        if r.task_id == id && r.remind_at.same_day(&day) {
            assert(db@.reminds[k as int].task_id == id && db@.reminds[k as int].remind_at == day);
            return true;
        }
        k = k + 1;
    }
    false
}

fn parse_opt(s: &Option<String>, today: Date) -> (r: Result<Option<Date>, String>)
    requires
        today.wf(),
    ensures
        match r {
            Ok(d) => !fuzzy_fails(opt_view(*s), today) && d == opt_fuzzy(opt_view(*s), today) && (d matches Some(x) ==> x.wf()),
            Err(t) => fuzzy_fails(opt_view(*s), today) && t@ == opt_view(*s)->0,
        },
{
    match s {
        Some(x) => match parse_fuzzy_date_on(x.as_str(), today) {
            Some(d) => Ok(Some(d)),
            None => Err(x.clone()),
        },
        None => Ok(None),
    }
}

/// Changes task `id` as the options ask; `due`, `remind` and `remove` are
/// the dates the options name.
fn change_task(
    db: &mut TaskDb,
    id: u32,
    args: &EditArgs,
    now: DateTime,
    due: Option<Date>,
    remind: Option<Date>,
    remove: Option<Date>,
) -> (ok: bool)
    requires
        old(db).wf(),
        now.wf(),
        args.title matches Some(t) ==> t@.len() < usize::MAX,
        due == opt_fuzzy(args@.due, now.date),
        due matches Some(d) ==> d.wf(),
        remind == opt_fuzzy(args@.remind, now.date),
        remind matches Some(d) ==> d.wf(),
        args@.remind is Some ==> remind is Some,
        remove == opt_fuzzy(args@.remove_remind, now.date),
        args@.remove_remind is Some ==> remove is Some,
    ensures
        final(db).wf(),
        (final(db)@, ok) == spec_change_task(old(db)@, id, args@, now),
{
    let important: Option<bool> = if args.important {
        Some(true)
    } else if args.no_important {
        Some(false)
    } else {
        None
    };
    let title = match &args.title {
        Some(t) => Some(t.as_str()),
        None => None,
    };
    let project = match &args.project {
        Some(p) => Some(p.as_str()),
        None => None,
    };
    proof {
        assert(opt_str_view(title) == args@.title);
        assert(opt_str_view(project) == args@.project);
    }
    if args.title.is_some() || args.project.is_some() || args.due.is_some() || important.is_some() {
        if update_task(db, id, title, project, due, now, important).is_err() {
            return false;
        }
    }
    if args.no_remind {
        delete_reminds_for_task(db, id);
    }
    match remove {
        Some(d) => {
            let _ = delete_remind(db, id, d);
        },
        None => {},
    }
    match remind {
        Some(d) => {
            if add_remind(db, id, d).is_err() {
                return false;
            }
        },
        None => {},
    }
    true
}

/// The flag mode of `edit` at time `now`.
pub fn run_flag(db: &mut TaskDb, args: &EditArgs, now: DateTime) -> (r: Report)
    requires
        old(db).wf(),
        now.wf(),
        args.title matches Some(t) ==> t@.len() < usize::MAX,
    ensures
        final(db).wf(),
        (final(db)@, r@) == spec_edit_flag(old(db)@, args@, now),
{
    let today = now.date;
    let id = match args.id {
        Some(id) => id,
        None => {
            return report_error(chars_to_string(&chars_of("Error: task ID is required")));
        },
    };
    if args.important && args.no_important {
        return report_error(
            chars_to_string(&chars_of("Error: --important and --no-important cannot be used together")),
        );
    }
    if args.no_remind && (args.remind.is_some() || args.remove_remind.is_some()) {
        return report_error(
            chars_to_string(&chars_of("Error: --no-remind cannot be used with --remind or --remove-remind")),
        );
    }
    if !(args.title.is_some() || args.project.is_some() || args.due.is_some() || args.important
        || args.no_important || args.remind.is_some() || args.remove_remind.is_some()
        || args.no_remind) {
        return report_error(
            chars_to_string(
                &chars_of(
                    "Error: specify at least one field to edit (--title, --project, --due)",
                ),
            ),
        );
    }
    match &args.title {
        Some(t) => {
            if chars_of(t.as_str()).len() == 0 {
                assert(t@ =~= Seq::<char>::empty());
                return report_error(chars_to_string(&chars_of("Error: title cannot be empty")));
            }
        },
        None => {},
    }
    let due = match parse_opt(&args.due, today) {
        Ok(d) => d,
        Err(s) => {
            return report_error(invalid_date_message("due", s.as_str()));
        },
    };
    let remind = match parse_opt(&args.remind, today) {
        Ok(d) => d,
        Err(s) => {
            return report_error(invalid_date_message("remind", s.as_str()));
        },
    };
    let remove = match parse_opt(&args.remove_remind, today) {
        Ok(d) => d,
        Err(s) => {
            return report_error(invalid_date_message("remind", s.as_str()));
        },
    };
    proof {
        assert(flag_error(args@, today) is None);
    }
    let task = match find_task(db, id) {
        Some(t) => t,
        None => {
            return report_error(task_error_message(id, "not found"));
        },
    };
    match remove {
        Some(d) => {
            if !has_remind(db, id, d) {
                let mut v: Vec<char> = Vec::new();
                push_str(&mut v, "has no remind on ");
                push_date_text(&mut v, d);
                return report_error(task_error_message(id, chars_to_string(&v).as_str()));
            }
        },
        None => {},
    }
    let ok = change_task(db, id, args, now, due, remind, remove);
    if !ok {
        return report_error(chars_to_string(&chars_of("Error: failed to write database")));
    }
    let new_title = match &args.title {
        Some(t) => t.as_str(),
        None => task.title.as_str(),
    };
    report_line(labeled_task_message("Updated: ", id, new_title))
}

// ----- interactive mode -----

/// Whether the interactive mode was asked for together with field options.
pub open spec fn interactive_conflict(a: EditView) -> bool {
    a.interactive && (a.title is Some || a.project is Some || a.due is Some || a.important
        || a.no_important)
}

pub open spec fn interactive_conflict_text() -> Seq<char> {
    "Error: --interactive cannot be used with --title, --project, --due, --important, --no-important"@
}

/// The message refusing the interactive mode together with field options,
/// if they were given together.
pub fn interactive_conflict_message(args: &EditArgs) -> (r: Option<String>)
    ensures
        r is Some <==> interactive_conflict(args@),
        r matches Some(m) ==> m@ == interactive_conflict_text(),
{
    if args.interactive && (args.title.is_some() || args.project.is_some() || args.due.is_some()
        || args.important || args.no_important) {
        Some(chars_to_string(&chars_of(
            "Error: --interactive cannot be used with --title, --project, --due, --important, --no-important",
        )))
    } else {
        None
    }
}

/// The tasks the interactive mode edits: the task `id`, or the open tasks
/// (of project `filter_project` when given) in id order.
pub fn edit_targets(db: &TaskDb, id: Option<u32>, filter_project: Option<&str>) -> (r: Result<Vec<Task>, Report>)
    requires
        db.wf(),
    ensures
        match r {
            Ok(v) => match id {
                Some(i) => spec_find_task(db@, i) matches Some(t) && infos(v@) == seq![t],
                None => infos(v@).to_multiset() == selected(
                    db@,
                    RowQuery::List {
                        all: false,
                        project: opt_str_view(filter_project),
                        category: None,
                        due: None,
                        important_only: false,
                    },
                ).to_multiset() && sorted_tasks(seq![SortKey::Id], SortOrder::Asc, infos(v@)),
            },
            Err(rep) => id matches Some(i) && spec_find_task(db@, i) is None && rep@ == failure(
                task_error_text(i, "not found"@),
            ),
        },
{
    match id {
        Some(i) => match find_task(db, i) {
            Some(t) => {
                let v = vec![t];
                assert(infos(v@) =~= seq![v@[0]@]);
                Ok(v)
            },
            None => Err(report_error(task_error_message(i, "not found"))),
        },
        None => {
            let keys: Vec<SortKey> = vec![SortKey::Id];
            let r = list_tasks(db, false, filter_project, None, None, keys.as_slice(), SortOrder::Asc, false);
            assert(keys@ =~= seq![SortKey::Id]);
            match r {
                Ok(v) => Ok(v),
                Err(_) => {
                    assert(false);
                    Err(report_error(task_error_message(0, "not found")))
                },
            }
        },
    }
}

/// The task of `tasks` with id `id`, the last one when several have it.
pub open spec fn written_task_of(tasks: Seq<TaskInfo>, id: u32) -> Option<TaskInfo>
    decreases tasks.len(),
{
    if tasks.len() == 0 {
        None
    } else if tasks.last().id == id {
        Some(tasks.last())
    } else {
        written_task_of(tasks.drop_last(), id)
    }
}

pub open spec fn has_entry(entries: Seq<EntryView>, id: u32) -> bool {
    exists|j: int| 0 <= j < entries.len() && entries[j].id == id
}

/// Closes, in order, the tasks whose blocks were deleted, counting them.
pub open spec fn close_deleted(s: DbState, tasks: Seq<TaskInfo>, entries: Seq<EntryView>, now: DateTime) -> (DbState, nat)
    decreases tasks.len(),
{
    if tasks.len() == 0 {
        (s, 0)
    } else {
        let (s1, n) = close_deleted(s, tasks.drop_last(), entries, now);
        if has_entry(entries, tasks.last().id) {
            (s1, n)
        } else {
            (spec_close_task(s1, tasks.last().id, now), n + 1)
        }
    }
}

pub open spec fn entry_changed(e: EntryView, t: TaskInfo) -> bool {
    e.title != t.title || e.project != t.project || e.due != t.due
}

/// Applies the entries in order to the tasks they came from: unchanged
/// entries and entries of unknown ids are skipped; a changed entry updates
/// the changed fields (a removed project or due date becomes none). Stops at
/// an entry with an empty title or an update that fails.
pub open spec fn apply_entries(s: DbState, tasks: Seq<TaskInfo>, entries: Seq<EntryView>, now: DateTime) -> (DbState, nat, Option<Seq<char>>)
    decreases entries.len(),
{
    if entries.len() == 0 {
        (s, 0, None)
    } else {
        let (s1, n, err) = apply_entries(s, tasks, entries.drop_last(), now);
        let e = entries.last();
        if err is Some {
            (s1, n, err)
        } else {
            match written_task_of(tasks, e.id) {
                None => (s1, n, None),
                Some(t) => if !entry_changed(e, t) {
                    (s1, n, None)
                } else if e.title.len() == 0 {
                    (s1, n, Some("Error: title cannot be empty for task #"@ + decimal(e.id as nat)))
                } else {
                    let project = if e.project != t.project {
                        Some(match e.project {
                            Some(p) => p,
                            None => Seq::<char>::empty(),
                        })
                    } else {
                        None
                    };
                    if !update_ok(s1, project) {
                        (s1, n, Some("Error: failed to update task #"@ + decimal(e.id as nat)))
                    } else {
                        let s2 = spec_update_task(
                            s1,
                            e.id,
                            if e.title != t.title { Some(e.title) } else { None },
                            project,
                            if e.due != t.due { e.due } else { None },
                            now,
                            None,
                        );
                        (if e.due is None && t.due is Some { spec_clear_due(s2, e.id, now) } else { s2 }, n + 1, None)
                    }
                },
            }
        }
    }
}

/// The summary line: "Updated N tasks", "Closed M tasks", both joined with
/// ", ", or "No changes".
pub open spec fn summary_text(updated: nat, closed: nat) -> Seq<char> {
    if updated == 0 && closed == 0 {
        "No changes"@
    } else if closed == 0 {
        "Updated "@ + decimal(updated) + " tasks"@
    } else if updated == 0 {
        "Closed "@ + decimal(closed) + " tasks"@
    } else {
        "Updated "@ + decimal(updated) + " tasks, Closed "@ + decimal(closed) + " tasks"@
    }
}

/// What applying an edited file does: the deleted blocks' tasks are closed,
/// then the entries applied; on an error the changes made so far stay.
pub open spec fn spec_apply_edits(s: DbState, tasks: Seq<TaskInfo>, entries: Seq<EntryView>, now: DateTime) -> (DbState, ReportView) {
    let (s1, closed) = close_deleted(s, tasks, entries, now);
    let (s2, updated, err) = apply_entries(s1, tasks, entries, now);
    match err {
        Some(msg) => (s2, failure(msg)),
        None => (s2, success(seq![summary_text(updated, closed)])),
    }
}

fn entry_listed(entries: &[EditEntry], id: u32) -> (r: bool)
    ensures
        r == has_entry(entries_view(entries@), id),
{
    let mut j: usize = 0;
    while j < entries.len()
        invariant
            j <= entries.len(),
            forall|k: int| 0 <= k < j ==> entries@[k].id != id,
        decreases entries.len() - j,
    {
        if entries[j].id == id {
            assert(entries_view(entries@)[j as int].id == id);
            return true;
        }
        j = j + 1;
    }
    proof {
        assert forall|k: int| 0 <= k < entries_view(entries@).len() implies entries_view(entries@)[k].id != id by {
            assert(entries_view(entries@)[k] == entries@[k]@);
        }
    }
    false
}

fn written_task_index(tasks: &[Task], id: u32) -> (r: Option<usize>)
    ensures
        match r {
            Some(i) => i < tasks@.len() && written_task_of(infos(tasks@), id) == Some(tasks@[i as int]@),
            None => written_task_of(infos(tasks@), id) is None,
        },
{
    let mut j = tasks.len();
    assert(infos(tasks@).subrange(0, j as int) =~= infos(tasks@));
    while j > 0
        invariant
            j <= tasks.len(),
            written_task_of(infos(tasks@), id) == written_task_of(infos(tasks@).subrange(0, j as int), id),
        decreases j,
    {
        let ghost p = infos(tasks@).subrange(0, j as int);
        proof {
            assert(p.drop_last() =~= infos(tasks@).subrange(0, j - 1));
            assert(p.last() == tasks@[j - 1]@);
        }
        if tasks[j - 1].id == id {
            return Some(j - 1);
        }
        j = j - 1;
    }
    None
}

fn opt_string_eq(a: &Option<String>, b: &Option<String>) -> (r: bool)
    ensures
        r == (opt_view(*a) == opt_view(*b)),
{
    match (a, b) {
        (Some(x), Some(y)) => str_eq(x.as_str(), y.as_str()),
        (None, None) => true,
        _ => false,
    }
}

fn opt_date_eq(a: Option<Date>, b: Option<Date>) -> (r: bool)
    ensures
        r == (a == b),
{
    match (a, b) {
        (Some(x), Some(y)) => x.same_day(&y) && x.year == y.year,
        (None, None) => true,
        _ => false,
    }
}

fn summary_message(updated: u64, closed: u64) -> (r: String)
    ensures
        r@ == summary_text(updated as nat, closed as nat),
{
    let mut v: Vec<char> = Vec::new();
    if updated == 0 && closed == 0 {
        push_str(&mut v, "No changes");
    } else if closed == 0 {
        push_str(&mut v, "Updated ");
        push_decimal(&mut v, updated);
        push_str(&mut v, " tasks");
    } else if updated == 0 {
        push_str(&mut v, "Closed ");
        push_decimal(&mut v, closed);
        push_str(&mut v, " tasks");
    } else {
        push_str(&mut v, "Updated ");
        push_decimal(&mut v, updated);
        push_str(&mut v, " tasks, Closed ");
        push_decimal(&mut v, closed);
        push_str(&mut v, " tasks");
    }
    chars_to_string(&v)
}

fn numbered_error(prefix: &str, id: u32) -> (r: String)
    ensures
        r@ == prefix@ + decimal(id as nat),
{
    let mut v: Vec<char> = Vec::new();
    push_str(&mut v, prefix);
    push_decimal(&mut v, id as u64);
    chars_to_string(&v)
}

/// Applies an edited file's entries to the tasks it was written for, at time
/// `now`.
pub fn apply_edits(db: &mut TaskDb, tasks: &[Task], entries: &[EditEntry], now: DateTime) -> (r: Report)
    requires
        old(db).wf(),
        now.wf(),
        forall|i: int| 0 <= i < entries@.len() ==> (#[trigger] entries@[i]).title@.len() < usize::MAX,
        forall|i: int| 0 <= i < entries@.len() ==> ((#[trigger] entries@[i]).due matches Some(d) ==> d.wf()),
    ensures
        final(db).wf(),
        (final(db)@, r@) == spec_apply_edits(old(db)@, infos(tasks@), entries_view(entries@), now),
{
    let ghost s0 = db@;
    let ghost ts = infos(tasks@);
    let ghost es = entries_view(entries@);
    let mut closed: u64 = 0;
    let mut i: usize = 0;
    while i < tasks.len()
        invariant
            0 <= i <= tasks.len(),
            db.wf(),
            now.wf(),
            ts == infos(tasks@),
            es == entries_view(entries@),
            (db@, closed as nat) == close_deleted(s0, ts.subrange(0, i as int), es, now),
            s0 == old(db)@,
            closed <= i,
        decreases tasks.len() - i,
    {
        proof {
            let p = ts.subrange(0, i + 1);
            assert(p.drop_last() =~= ts.subrange(0, i as int));
            assert(p.last() == tasks@[i as int]@);
        }
        let id = tasks[i].id;
        if !entry_listed(entries, id) {
            close_task(db, id, now);
            closed = closed + 1;
        }
        i = i + 1;
    }
    proof {
        assert(ts.subrange(0, tasks@.len() as int) =~= ts);
    }
    let ghost s1 = db@;
    let mut updated: u64 = 0;
    let mut j: usize = 0;
    while j < entries.len()
        invariant
            0 <= j <= entries.len(),
            db.wf(),
            now.wf(),
            ts == infos(tasks@),
            es == entries_view(entries@),
            forall|k: int| 0 <= k < entries@.len() ==> (#[trigger] entries@[k]).title@.len() < usize::MAX,
            forall|k: int| 0 <= k < entries@.len() ==> ((#[trigger] entries@[k]).due matches Some(d) ==> d.wf()),
            (db@, updated as nat, None::<Seq<char>>) == apply_entries(s1, ts, es.subrange(0, j as int), now),
            (s1, closed as nat) == close_deleted(s0, ts, es, now),
            s0 == old(db)@,
            updated <= j,
        decreases entries.len() - j,
    {
        let ghost p = es.subrange(0, j + 1);
        proof {
            assert(p.drop_last() =~= es.subrange(0, j as int));
            assert(p.last() == entries@[j as int]@);
        }
        let e = &entries[j];
        match written_task_index(tasks, e.id) {
            None => {},
            Some(k) => {
                let t = &tasks[k];
                let title_changed = !str_eq(e.title.as_str(), t.title.as_str());
                let project_changed = !opt_string_eq(&e.project, &t.project);
                let due_changed = !opt_date_eq(e.due, t.due);
                if title_changed || project_changed || due_changed {
                    if chars_of(e.title.as_str()).len() == 0 {
                        let msg = numbered_error("Error: title cannot be empty for task #", e.id);
                        proof {
                            assert(entry_changed(e@, t@));
                            assert(apply_entries(s1, ts, p, now) == (db@, updated as nat, Some(msg@)));
                            lemma_apply_error_stays(s1, ts, es, now, j + 1, es.len() as int);
                            assert(es.subrange(0, es.len() as int) =~= es);
                        }
                        return report_error(msg);
                    }
                    let new_title = if title_changed {
                        Some(e.title.as_str())
                    } else {
                        None
                    };
                    let new_project = if project_changed {
                        match &e.project {
                            Some(p) => Some(p.as_str()),
                            None => Some(""),
                        }
                    } else {
                        None
                    };
                    let new_due = if due_changed {
                        e.due
                    } else {
                        None
                    };
                    proof {
                        reveal_strlit("");
                        assert(opt_str_view(new_title) == (if e@.title != t@.title { Some(e@.title) } else { None::<Seq<char>> }));
                    }
                    if update_task(db, e.id, new_title, new_project, new_due, now, None).is_err() {
                        let msg = numbered_error("Error: failed to update task #", e.id);
                        proof {
                            assert(entry_changed(e@, t@));
                            assert(apply_entries(s1, ts, p, now) == (db@, updated as nat, Some(msg@)));
                            lemma_apply_error_stays(s1, ts, es, now, j + 1, es.len() as int);
                            assert(es.subrange(0, es.len() as int) =~= es);
                        }
                        return report_error(msg);
                    }
                    if e.due.is_none() && t.due.is_some() {
                        clear_due(db, e.id, now);
                    }
                    updated = updated + 1;
                }
            },
        }
        j = j + 1;
    }
    proof {
        assert(es.subrange(0, entries@.len() as int) =~= es);
    }
    report_line(summary_message(updated, closed))
}

/// Once an entry stops the edits, later entries change nothing.
proof fn lemma_apply_error_stays(s: DbState, ts: Seq<TaskInfo>, es: Seq<EntryView>, now: DateTime, k: int, m: int)
    requires
        0 <= k <= m <= es.len(),
        apply_entries(s, ts, es.subrange(0, k), now).2 is Some,
    ensures
        apply_entries(s, ts, es.subrange(0, m), now) == apply_entries(s, ts, es.subrange(0, k), now),
    decreases m - k,
{
    if m > k {
        lemma_apply_error_stays(s, ts, es, now, k, m - 1);
        assert(es.subrange(0, m).drop_last() =~= es.subrange(0, m - 1));
    }
}

// ----- laws -----

pub open spec fn ids_distinct(ts: Seq<TaskInfo>) -> bool {
    forall|i: int, j: int| 0 <= i < j < ts.len() ==> ts[i].id != ts[j].id
}

proof fn lemma_written_task_of_own(ts: Seq<TaskInfo>, j: int)
    requires
        ids_distinct(ts),
        0 <= j < ts.len(),
    ensures
        written_task_of(ts, ts[j].id) == Some(ts[j]),
    decreases ts.len(),
{
    if j < ts.len() - 1 {
        let p = ts.drop_last();
        assert(ts.last().id != ts[j].id);
        assert(p[j] == ts[j]);
        lemma_written_task_of_own(p, j);
    }
}

proof fn lemma_none_closed(s: DbState, ts: Seq<TaskInfo>, es: Seq<EntryView>, n: int, now: DateTime)
    requires
        0 <= n <= ts.len(),
        es == entries_of(ts),
    ensures
        close_deleted(s, ts.subrange(0, n), es, now) == (s, 0nat),
    decreases n,
{
    if n > 0 {
        let p = ts.subrange(0, n);
        assert(p.drop_last() =~= ts.subrange(0, n - 1));
        lemma_none_closed(s, ts, es, n - 1, now);
        assert(es[n - 1].id == p.last().id);
        assert(has_entry(es, p.last().id));
    }
}

proof fn lemma_none_updated(s: DbState, ts: Seq<TaskInfo>, n: int, now: DateTime)
    requires
        ids_distinct(ts),
        0 <= n <= ts.len(),
    ensures
        apply_entries(s, ts, entries_of(ts).subrange(0, n), now) == (s, 0nat, None::<Seq<char>>),
    decreases n,
{
    if n > 0 {
        let es = entries_of(ts).subrange(0, n);
        assert(es.drop_last() =~= entries_of(ts).subrange(0, n - 1));
        lemma_none_updated(s, ts, n - 1, now);
        assert(es.last() == entry_of(ts[n - 1]));
        lemma_written_task_of_own(ts, n - 1);
    }
}

/// Saving the edit file as it was written changes nothing and reports "No
/// changes" (for tasks with distinct ids, as the database holds them).
pub proof fn law_unchanged_file_changes_nothing(s: DbState, ts: Seq<TaskInfo>, now: DateTime)
    requires
        ids_distinct(ts),
    ensures
        spec_apply_edits(s, ts, entries_of(ts), now) == (s, success(seq!["No changes"@])),
{
    lemma_none_closed(s, ts, entries_of(ts), ts.len() as int, now);
    assert(ts.subrange(0, ts.len() as int) =~= ts);
    lemma_none_updated(s, ts, ts.len() as int, now);
    assert(entries_of(ts).subrange(0, ts.len() as int) =~= entries_of(ts));
}

/// Clearing a task's due date changes only its due date and update time.
proof fn lemma_clear_due_find(s: DbState, id: u32, now: DateTime)
    requires
        forall|a: int, b: int| 0 <= a < b < s.tasks.len() ==> s.tasks[a].id < s.tasks[b].id,
        has_task(s.tasks, id),
    ensures
        ({
            let before = spec_find_task(s, id)->0;
            spec_find_task(spec_clear_due(s, id, now), id) == Some(TaskInfo { due: None, updated: now, ..before })
        }),
{
    let i = task_pos(s.tasks, id);
    let t = s.tasks[i];
    let row = TaskRow { due: None, updated: now, ..t };
    let s2 = spec_clear_due(s, id, now);
    assert(s2.tasks == s.tasks.update(i, row));
    assert forall|a: int, b: int| 0 <= a < b < s2.tasks.len() implies s2.tasks[a].id < s2.tasks[b].id by {
        assert(s2.tasks[a].id == s.tasks[a].id);
        assert(s2.tasks[b].id == s.tasks[b].id);
    }
    lemma_task_pos_at(s2.tasks, id, i);
}

/// Applying a changed entry of the edit file to the task it was written for
/// gives that task the entry's value of each field the user changed: the
/// title, the project (none when the project line was emptied; a name is
/// trimmed) and the due date (none when the due line was emptied).
pub proof fn law_applied_entry_sets_fields(s: DbState, tasks: Seq<TaskInfo>, e: EntryView, now: DateTime)
    requires
        s.wf(),
        has_task(s.tasks, e.id),
    ensures
        ({
            let r = apply_entries(s, tasks, seq![e], now);
            match written_task_of(tasks, e.id) {
                Some(t) => r.2 is None && entry_changed(e, t) ==> {
                    let f = spec_find_task(r.0, e.id);
                    &&& f is Some
                    &&& (e.title != t.title ==> f->0.title == e.title)
                    &&& (e.project != t.project ==> f->0.project == match e.project {
                        Some(p) => resolved_name(Some(p)),
                        None => None::<Seq<char>>,
                    })
                    &&& (e.due != t.due ==> f->0.due == e.due)
                },
                None => true,
            }
        }),
{
    let es = seq![e];
    assert(es.drop_last() =~= Seq::<EntryView>::empty());
    assert(es.last() == e);
    assert(apply_entries(s, tasks, es.drop_last(), now) == (s, 0nat, None::<Seq<char>>));
    let r = apply_entries(s, tasks, es, now);
    match written_task_of(tasks, e.id) {
        Some(t) => {
            if r.2 is None && entry_changed(e, t) {
                assert(e.title.len() > 0);
                let project = if e.project != t.project {
                    Some(match e.project {
                        Some(p) => p,
                        None => Seq::<char>::empty(),
                    })
                } else {
                    None
                };
                let title = if e.title != t.title { Some(e.title) } else { None };
                let due = if e.due != t.due { e.due } else { None };
                assert(update_ok(s, project));
                assert(trimmed(Seq::<char>::empty()) =~= Seq::<char>::empty());
                law_update_then_find(s, e.id, title, project, due, now, None);
                lemma_resolve(s, project);
                let s2 = spec_update_task(s, e.id, title, project, due, now, None);
                if e.due is None && t.due is Some {
                    let (s1, pid) = spec_resolve_project(s, project);
                    let i = task_pos(s.tasks, e.id);
                    assert(s1.tasks == s.tasks);
                    assert forall|a: int, b: int| 0 <= a < b < s2.tasks.len() implies s2.tasks[a].id
                        < s2.tasks[b].id by {
                        assert(s2.tasks[a].id == s.tasks[a].id);
                        assert(s2.tasks[b].id == s.tasks[b].id);
                    }
                    lemma_clear_due_find(s2, e.id, now);
                }
            }
        },
        None => {},
    }
}

} // verus!
