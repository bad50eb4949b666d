//! `close`: closing a task.
use vstd::prelude::*;
use crate::commands::{
    Report, ReportView, failure, labeled_task_message, labeled_task_text, report_error,
    report_line, success, task_error_message, task_error_text,
};
use crate::date::DateTime;
use crate::db::{DbState, TaskDb, close_task, find_task, spec_close_task, spec_find_task};
use crate::model::Status;

verus! {

/// What `close` does: a missing task or one already closed is an error;
/// otherwise the task is closed at `now` and "Closed: #<id> <title>" printed.
pub open spec fn spec_close_command(s: DbState, id: u32, now: DateTime) -> (DbState, ReportView) {
    match spec_find_task(s, id) {
        None => (s, failure(task_error_text(id, "not found"@))),
        Some(t) => if t.status == Status::Closed {
            (s, failure(task_error_text(id, "is already closed"@)))
        } else {
            (spec_close_task(s, id, now), success(seq![labeled_task_text("Closed: "@, t.id, t.title)]))
        },
    }
}

/// Options of `close`.
#[derive(Debug)]
pub struct CloseArgs {
    /// The task to close.
    pub id: u32,
}

/// `close` at time `now`.
pub fn run(db: &mut TaskDb, args: &CloseArgs, now: DateTime) -> (r: Report)
    requires
        old(db).wf(),
        now.wf(),
    ensures
        final(db).wf(),
        (final(db)@, r@) == spec_close_command(old(db)@, args.id, now),
{
    let id = args.id;
    match find_task(db, id) {
        None => report_error(task_error_message(id, "not found")),
        Some(t) => {
            if t.status.is_closed() {
                report_error(task_error_message(id, "is already closed"))
            } else {
                close_task(db, id, now);
                report_line(labeled_task_message("Closed: ", t.id, t.title.as_str()))
            }
        },
    }
}

} // verus!
