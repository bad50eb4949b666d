//! `add`: a new open task, with its due date and first reminder.
use vstd::prelude::*;
use crate::commands::{
    Report, ReportView, failure, fuzzy_fails, invalid_date_message, invalid_date_text,
    labeled_task_message, labeled_task_text, literal_string, opt_fuzzy, report_error, report_line,
    success, write_failed_text,
};
use crate::date::DateTime;
use crate::date_parser::{fuzzy_date_on, parse_fuzzy_date_on};
use crate::db::{DbState, TaskDb, add_ok, add_remind, add_task, spec_add_remind, spec_add_task};
use crate::model::opt_view;
use crate::text::chars_of;

verus! {

/// Options of `add`.
#[derive(Debug)]
pub struct AddArgs {
    pub title: String,
    pub project: Option<String>,
    /// Due date, "YYYY-MM-DD" or a fuzzy date.
    pub due: Option<String>,
    /// A reminder date, "YYYY-MM-DD" or a fuzzy date.
    pub remind: Option<String>,
    pub important: bool,
}

pub struct AddView {
    pub title: Seq<char>,
    pub project: Option<Seq<char>>,
    pub due: Option<Seq<char>>,
    pub remind: Option<Seq<char>>,
    pub important: bool,
}

impl View for AddArgs {
    type V = AddView;

    open spec fn view(&self) -> AddView {
        AddView {
            title: self.title@,
            project: opt_view(self.project),
            due: opt_view(self.due),
            remind: opt_view(self.remind),
            important: self.important,
        }
    }
}

/// What `add` does to the tables and prints, at time `now`: the title must
/// not be empty and the due and reminder texts must name dates; then the task
/// is added, its reminder recorded, and "Added: #<id> <title>" printed.
pub open spec fn spec_add_command(s: DbState, a: AddView, now: DateTime) -> (DbState, ReportView) {
    let today = now.date;
    if a.title.len() == 0 {
        (s, failure("Error: title cannot be empty"@))
    } else if fuzzy_fails(a.due, today) {
        (s, failure(invalid_date_text("due"@, a.due->0)))
    } else if fuzzy_fails(a.remind, today) {
        (s, failure(invalid_date_text("remind"@, a.remind->0)))
    } else if !add_ok(s, a.project) {
        (s, failure(write_failed_text()))
    } else {
        let s1 = spec_add_task(s, a.title, a.project, opt_fuzzy(a.due, today), now, a.important);
        let id = s.next_task_id;
        let done = success(seq![labeled_task_text("Added: "@, id, a.title)]);
        match a.remind {
            None => (s1, done),
            Some(r) => if s1.next_remind_id < u32::MAX {
                (spec_add_remind(s1, id, fuzzy_date_on(r, today)->0), done)
            } else {
                (s1, failure(write_failed_text()))
            },
        }
    }
}

/// `add` at time `now`.
pub fn run(db: &mut TaskDb, args: &AddArgs, now: DateTime) -> (r: Report)
    requires
        old(db).wf(),
        now.wf(),
        args.title@.len() < usize::MAX,
    ensures
        final(db).wf(),
        (final(db)@, r@) == spec_add_command(old(db)@, args@, now),
{
    let today = now.date;
    if chars_of(args.title.as_str()).len() == 0 {
        return report_error(literal_string("Error: title cannot be empty"));
    }
    let due = match &args.due {
        Some(s) => match parse_fuzzy_date_on(s.as_str(), today) {
            Some(d) => Some(d),
            None => {
                return report_error(invalid_date_message("due", s.as_str()));
            },
        },
        None => None,
    };
    let remind = match &args.remind {
        Some(s) => match parse_fuzzy_date_on(s.as_str(), today) {
            Some(d) => Some(d),
            None => {
                return report_error(invalid_date_message("remind", s.as_str()));
            },
        },
        None => None,
    };
    let project = match &args.project {
        Some(p) => Some(p.as_str()),
        None => None,
    };
    let id = match add_task(db, args.title.as_str(), project, due, now, args.important) {
        Ok(id) => id,
        Err(_) => {
            return report_error(literal_string("Error: failed to write database"));
        },
    };
    match remind {
        Some(d) => {
            if add_remind(db, id, d).is_err() {
                return report_error(literal_string("Error: failed to write database"));
            }
        },
        None => {},
    }
    report_line(labeled_task_message("Added: ", id, args.title.as_str()))
}

} // verus!
