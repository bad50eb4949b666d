//! `show`: one task with its reminders, field by field.
use vstd::prelude::*;
use crate::commands::{
    Report, ReportView, chars_to_string, failure, lines_view, report_error, success,
    task_error_message, task_error_text,
};
use crate::date::{Date, date_text, datetime_text, push_date_text, push_datetime_text};
use crate::db::{
    DbState, TaskDb, dates_sorted, find_task, get_reminds_for_task, remind_dates, spec_find_task,
};
use crate::model::{Task, TaskInfo, status_text};
use crate::text::{chars_of, decimal, push_decimal, push_str};

use crate::date::DateTime;
use crate::db::{has_task, spec_complete_task, spec_update_task, update_ok};

verus! {

/// The task with id `id` and its reminder dates, earliest first.
pub fn find_task_with_reminds(db: &TaskDb, id: u32) -> (r: Option<Task>)
    requires
        db.wf(),
    ensures
        r is None <==> spec_find_task(db@, id) is None,
        r matches Some(t) ==> {
            &&& spec_find_task(db@, id) == Some(TaskInfo { reminds: Seq::empty(), ..t@ })
            &&& t@.reminds.to_multiset() == remind_dates(db@, id).to_multiset()
            &&& dates_sorted(t@.reminds)
            &&& forall|i: int| 0 <= i < t@.reminds.len() ==> (#[trigger] t@.reminds[i]).wf()
        },
{
    match find_task(db, id) {
        None => None,
        Some(t) => {
            let reminds = get_reminds_for_task(db, id);
            let mut t = t;
            proof {
                assert(t@.reminds == Seq::<Date>::empty());
                assert(TaskInfo { reminds: Seq::empty(), ..t@ } == t@);
            }
            t.reminds = reminds;
            Some(t)
        },
    }
}

pub open spec fn or_none(s: Option<Seq<char>>) -> Seq<char> {
    match s {
        Some(x) => x,
        None => "(none)"@,
    }
}

/// Dates as "YYYY-MM-DD" joined with ", ".
pub open spec fn dates_joined(ds: Seq<Date>) -> Seq<char>
    decreases ds.len(),
{
    if ds.len() == 0 {
        Seq::empty()
    } else if ds.len() == 1 {
        date_text(ds[0])
    } else {
        dates_joined(ds.drop_last()) + ", "@ + date_text(ds.last())
    }
}

/// The key-value lines of `show`.
pub open spec fn show_lines(t: TaskInfo) -> Seq<Seq<char>> {
    seq![
        "ID: "@ + decimal(t.id as nat),
        "Title: "@ + t.title,
        "Status: "@ + status_text(t.status),
        "Project: "@ + or_none(t.project),
        "Due: "@ + match t.due {
            Some(d) => date_text(d),
            None => "(none)"@,
        },
        "Remind: "@ + if t.reminds.len() == 0 { "(none)"@ } else { dates_joined(t.reminds) },
        "Important: "@ + if t.important { "yes"@ } else { "no"@ },
        "Created: "@ + datetime_text(t.created),
        "Updated: "@ + datetime_text(t.updated),
    ]
}

fn line_of(prefix: &str, rest: &Vec<char>) -> (r: String)
    ensures
        r@ == prefix@ + rest@,
{
    let mut v: Vec<char> = Vec::new();
    push_str(&mut v, prefix);
    crate::text::push_seq(&mut v, rest.as_slice());
    chars_to_string(&v)
}

/// The lines `show` prints for a task.
pub fn show_text(t: &Task) -> (r: Vec<String>)
    ensures
        lines_view(r@) == show_lines(t@),
{
    let mut id: Vec<char> = Vec::new();
    push_decimal(&mut id, t.id as u64);
    let project = match &t.project {
        Some(p) => chars_of(p.as_str()),
        None => chars_of("(none)"),
    };
    let mut due: Vec<char> = Vec::new();
    match t.due {
        Some(d) => {
            push_date_text(&mut due, d);
        },
        None => {
            push_str(&mut due, "(none)");
        },
    }
    let mut remind: Vec<char> = Vec::new();
    if t.reminds.len() == 0 {
        push_str(&mut remind, "(none)");
    } else {
        let mut i: usize = 0;
        while i < t.reminds.len()
            invariant
                0 <= i <= t.reminds.len(),
                t.reminds.len() > 0,
                remind@ == dates_joined(t.reminds@.subrange(0, i as int)),
            decreases t.reminds.len() - i,
        {
            let ghost before = remind@;
            if i > 0 {
                push_str(&mut remind, ", ");
            }
            push_date_text(&mut remind, t.reminds[i]);
            proof {
                let p = t.reminds@.subrange(0, i + 1);
                assert(p.drop_last() =~= t.reminds@.subrange(0, i as int));
                if i == 0 {
                    assert(remind@ =~= date_text(p[0]));
                } else {
                    assert(remind@ =~= before + ", "@ + date_text(p.last()));
                }
            }
            i = i + 1;
        }
        proof {
            assert(t.reminds@.subrange(0, t.reminds@.len() as int) =~= t.reminds@);
        }
    }
    let important = if t.important {
        chars_of("yes")
    } else {
        chars_of("no")
    };
    let mut created: Vec<char> = Vec::new();
    push_datetime_text(&mut created, t.created);
    let mut updated: Vec<char> = Vec::new();
    push_datetime_text(&mut updated, t.updated);
    let r = vec![
        line_of("ID: ", &id),
        line_of("Title: ", &chars_of(t.title.as_str())),
        line_of("Status: ", &chars_of(t.status.as_str())),
        line_of("Project: ", &project),
        line_of("Due: ", &due),
        line_of("Remind: ", &remind),
        line_of("Important: ", &important),
        line_of("Created: ", &created),
        line_of("Updated: ", &updated),
    ];
    assert(lines_view(r@) =~= show_lines(t@));
    r
}

/// Options of `show`.
#[derive(Debug)]
pub struct ShowArgs {
    pub id: u32,
    /// Print JSON instead of the key-value lines.
    pub json: bool,
}

/// What `show` prints as key-value lines: the task's fields with its
/// reminders, or an error when there is no such task.
pub open spec fn show_report_ok(s: DbState, id: u32, r: ReportView) -> bool {
    match spec_find_task(s, id) {
        None => r == failure(task_error_text(id, "not found"@)),
        Some(t) => exists|reminds: Seq<Date>|
            reminds.to_multiset() == remind_dates(s, id).to_multiset() && dates_sorted(reminds)
                && r == success(show_lines(TaskInfo { reminds, ..t })),
    }
}

/// `show` in its key-value form.
pub fn run(db: &TaskDb, args: &ShowArgs) -> (r: Report)
    requires
        db.wf(),
    ensures
        show_report_ok(db@, args.id, r@),
{
    match find_task_with_reminds(db, args.id) {
        None => report_error(task_error_message(args.id, "not found")),
        Some(t) => {
            let lines = show_text(&t);
            let r = Report { out: lines, err: Vec::new(), failed: false };
            proof {
                assert(r@.err =~= Seq::<Seq<char>>::empty());
                assert(TaskInfo { reminds: t@.reminds, ..spec_find_task(db@, args.id)->0 } == t@);
            }
            r
        },
    }
}

/// After a task is completed at `now`, `show` reports it updated at `now`,
/// with its creation time as before.
pub proof fn law_show_after_complete(s: DbState, id: u32, now: DateTime)
    requires
        s.wf(),
        has_task(s.tasks, id),
    ensures
        show_lines(spec_find_task(spec_complete_task(s, id, now), id)->0)[8] == "Updated: "@ + datetime_text(now),
        show_lines(spec_find_task(spec_complete_task(s, id, now), id)->0)[7] == show_lines(
            spec_find_task(s, id)->0,
        )[7],
{
    crate::laws::law_complete_then_find(s, id, now);
}

/// After a task is updated at `now`, `show` reports it updated at `now`, with
/// its creation time as before.
pub proof fn law_show_after_update(
    s: DbState,
    id: u32,
    title: Option<Seq<char>>,
    project: Option<Seq<char>>,
    due: Option<Date>,
    now: DateTime,
    important: Option<bool>,
)
    requires
        s.wf(),
        has_task(s.tasks, id),
        update_ok(s, project),
    ensures
        ({
            let after = spec_find_task(spec_update_task(s, id, title, project, due, now, important), id)->0;
            &&& show_lines(after)[8] == "Updated: "@ + datetime_text(now)
            &&& show_lines(after)[7] == show_lines(spec_find_task(s, id)->0)[7]
        }),
{
    crate::laws::law_update_then_find(s, id, title, project, due, now, important);
}

} // verus!
