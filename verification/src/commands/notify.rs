//! `notify`: overdue and soon-due tasks and the reminders of the day.
use vstd::prelude::*;
use crate::commands::{Report, ReportView, chars_to_string, lines_view};
use crate::commands::list::{
    id_text, lemma_all_listed_wf, lemma_listed, month_day, project_text, task_dates_wf,
    terminal_width,
};
use crate::date::{Date, checked_add_days, days_between, local_today};
use crate::db::{DbState, RowQuery, TaskDb, get_due_tasks, get_tasks_with_remind_today, selected};
use crate::model::{SortKey, SortOrder, Task, TaskInfo};
use crate::order::{infos, sorted_tasks};
use crate::table::{
    CellColor, CellSpec, CellView, TableSpec, TableView, TextStyle, cell, cells_view, drawn_text,
    header_cell, header_cell_of, render_table,
};
use crate::text::{chars_of, decimal, push_decimal, push_str};

verus! {

broadcast use vstd::seq_lib::group_to_multiset_ensures;

/// Options of `notify`.
#[derive(Debug)]
pub struct NotifyArgs {
    /// Also tasks due within this many days from today.
    pub days: u32,
}

/// The status text of a task due `diff` days from today: days overdue, today,
/// or days left.
pub open spec fn due_status(diff: int) -> (Seq<char>, CellColor) {
    if diff < 0 {
        (decimal((-diff) as nat) + "日超過"@, CellColor::Red)
    } else if diff == 0 {
        ("今日"@, CellColor::Yellow)
    } else {
        ("あと"@ + decimal(diff as nat) + "日"@, CellColor::Green)
    }
}

/// A row of the due table: id, project, title (red when overdue, bold if
/// important; magenta bold when important), due date and status, colored by
/// how far the due date is.
pub open spec fn due_row(t: TaskInfo, today: Date) -> Seq<CellView> {
    let due = t.due->0;
    let diff = due.day_number() - today.day_number();
    let title = if diff < 0 {
        cell(t.title, Some(CellColor::Red), t.important)
    } else if t.important {
        cell(t.title, Some(CellColor::Magenta), true)
    } else {
        cell(t.title, None, false)
    };
    let due_color = if diff < 0 {
        CellColor::Red
    } else if diff == 0 {
        CellColor::Yellow
    } else {
        CellColor::Green
    };
    seq![
        cell(id_text(t.id), Some(CellColor::Cyan), false),
        cell(project_text(t), None, false),
        title,
        cell(month_day(due), Some(due_color), false),
        cell(due_status(diff).0, Some(due_status(diff).1), false),
    ]
}

/// A row of the reminder table: id, project, title (magenta bold when
/// important) and today's date in yellow.
pub open spec fn remind_row(t: TaskInfo, today: Date) -> Seq<CellView> {
    seq![
        cell(id_text(t.id), Some(CellColor::Cyan), false),
        cell(project_text(t), None, false),
        if t.important { cell(t.title, Some(CellColor::Magenta), true) } else { cell(t.title, None, false) },
        cell(month_day(today), Some(CellColor::Yellow), false),
    ]
}

pub open spec fn due_table_of(tasks: Seq<TaskInfo>, today: Date, width: u16) -> TableView {
    TableView {
        header: seq![
            header_cell("ID"@),
            header_cell("Project"@),
            header_cell("Title"@),
            header_cell("Due"@),
            header_cell("Status"@),
        ],
        rows: tasks.map_values(|t: TaskInfo| due_row(t, today)),
        right_aligned: seq![0usize],
        width,
    }
}

pub open spec fn remind_table_of(tasks: Seq<TaskInfo>, today: Date, width: u16) -> TableView {
    TableView {
        header: seq![
            header_cell("ID"@),
            header_cell("Project"@),
            header_cell("Title"@),
            header_cell("Remind"@),
        ],
        rows: tasks.map_values(|t: TaskInfo| remind_row(t, today)),
        right_aligned: seq![0usize],
        width,
    }
}

fn text_cell(v: Vec<char>, color: Option<CellColor>, bold: bool) -> (r: CellSpec)
    ensures
        r@ == cell(v@, color, bold),
{
    CellSpec { text: chars_to_string(&v), color, bold }
}

fn id_cell(id: u32) -> (r: CellSpec)
    ensures
        r@ == cell(id_text(id), Some(CellColor::Cyan), false),
{
    let mut v: Vec<char> = Vec::new();
    push_str(&mut v, "#");
    push_decimal(&mut v, id as u64);
    text_cell(v, Some(CellColor::Cyan), false)
}

fn project_cell(t: &Task) -> (r: CellSpec)
    ensures
        r@ == cell(project_text(t@), None, false),
{
    match &t.project {
        Some(p) => text_cell(chars_of(p.as_str()), None, false),
        None => text_cell(Vec::new(), None, false),
    }
}

fn month_day_chars(d: Date) -> (r: Vec<char>)
    ensures
        r@ == month_day(d),
{
    let mut v: Vec<char> = Vec::new();
    push_decimal(&mut v, d.month as u64);
    push_str(&mut v, "/");
    push_decimal(&mut v, d.day as u64);
    proof {
        reveal_strlit("/");
        assert(v@ =~= month_day(d));
    }
    v
}

fn due_cells(t: &Task, today: Date) -> (r: Vec<CellSpec>)
    requires
        today.wf(),
        task_dates_wf(t@),
        t@.due is Some,
    ensures
        cells_view(r@) == due_row(t@, today),
{
    let due = match t.due {
        Some(d) => d,
        None => today,
    };
    let diff = days_between(due, today);
    let title = if diff < 0 {
        text_cell(chars_of(t.title.as_str()), Some(CellColor::Red), t.important)
    } else if t.important {
        text_cell(chars_of(t.title.as_str()), Some(CellColor::Magenta), true)
    } else {
        text_cell(chars_of(t.title.as_str()), None, false)
    };
    let due_color = if diff < 0 {
        CellColor::Red
    } else if diff == 0 {
        CellColor::Yellow
    } else {
        CellColor::Green
    };
    let mut status: Vec<char> = Vec::new();
    let status_color = if diff < 0 {
        let over: u64 = (-(diff as i128)) as u64;
        push_decimal(&mut status, over);
        push_str(&mut status, "日超過");
        CellColor::Red
    } else if diff == 0 {
        push_str(&mut status, "今日");
        CellColor::Yellow
    } else {
        push_str(&mut status, "あと");
        push_decimal(&mut status, diff as u64);
        push_str(&mut status, "日");
        CellColor::Green
    };
    let r = vec![
        id_cell(t.id),
        project_cell(t),
        title,
        text_cell(month_day_chars(due), Some(due_color), false),
        text_cell(status, Some(status_color), false),
    ];
    assert(cells_view(r@) =~= due_row(t@, today));
    r
}

fn remind_cells(t: &Task, today: Date) -> (r: Vec<CellSpec>)
    ensures
        cells_view(r@) == remind_row(t@, today),
{
    let title = if t.important {
        text_cell(chars_of(t.title.as_str()), Some(CellColor::Magenta), true)
    } else {
        text_cell(chars_of(t.title.as_str()), None, false)
    };
    let r = vec![id_cell(t.id), project_cell(t), title, text_cell(month_day_chars(today), Some(CellColor::Yellow), false)];
    assert(cells_view(r@) =~= remind_row(t@, today));
    r
}

/// The due table of `tasks` on day `today`.
pub fn due_table_spec(tasks: &[Task], today: Date, width: u16) -> (r: TableSpec)
    requires
        today.wf(),
        forall|i: int| 0 <= i < tasks@.len() ==> task_dates_wf(#[trigger] tasks@[i]@) && tasks@[i]@.due is Some,
    ensures
        r@ == due_table_of(infos(tasks@), today, width),
{
    let ghost want = due_table_of(infos(tasks@), today, width);
    let mut rows: Vec<Vec<CellSpec>> = Vec::new();
    let mut i: usize = 0;
    while i < tasks.len()
        invariant
            0 <= i <= tasks.len(),
            today.wf(),
            forall|k: int| 0 <= k < tasks@.len() ==> task_dates_wf(#[trigger] tasks@[k]@) && tasks@[k]@.due is Some,
            want == due_table_of(infos(tasks@), today, width),
            rows@.len() == i,
            forall|k: int| 0 <= k < i ==> cells_view(#[trigger] rows@[k]@) == want.rows[k],
        decreases tasks.len() - i,
    {
        rows.push(due_cells(&tasks[i], today));
        i = i + 1;
    }
    let header = vec![
        header_cell_of("ID"),
        header_cell_of("Project"),
        header_cell_of("Title"),
        header_cell_of("Due"),
        header_cell_of("Status"),
    ];
    let r = TableSpec { header, rows, right_aligned: vec![0], width };
    proof {
        assert(r@.rows =~= want.rows);
        assert(r@.header =~= want.header);
        assert(r@.right_aligned =~= want.right_aligned);
    }
    r
}

/// The reminder table of `tasks` on day `today`.
pub fn remind_table_spec(tasks: &[Task], today: Date, width: u16) -> (r: TableSpec)
    ensures
        r@ == remind_table_of(infos(tasks@), today, width),
{
    let ghost want = remind_table_of(infos(tasks@), today, width);
    let mut rows: Vec<Vec<CellSpec>> = Vec::new();
    let mut i: usize = 0;
    while i < tasks.len()
        invariant
            0 <= i <= tasks.len(),
            want == remind_table_of(infos(tasks@), today, width),
            rows@.len() == i,
            forall|k: int| 0 <= k < i ==> cells_view(#[trigger] rows@[k]@) == want.rows[k],
        decreases tasks.len() - i,
    {
        rows.push(remind_cells(&tasks[i], today));
        i = i + 1;
    }
    let header = vec![
        header_cell_of("ID"),
        header_cell_of("Project"),
        header_cell_of("Title"),
        header_cell_of("Remind"),
    ];
    let r = TableSpec { header, rows, right_aligned: vec![0], width };
    proof {
        assert(r@.rows =~= want.rows);
        assert(r@.header =~= want.header);
        assert(r@.right_aligned =~= want.right_aligned);
    }
    r
}

/// The last day `notify` covers: `days` after today, or today itself past
/// chrono's range.
pub open spec fn notify_target(today: Date, days: u32) -> int {
    if today.day_number() + days <= crate::date::max_day_number() {
        today.day_number() + days
    } else {
        today.day_number()
    }
}

/// The lines of one section: its title, the table, a blank line and the
/// count.
pub open spec fn section(title: Seq<char>, table: Seq<char>, n: nat) -> Seq<Seq<char>> {
    seq![title, table, Seq::empty(), decimal(n) + " tasks"@]
}

/// What `notify` prints on day `today`: nothing when no open task is due by
/// the target day and none has a reminder today; else a section of the due
/// tasks (earliest due first) and one of today's reminders, a blank line
/// between them.
pub open spec fn notify_report_ok(
    s: DbState,
    days: u32,
    today: Date,
    width: u16,
    style: TextStyle,
    r: ReportView,
) -> bool {
    let due_rows = selected(s, RowQuery::DueBy { target: crate::date_parser::date_at(notify_target(today, days)) });
    let remind_rows = selected(s, RowQuery::RemindOn { day: today });
    &&& r.err.len() == 0
    &&& !r.failed
    &&& (due_rows.len() == 0 && remind_rows.len() == 0 ==> r.out.len() == 0)
    &&& exists|due: Seq<TaskInfo>|
        #![trigger sorted_tasks(seq![SortKey::Due], SortOrder::Asc, due)]
        due.to_multiset() == due_rows.to_multiset() && sorted_tasks(seq![SortKey::Due], SortOrder::Asc, due)
            && r.out == notify_lines(
            due_rows.len(),
            remind_rows.len(),
            drawn_text(due_table_of(due, today, width), style),
            drawn_text(remind_table_of(remind_rows, today, width), style),
        )
}

/// The lines of `notify` with `nd` due tasks and `nr` reminders, given the
/// two rendered tables.
pub open spec fn notify_lines(nd: nat, nr: nat, t1: Seq<char>, t2: Seq<char>) -> Seq<Seq<char>> {
    (if nd > 0 {
        section("期限切れタスクがあります"@, t1, nd)
    } else {
        Seq::empty()
    }) + (if nr > 0 {
        (if nd > 0 { seq![Seq::<char>::empty()] } else { Seq::empty() }) + section(
            "リマインドタスクがあります"@,
            t2,
            nr,
        )
    } else {
        Seq::empty()
    })
}

fn section_lines(out: &mut Vec<String>, title: &str, table: String, n: usize)
    ensures
        lines_view(final(out)@) == lines_view(old(out)@) + section(title@, table@, n as nat),
{
    let ghost before = lines_view(out@);
    out.push(chars_to_string(&chars_of(title)));
    out.push(table);
    out.push(String::new());
    let mut v: Vec<char> = Vec::new();
    push_decimal(&mut v, n as u64);
    push_str(&mut v, " tasks");
    out.push(chars_to_string(&v));
    assert(lines_view(out@) =~= before + section(title@, table@, n as nat));
}

/// `notify` on day `today` with a terminal `term_width` wide, tables drawn in
/// `style`.
pub fn notify_report_on(db: &TaskDb, days: u32, today: Date, term_width: u16, style: TextStyle) -> (r: Report)
    requires
        db.wf(),
        today.wf(),
    ensures
        notify_report_ok(db@, days, today, term_width, style, r@),
{
    let target = match checked_add_days(today, days as u64) {
        Some(d) => d,
        None => today,
    };
    proof {
        crate::date_parser::lemma_date_at(target);
    }
    let due_tasks = get_due_tasks(db, target);
    let remind_tasks = get_tasks_with_remind_today(db, today);
    let ghost fd = RowQuery::DueBy { target };
    let ghost due_rows = selected(db@, fd);
    let ghost remind_rows = selected(db@, RowQuery::RemindOn { day: today });
    proof {
        assert(infos(due_tasks@).to_multiset().len() == due_rows.to_multiset().len());
        assert(infos(due_tasks@).len() == due_rows.len());
        assert(target == crate::date_parser::date_at(notify_target(today, days)));
        lemma_all_listed_wf(db@, RowQuery::RemindOn { day: today }, infos(remind_tasks@));
        assert forall|i: int| 0 <= i < due_tasks@.len() implies task_dates_wf(#[trigger] due_tasks@[i]@)
            && due_tasks@[i]@.due is Some by {
            lemma_listed(db@, fd, infos(due_tasks@), i);
            assert(infos(due_tasks@)[i] == due_tasks@[i]@);
        }
    }
    let mut out: Vec<String> = Vec::new();
    let mut t1: String = String::new();
    let mut t2: String = String::new();
    let ghost d1 = drawn_text(due_table_of(infos(due_tasks@), today, term_width), style);
    let ghost d2 = drawn_text(remind_table_of(remind_rows, today, term_width), style);
    if due_tasks.len() > 0 {
        let spec = due_table_spec(due_tasks.as_slice(), today, term_width);
        t1 = render_table(&spec, style);
        section_lines(&mut out, "期限切れタスクがあります", t1.clone(), due_tasks.len());
    }
    if remind_tasks.len() > 0 {
        if due_tasks.len() > 0 {
            out.push(String::new());
        }
        let spec = remind_table_spec(remind_tasks.as_slice(), today, term_width);
        t2 = render_table(&spec, style);
        section_lines(&mut out, "リマインドタスクがあります", t2.clone(), remind_tasks.len());
    }
    let r = Report { out, err: Vec::new(), failed: false };
    proof {
        assert(r@.err =~= Seq::<Seq<char>>::empty());
        assert(r@.out =~= notify_lines(due_rows.len(), remind_rows.len(), t1@, t2@));
        assert(notify_lines(due_rows.len(), remind_rows.len(), t1@, t2@) == notify_lines(
            due_rows.len(),
            remind_rows.len(),
            d1,
            d2,
        ));
        assert(sorted_tasks(seq![SortKey::Due], SortOrder::Asc, infos(due_tasks@)));

    }
    r
}

/// `notify`, with the local date today and the terminal's width, tables
/// drawn in `style`.
pub fn run(db: &TaskDb, args: &NotifyArgs, style: TextStyle) -> (r: Report)
    requires
        db.wf(),
    ensures
        exists|today: Date, width: u16|
            today.wf() && width > 0 && notify_report_ok(db@, args.days, today, width, style, r@),
{
    let today = local_today();
    notify_report_on(db, args.days, today, terminal_width(), style)
}

/// The Due column of each row of the due table is the month and day of that
/// row's own task's due date, whatever today is.
pub proof fn law_notify_due_cell_is_own_due(tasks: Seq<TaskInfo>, today: Date, width: u16, i: int)
    requires
        0 <= i < tasks.len(),
        tasks[i].due is Some,
    ensures
        ({
            let d = tasks[i].due->0;
            due_table_of(tasks, today, width).rows[i][3].text == decimal(d.month as nat) + "/"@ + decimal(
                d.day as nat,
            )
        }),
{
}

} // verus!
