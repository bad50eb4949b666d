//! `search`: tasks whose title holds a keyword, as a table.
use vstd::prelude::*;
use crate::commands::{Report, ReportView, chars_to_string, report_line, success};
use crate::commands::list::{
    lemma_all_listed_wf, table_shown, task_dates_wf, task_table_text, terminal_width,
};
use crate::table::TextStyle;
use crate::date::{Date, local_today};
use crate::db::{DbState, RowQuery, TaskDb, opt_str_view, search_tasks, selected};
use crate::model::opt_view;
use crate::order::infos;
use crate::text::push_str;

verus! {

broadcast use vstd::seq_lib::group_to_multiset_ensures;

/// Options of `search`.
#[derive(Debug)]
pub struct SearchArgs {
    pub keyword: String,
    pub all: bool,
    pub project: Option<String>,
}

pub open spec fn search_filter(args: SearchArgs) -> RowQuery {
    RowQuery::Search { keyword: args.keyword@, all: args.all, project: opt_view(args.project) }
}

pub open spec fn no_match_text(keyword: Seq<char>) -> Seq<char> {
    "No tasks found for keyword: \""@ + keyword + "\""@
}

/// What `search` prints on day `today` in a terminal `width` wide, drawn in
/// `style`: "No tasks found..." when no title matches, else the matching
/// tasks in id order as a table with its footer.
pub open spec fn search_report_ok(
    s: DbState,
    args: SearchArgs,
    today: Date,
    width: u16,
    style: TextStyle,
    r: ReportView,
) -> bool {
    let rows = selected(s, search_filter(args));
    if rows.len() == 0 {
        r == success(seq![no_match_text(args.keyword@)])
    } else {
        exists|text: Seq<char>|
            #![trigger table_shown(s, rows, args.all, width, today, style, text)]
            table_shown(s, rows, args.all, width, today, style, text) && r == success(seq![text])
    }
}

/// `search` on day `today` with a terminal `term_width` wide, drawn in
/// `style`.
pub fn search_report_on(
    db: &TaskDb,
    args: &SearchArgs,
    today: Date,
    term_width: u16,
    style: TextStyle,
) -> (r: Report)
    requires
        db.wf(),
        today.wf(),
    ensures
        search_report_ok(db@, *args, today, term_width, style, r@),
{
    let project = match &args.project {
        Some(p) => Some(p.as_str()),
        None => None,
    };
    let tasks = search_tasks(db, args.keyword.as_str(), args.all, project);
    let ghost f = search_filter(*args);
    proof {
        assert(opt_str_view(project) == opt_view(args.project));
    }
    if tasks.len() == 0 {
        let mut v: Vec<char> = Vec::new();
        push_str(&mut v, "No tasks found for keyword: \"");
        push_str(&mut v, args.keyword.as_str());
        push_str(&mut v, "\"");
        return report_line(chars_to_string(&v));
    }
    proof {
        lemma_all_listed_wf(db@, f, infos(tasks@));
        assert forall|i: int| 0 <= i < tasks@.len() implies task_dates_wf(#[trigger] tasks@[i]@) by {
            assert(infos(tasks@)[i] == tasks@[i]@);
        }
    }
    let ghost v = infos(tasks@);
    let text = task_table_text(db, tasks, args.all, term_width, today, style);
    let r = report_line(text);
    proof {
        assert(r@ == success(seq![text@]));
    }
    r
}

/// `search`, with the local date today and the terminal's width, drawn in
/// `style`.
pub fn run(db: &TaskDb, args: &SearchArgs, style: TextStyle) -> (r: Report)
    requires
        db.wf(),
    ensures
        exists|today: Date, width: u16|
            today.wf() && width > 0 && search_report_ok(db@, *args, today, width, style, r@),
{
    let today = local_today();
    let width = terminal_width();
    search_report_on(db, args, today, width, style)
}

} // verus!
