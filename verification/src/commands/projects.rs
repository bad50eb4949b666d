//! `projects`: the projects with their task counts, as a table.
use vstd::prelude::*;
use crate::commands::{Report, ReportView, chars_to_string, report_line, success};
use crate::commands::list::terminal_width;
use crate::db::{
    DbState, ProjectRow, ProjectSummary, SummaryView, TaskDb, list_projects, names_sorted,
    summaries, summary_of,
};
use crate::table::{
    CellColor, CellSpec, CellView, TableSpec, TableView, TextStyle, cell, cells_view, drawn_text,
    header_cell, header_cell_of, render_table,
};
use crate::text::{chars_of, decimal, decimal_string, push_decimal, push_str};

use crate::db::TaskRow;

verus! {

broadcast use vstd::seq_lib::group_to_multiset_ensures;

pub open spec fn count_cell(n: u32, color: CellColor) -> CellView {
    cell(decimal(n as nat), Some(color), false)
}

/// A row of the projects table: the name in cyan, its category, open counts
/// blue (grey when
/// zero), done counts green (grey when zero), closed counts grey, and the
/// total.
pub open spec fn project_row(p: SummaryView) -> Seq<CellView> {
    seq![
        cell(p.name, Some(CellColor::Cyan), false),
        cell(match p.category {
            Some(c) => c,
            None => Seq::empty(),
        }, None, false),
        count_cell(p.open_count, if p.open_count > 0 { CellColor::Blue } else { CellColor::DarkGrey }),
        count_cell(p.done_count, if p.done_count > 0 { CellColor::Green } else { CellColor::DarkGrey }),
        count_cell(p.closed_count, CellColor::DarkGrey),
        cell(decimal((p.open_count + p.done_count + p.closed_count) as nat), None, false),
    ]
}

pub open spec fn projects_table_of(ps: Seq<SummaryView>, width: u16) -> TableView {
    TableView {
        header: seq![
            header_cell("Project"@),
            header_cell("Category"@),
            header_cell("Open"@),
            header_cell("Done"@),
            header_cell("Closed"@),
            header_cell("Total"@),
        ],
        rows: ps.map_values(|p: SummaryView| project_row(p)),
        right_aligned: seq![2usize, 3usize, 4usize, 5usize],
        width,
    }
}

fn project_cells(p: &ProjectSummary) -> (r: Vec<CellSpec>)
    ensures
        cells_view(r@) == project_row(p@),
{
    let total: u64 = p.open_count as u64 + p.done_count as u64 + p.closed_count as u64;
    let r = vec![
        CellSpec { text: p.name.clone(), color: Some(CellColor::Cyan), bold: false },
        CellSpec {
            text: match &p.category {
                Some(c) => c.clone(),
                None => String::new(),
            },
            color: None,
            bold: false,
        },
        CellSpec {
            text: decimal_string(p.open_count as u64),
            color: Some(if p.open_count > 0 { CellColor::Blue } else { CellColor::DarkGrey }),
            bold: false,
        },
        CellSpec {
            text: decimal_string(p.done_count as u64),
            color: Some(if p.done_count > 0 { CellColor::Green } else { CellColor::DarkGrey }),
            bold: false,
        },
        CellSpec { text: decimal_string(p.closed_count as u64), color: Some(CellColor::DarkGrey), bold: false },
        CellSpec { text: decimal_string(total), color: None, bold: false },
    ];
    assert(cells_view(r@) =~= project_row(p@));
    r
}

/// The projects table of `ps`.
pub fn projects_table_spec(ps: &[ProjectSummary], width: u16) -> (r: TableSpec)
    ensures
        r@ == projects_table_of(summaries(ps@), width),
{
    let ghost want = projects_table_of(summaries(ps@), width);
    let mut rows: Vec<Vec<CellSpec>> = Vec::new();
    let mut i: usize = 0;
    while i < ps.len()
        invariant
            0 <= i <= ps.len(),
            want == projects_table_of(summaries(ps@), width),
            rows@.len() == i,
            forall|k: int| 0 <= k < i ==> cells_view(#[trigger] rows@[k]@) == want.rows[k],
        decreases ps.len() - i,
    {
        rows.push(project_cells(&ps[i]));
        i = i + 1;
    }
    let header = vec![
        header_cell_of("Project"),
        header_cell_of("Category"),
        header_cell_of("Open"),
        header_cell_of("Done"),
        header_cell_of("Closed"),
        header_cell_of("Total"),
    ];
    let r = TableSpec { header, rows, right_aligned: vec![2, 3, 4, 5], width };
    proof {
        assert(r@.rows =~= want.rows);
        assert(r@.header =~= want.header);
        assert(r@.right_aligned =~= want.right_aligned);
    }
    r
}

/// What `projects` prints in a terminal `width` wide, drawn in `style`: "No
/// projects." when there are none, else the project summaries by name as a
/// table, a blank line and "<N> projects".
pub open spec fn projects_report_ok(s: DbState, width: u16, style: TextStyle, r: ReportView) -> bool {
    if s.projects.len() == 0 {
        r == success(seq!["No projects."@])
    } else {
        exists|ps: Seq<SummaryView>|
            #![trigger names_sorted(ps)]
            ps.to_multiset() == s.projects.map_values(|p: ProjectRow| summary_of(s, p)).to_multiset()
                && names_sorted(ps) && r == success(
                seq![
                    drawn_text(projects_table_of(ps, width), style),
                    Seq::empty(),
                    decimal(s.projects.len()) + " projects"@,
                ],
            )
    }
}

/// `projects` with a terminal `term_width` wide, drawn in `style`.
pub fn projects_report_on(db: &TaskDb, term_width: u16, style: TextStyle) -> (r: Report)
    requires
        db.wf(),
    ensures
        projects_report_ok(db@, term_width, style, r@),
{
    let ps = list_projects(db);
    proof {
        assert(summaries(ps@).len() == ps@.len());
        assert(summaries(ps@).to_multiset().len() == db@.projects.map_values(
            |p: crate::db::ProjectRow| crate::db::summary_of(db@, p),
        ).to_multiset().len());
    }
    if ps.len() == 0 {
        return report_line(chars_to_string(&chars_of("No projects.")));
    }
    let spec = projects_table_spec(ps.as_slice(), term_width);
    let table = render_table(&spec, style);
    let mut count: Vec<char> = Vec::new();
    push_decimal(&mut count, ps.len() as u64);
    push_str(&mut count, " projects");
    let r = Report { out: vec![table, String::new(), chars_to_string(&count)], err: Vec::new(), failed: false };
    proof {
        assert(r@.out =~= seq![table@, Seq::<char>::empty(), decimal(db@.projects.len()) + " projects"@]);
        assert(r@.err =~= Seq::<Seq<char>>::empty());
        assert(names_sorted(summaries(ps@)));
    }
    r
}

/// Options of `projects` (its JSON form is printed by the caller).
#[derive(Debug)]
pub struct ProjectsArgs {
    pub json: bool,
}

/// `projects` as a table, with the terminal's width, drawn in `style`.
pub fn run(db: &TaskDb, args: &ProjectsArgs, style: TextStyle) -> (r: Report)
    requires
        db.wf(),
    ensures
        exists|width: u16| width > 0 && projects_report_ok(db@, width, style, r@),
{
    projects_report_on(db, terminal_width(), style)
}

/// The Total column of a project's row is the number of the project's tasks,
/// whatever their status.
pub proof fn law_project_total_is_task_count(s: DbState, p: ProjectRow)
    requires
        s.wf(),
    ensures
        project_row(summary_of(s, p))[5].text == decimal(
            s.tasks.filter(|t: TaskRow| t.project_id == Some(p.id)).len(),
        ),
{
    crate::laws::law_counts_add_up(s, p.id);
    s.tasks.filter_lemma(|t: TaskRow| t.project_id == Some(p.id));
}

} // verus!
