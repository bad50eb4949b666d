//! `list`: the query its options ask for, the colors of projects, the task
//! table with its footer, and the command itself.
use vstd::prelude::*;
use rand::Rng;
use crate::commands::{
    Report, ReportView, chars_to_string, failure, report_error, report_line, success,
};
use crate::date::{Date, days_between, local_today};
use crate::date_parser::{fuzzy_date_on, parse_fuzzy_date_on};
use crate::db::{
    DbState, RowQuery, TaskDb, TaskRow, dates_sorted, get_reminds_for_task, list_tasks,
    opt_str_view, remind_dates, row_info, row_matches, selected, task_row_wf,
};
use crate::model::{SortKey, SortOrder, Status, Task, TaskInfo, opt_view};
use crate::order::{infos, sorted_tasks};
use crate::table::{
    CellColor, CellSpec, CellView, TableSpec, TableView, cell, cells_view, header_cell,
    header_cell_of, render_table, TextStyle, drawn_text,
};
use crate::text::{
    chars_of, decimal, push_decimal, push_signed_decimal, push_str, signed_decimal, str_eq,
    string_from_chars,
};

verus! {

broadcast use vstd::seq_lib::group_to_multiset_ensures;

/// Below this terminal width the list uses its three-column layout.
pub const NARROW_THRESHOLD: u16 = 60;

/// Options of `list`.
#[derive(Debug)]
pub struct ListArgs {
    /// Show all tasks, done and closed ones too.
    pub all: bool,
    /// Only tasks of this project.
    pub project: Option<String>,
    /// Only tasks whose project has this category.
    pub category: Option<String>,
    /// Only tasks due on this (fuzzy) date.
    pub due: Option<String>,
    /// Sort keys: id, due, project, created (or age), in priority order.
    pub sort: Vec<String>,
    pub asc: bool,
    pub desc: bool,
    /// Only important tasks.
    pub important_only: bool,
    /// Full-screen view that redraws every `interval` seconds.
    pub follow: bool,
    pub interval: u64,
}

/// What a `list` invocation asks the database for.
#[derive(Debug)]
pub struct ListQuery {
    pub all: bool,
    pub project: Option<String>,
    pub category: Option<String>,
    pub due: Option<Date>,
    pub sorts: Vec<SortKey>,
    pub order: SortOrder,
    pub important_only: bool,
}

/// Why the options of `list` make no query.
#[derive(Debug, PartialEq, Eq)]
pub enum QueryError {
    UnknownSortKey(String),
    InvalidDue(String),
}

/// The sort key a name stands for.
pub open spec fn sort_key_named(s: Seq<char>) -> Option<SortKey> {
    if s == "id"@ {
        Some(SortKey::Id)
    } else if s == "due"@ {
        Some(SortKey::Due)
    } else if s == "project"@ {
        Some(SortKey::Project)
    } else if s == "created"@ || s == "age"@ {
        Some(SortKey::Created)
    } else {
        None
    }
}

/// Reads a sort key name.
pub fn sort_key_of(s: &str) -> (r: Option<SortKey>)
    ensures
        r == sort_key_named(s@),
{
    if str_eq(s, "id") {
        Some(SortKey::Id)
    } else if str_eq(s, "due") {
        Some(SortKey::Due)
    } else if str_eq(s, "project") {
        Some(SortKey::Project)
    } else if str_eq(s, "created") || str_eq(s, "age") {
        Some(SortKey::Created)
    } else {
        None
    }
}

pub open spec fn strings_view(v: Seq<String>) -> Seq<Seq<char>> {
    v.map_values(|s: String| s@)
}

/// Index `i` holds the first unknown sort key name.
pub open spec fn first_unknown_at(ss: Seq<Seq<char>>, i: int) -> bool {
    &&& 0 <= i < ss.len()
    &&& sort_key_named(ss[i]) is None
    &&& forall|j: int| 0 <= j < i ==> sort_key_named(#[trigger] ss[j]) is Some
}

pub open spec fn all_keys_known(ss: Seq<Seq<char>>) -> bool {
    forall|j: int| 0 <= j < ss.len() ==> sort_key_named(#[trigger] ss[j]) is Some
}

pub open spec fn keys_named(ss: Seq<Seq<char>>) -> Seq<SortKey> {
    ss.map_values(|s: Seq<char>| sort_key_named(s)->0)
}

pub open spec fn order_of(args: ListArgs) -> SortOrder {
    if args.desc {
        SortOrder::Desc
    } else {
        SortOrder::Asc
    }
}

/// The query of `args` on a given day, or the first reason there is none:
/// sort keys are read first, then the due date.
pub open spec fn query_ok(args: ListArgs, q: ListQuery, today: Date) -> bool {
    &&& q.all == args.all
    &&& opt_view(q.project) == opt_view(args.project)
    &&& opt_view(q.category) == opt_view(args.category)
    &&& q.sorts@ == keys_named(strings_view(args.sort@))
    &&& q.order == order_of(args)
    &&& q.important_only == args.important_only
    &&& q.due == (match args.due {
        Some(s) => fuzzy_date_on(s@, today),
        None => None,
    })
}

fn copy_opt(s: &Option<String>) -> (r: Option<String>)
    ensures
        opt_view(r) == opt_view(*s),
{
    match s {
        Some(x) => Some(x.clone()),
        None => None,
    }
}

/// Reads the sort keys of `args`; the first unknown name when there is one.
pub fn resolve_sorts(sort: &Vec<String>) -> (r: Result<Vec<SortKey>, String>)
    ensures
        r matches Ok(v) ==> all_keys_known(strings_view(sort@)) && v@ == keys_named(
            strings_view(sort@),
        ),
        r matches Err(k) ==> exists|i: int| first_unknown_at(strings_view(sort@), i) && k@ == sort@[i]@,
        r is Ok <==> all_keys_known(strings_view(sort@)),
{
    let ghost ss = strings_view(sort@);
    let mut out: Vec<SortKey> = Vec::new();
    let mut i: usize = 0;
    while i < sort.len()
        invariant
            0 <= i <= sort.len(),
            ss == strings_view(sort@),
            forall|j: int| 0 <= j < i ==> sort_key_named(#[trigger] ss[j]) is Some,
            out@ == keys_named(ss.subrange(0, i as int)),
        decreases sort.len() - i,
    {
        match sort_key_of(sort[i].as_str()) {
            Some(k) => {
                out.push(k);
                proof {
                    assert(keys_named(ss.subrange(0, i + 1)) =~= keys_named(ss.subrange(0, i as int)).push(k));
                }
            },
            None => {
                proof {
                    assert(first_unknown_at(ss, i as int));
                    assert(!all_keys_known(ss));
                }
                return Err(sort[i].clone());
            },
        }
        i = i + 1;
    }
    proof {
        assert(ss.subrange(0, sort.len() as int) == ss);
    }
    Ok(out)
}

/// The query `args` asks for on day `today`. Fails with the first unknown
/// sort key, else with the due date text when it names no date.
pub fn resolve_query_on(args: &ListArgs, today: Date) -> (r: Result<ListQuery, QueryError>)
    requires
        today.wf(),
    ensures
        r is Ok <==> all_keys_known(strings_view(args.sort@)) && (args.due matches Some(s)
            ==> fuzzy_date_on(s@, today) is Some),
        r matches Ok(q) ==> query_ok(*args, q, today),
        r matches Err(QueryError::UnknownSortKey(k)) ==> exists|i: int|
            first_unknown_at(strings_view(args.sort@), i) && k@ == args.sort@[i]@,
        r matches Err(QueryError::InvalidDue(s)) ==> (all_keys_known(strings_view(args.sort@))
            && (args.due matches Some(d) && s@ == d@)),
{
    let sorts = match resolve_sorts(&args.sort) {
        Ok(v) => v,
        Err(k) => {
            return Err(QueryError::UnknownSortKey(k));
        },
    };
    let order = if args.desc {
        SortOrder::Desc
    } else {
        SortOrder::Asc
    };
    let due = match &args.due {
        Some(s) => match parse_fuzzy_date_on(s.as_str(), today) {
            Some(d) => Some(d),
            None => {
                return Err(QueryError::InvalidDue(s.clone()));
            },
        },
        None => None,
    };
    Ok(
        ListQuery {
            all: args.all,
            project: copy_opt(&args.project),
            category: copy_opt(&args.category),
            due,
            sorts,
            order,
            important_only: args.important_only,
        },
    )
}

/// The query `args` asks for, reading fuzzy due dates relative to the local
/// date today.
pub fn resolve_query(args: &ListArgs) -> (r: Result<ListQuery, QueryError>)
    ensures
        exists|today: Date|
            today.wf() && (r is Ok <==> all_keys_known(strings_view(args.sort@)) && (
            args.due matches Some(s) ==> fuzzy_date_on(s@, today) is Some)) && (r matches Ok(q)
                ==> query_ok(*args, q, today)),
        r matches Err(QueryError::UnknownSortKey(k)) ==> exists|i: int|
            first_unknown_at(strings_view(args.sort@), i) && k@ == args.sort@[i]@,
        r matches Err(QueryError::InvalidDue(s)) ==> (args.due matches Some(d) && s@ == d@),
{
    let today = local_today();
    resolve_query_on(args, today)
}

pub open spec fn query_error_text(e: QueryError) -> Seq<char> {
    match e {
        QueryError::UnknownSortKey(k) => "Error: unknown sort key '"@ + k@
            + "'. Use: id, due, project, created"@,
        QueryError::InvalidDue(s) => "Error: invalid due date '"@ + s@
            + "'. Use: YYYY-MM-DD, 今日, 明日, 来週, 曜日名 etc."@,
    }
}

impl QueryError {
    /// The message reported for the error.
    pub fn message(&self) -> (r: String)
        ensures
            r@ == query_error_text(*self),
    {
        let mut v: Vec<char> = Vec::new();
        match self {
            QueryError::UnknownSortKey(k) => {
                push_str(&mut v, "Error: unknown sort key '");
                push_str(&mut v, k.as_str());
                push_str(&mut v, "'. Use: id, due, project, created");
            },
            QueryError::InvalidDue(s) => {
                push_str(&mut v, "Error: invalid due date '");
                push_str(&mut v, s.as_str());
                push_str(&mut v, "'. Use: YYYY-MM-DD, 今日, 明日, 来週, 曜日名 etc.");
            },
        }
        string_from_chars(v.as_slice())
    }
}

// ----- project colors -----

/// Colors of projects by name; no name occurs twice.
#[derive(Debug)]
pub struct ColorMap {
    pub entries: Vec<(String, CellColor)>,
}

impl View for ColorMap {
    type V = Seq<(Seq<char>, CellColor)>;

    open spec fn view(&self) -> Seq<(Seq<char>, CellColor)> {
        self.entries@.map_values(|e: (String, CellColor)| (e.0@, e.1))
    }
}

pub open spec fn names_distinct(m: Seq<(Seq<char>, CellColor)>) -> bool {
    forall|i: int, j: int| 0 <= i < j < m.len() ==> m[i].0 != m[j].0
}

/// The color of a project in a map without repeated names.
pub open spec fn color_of(m: Seq<(Seq<char>, CellColor)>, name: Seq<char>) -> Option<CellColor> {
    if exists|i: int| 0 <= i < m.len() && m[i].0 == name {
        Some(m[choose|i: int| 0 <= i < m.len() && m[i].0 == name].1)
    } else {
        None
    }
}

proof fn lemma_color_of_at(m: Seq<(Seq<char>, CellColor)>, i: int)
    requires
        names_distinct(m),
        0 <= i < m.len(),
    ensures
        color_of(m, m[i].0) == Some(m[i].1),
{
    let k = choose|k: int| 0 <= k < m.len() && m[k].0 == m[i].0;
    assert(0 <= k < m.len() && m[k].0 == m[i].0);
    if k < i {
        assert(m[k].0 != m[i].0);
    } else if i < k {
        assert(m[i].0 != m[k].0);
    }
}

impl ColorMap {
    pub open spec fn wf(&self) -> bool {
        names_distinct(self@)
    }

    pub fn new() -> (r: ColorMap)
        ensures
            r.wf(),
            r@ == Seq::<(Seq<char>, CellColor)>::empty(),
    {
        ColorMap { entries: Vec::new() }
    }

    fn position(&self, name: &str) -> (r: Option<usize>)
        requires
            self.wf(),
        ensures
            r matches Some(i) ==> i < self@.len() && self@[i as int].0 == name@,
            r is None ==> forall|i: int| 0 <= i < self@.len() ==> self@[i].0 != name@,
    {
        let mut i: usize = 0;
        while i < self.entries.len()
            invariant
                0 <= i <= self.entries.len(),
                forall|j: int| 0 <= j < i ==> self@[j].0 != name@,
            decreases self.entries.len() - i,
        {
            if str_eq(self.entries[i].0.as_str(), name) {
                return Some(i);
            }
            i = i + 1;
        }
        None
    }

    /// The color of project `name`, if it has one.
    pub fn get(&self, name: &str) -> (r: Option<CellColor>)
        requires
            self.wf(),
        ensures
            r == color_of(self@, name@),
    {
        match self.position(name) {
            Some(i) => {
                proof {
                    lemma_color_of_at(self@, i as int);
                }
                Some(self.entries[i].1)
            },
            None => None,
        }
    }

    /// Gives project `name` the color `color`.
    pub fn insert(&mut self, name: &str, color: CellColor)
        requires
            old(self).wf(),
        ensures
            final(self).wf(),
            color_of(final(self)@, name@) == Some(color),
            forall|n: Seq<char>| n != name@ ==> color_of(final(self)@, n) == color_of(old(self)@, n),
    {
        let ghost m0 = self@;
        match self.position(name) {
            Some(i) => {
                let key = self.entries[i].0.clone();
                self.entries.set(i, (key, color));
                proof {
                    let m = self@;
                    assert(m =~= m0.update(i as int, (name@, color)));
                    lemma_color_of_at(m, i as int);
                    assert forall|n: Seq<char>| n != name@ implies color_of(m, n) == color_of(m0, n) by {
                        if exists|k: int| 0 <= k < m0.len() && m0[k].0 == n {
                            let k = choose|k: int| 0 <= k < m0.len() && m0[k].0 == n;
                            lemma_color_of_at(m0, k);
                            lemma_color_of_at(m, k);
                        } else {
                            assert(!exists|k: int| 0 <= k < m.len() && m[k].0 == n);
                        }
                    }
                }
            },
            None => {
                let key = string_from_chars(chars_of(name).as_slice());
                self.entries.push((key, color));
                proof {
                    let m = self@;
                    assert(m =~= m0.push((name@, color)));
                    lemma_color_of_at(m, m0.len() as int);
                    assert forall|n: Seq<char>| n != name@ implies color_of(m, n) == color_of(m0, n) by {
                        if exists|k: int| 0 <= k < m0.len() && m0[k].0 == n {
                            let k = choose|k: int| 0 <= k < m0.len() && m0[k].0 == n;
                            lemma_color_of_at(m0, k);
                            lemma_color_of_at(m, k);
                        } else {
                            assert(!exists|k: int| 0 <= k < m.len() && m[k].0 == n);
                        }
                    }
                }
            },
        }
    }
}

/// The palette project colors are drawn from.
pub open spec fn palette() -> Seq<CellColor> {
    seq![
        CellColor::Rgb { r: 255, g: 107, b: 107 },
        CellColor::Rgb { r: 255, g: 179, b: 71 },
        CellColor::Rgb { r: 255, g: 217, b: 61 },
        CellColor::Rgb { r: 119, g: 221, b: 119 },
        CellColor::Rgb { r: 77, g: 208, b: 225 },
        CellColor::Rgb { r: 129, g: 140, b: 248 },
        CellColor::Rgb { r: 192, g: 132, b: 252 },
        CellColor::Rgb { r: 244, g: 114, b: 182 },
        CellColor::Rgb { r: 251, g: 146, b: 60 },
        CellColor::Rgb { r: 45, g: 212, b: 191 },
    ]
}

/// Color `i` of the palette: coral red, orange, golden yellow, pastel green,
/// teal, periwinkle, lavender, pink, tangerine, turquoise.
pub fn palette_color(i: usize) -> (r: CellColor)
    requires
        i < 10,
    ensures
        r == palette()[i as int],
{
    if i == 0 {
        CellColor::Rgb { r: 255, g: 107, b: 107 }
    } else if i == 1 {
        CellColor::Rgb { r: 255, g: 179, b: 71 }
    } else if i == 2 {
        CellColor::Rgb { r: 255, g: 217, b: 61 }
    } else if i == 3 {
        CellColor::Rgb { r: 119, g: 221, b: 119 }
    } else if i == 4 {
        CellColor::Rgb { r: 77, g: 208, b: 225 }
    } else if i == 5 {
        CellColor::Rgb { r: 129, g: 140, b: 248 }
    } else if i == 6 {
        CellColor::Rgb { r: 192, g: 132, b: 252 }
    } else if i == 7 {
        CellColor::Rgb { r: 244, g: 114, b: 182 }
    } else if i == 8 {
        CellColor::Rgb { r: 251, g: 146, b: 60 }
    } else {
        CellColor::Rgb { r: 45, g: 212, b: 191 }
    }
}

/// rand's `rng().random_range(0..n)`: a random index below `n`.
#[verifier::external_body]
fn random_below(n: usize) -> (r: usize)
    requires
        n > 0,
    ensures
        r < n,
{
    rand::rng().random_range(0..n)
}

/// The non-empty project names of `tasks`, each once, in order of first
/// appearance.
pub open spec fn distinct_projects(tasks: Seq<TaskInfo>) -> Seq<Seq<char>>
    decreases tasks.len(),
{
    if tasks.len() == 0 {
        Seq::empty()
    } else {
        let prev = distinct_projects(tasks.drop_last());
        match tasks.last().project {
            Some(n) => if n.len() > 0 && !prev.contains(n) {
                prev.push(n)
            } else {
                prev
            },
            None => prev,
        }
    }
}

/// Gives each project of `tasks` a color drawn at random from the palette.
pub fn build_project_color_map(tasks: &[Task]) -> (r: ColorMap)
    ensures
        r.wf(),
        r@.map_values(|e: (Seq<char>, CellColor)| e.0) == distinct_projects(infos(tasks@)),
        forall|i: int| 0 <= i < r@.len() ==> palette().contains(#[trigger] r@[i].1),
{
    let mut map = ColorMap::new();
    let mut i: usize = 0;
    while i < tasks.len()
        invariant
            0 <= i <= tasks.len(),
            map.wf(),
            map@.map_values(|e: (Seq<char>, CellColor)| e.0) == distinct_projects(
                infos(tasks@.subrange(0, i as int)),
            ),
            forall|k: int| 0 <= k < map@.len() ==> palette().contains(#[trigger] map@[k].1),
        decreases tasks.len() - i,
    {
        let ghost before = map@;
        let ghost names = before.map_values(|e: (Seq<char>, CellColor)| e.0);
        proof {
            assert(infos(tasks@.subrange(0, i + 1)).drop_last() =~= infos(tasks@.subrange(0, i as int)));
            assert(infos(tasks@.subrange(0, i + 1)).last() == tasks@[i as int]@);
        }
        match &tasks[i].project {
            Some(name) => {
                if chars_of(name.as_str()).len() > 0 {
                    let pos = map.position(name.as_str());
                    match pos {
                        Some(p) => {
                            proof {
                                assert(names[p as int] == name@);
                                assert(names.contains(name@));
                            }
                        },
                        None => {
                            let idx = random_below(10);
                            let c = palette_color(idx);
                            let key = name.clone();
                            map.entries.push((key, c));
                            proof {
                                assert(!names.contains(name@)) by {
                                    if names.contains(name@) {
                                        let k = choose|k: int| 0 <= k < names.len() && names[k] == name@;
                                        assert(before[k].0 == name@);
                                    }
                                }
                                assert(map@ =~= before.push((name@, c)));
                                assert(map@.map_values(|e: (Seq<char>, CellColor)| e.0) =~= names.push(name@));
                                assert(palette().contains(c)) by {
                                    assert(palette()[idx as int] == c);
                                }
                            }
                        },
                    }
                } else {
                    proof {
                        assert(name@.len() == 0);
                    }
                }
            },
            None => {},
        }
        i = i + 1;
    }
    proof {
        assert(tasks@.subrange(0, tasks@.len() as int) =~= tasks@);
    }
    map
}

// ----- the task table -----

/// Tasks whose dates are all valid calendar dates.
pub open spec fn task_dates_wf(t: TaskInfo) -> bool {
    &&& (t.due matches Some(d) ==> d.wf())
    &&& (t.done_at matches Some(d) ==> d.wf())
    &&& t.created.wf()
    &&& t.updated.wf()
    &&& forall|i: int| 0 <= i < t.reminds.len() ==> (#[trigger] t.reminds[i]).wf()
}

/// "M/D" of a date.
pub open spec fn month_day(d: Date) -> Seq<char> {
    decimal(d.month as nat) + "/"@ + decimal(d.day as nat)
}

/// Texts joined with ", ".
pub open spec fn comma_joined(ss: Seq<Seq<char>>) -> Seq<char>
    decreases ss.len(),
{
    if ss.len() == 0 {
        Seq::empty()
    } else if ss.len() == 1 {
        ss[0]
    } else {
        comma_joined(ss.drop_last()) + ", "@ + ss.last()
    }
}

pub open spec fn is_inactive(t: TaskInfo) -> bool {
    t.status == Status::Done || t.status == Status::Closed
}

pub open spec fn is_overdue(t: TaskInfo, today: Date) -> bool {
    !is_inactive(t) && (t.due matches Some(d) && d.lt(today))
}

pub open spec fn is_due_today(t: TaskInfo, today: Date) -> bool {
    !is_inactive(t) && t.due == Some(today)
}

/// Days from the task's creation to `today`.
pub open spec fn age_days(t: TaskInfo, today: Date) -> int {
    today.day_number() - t.created.date.day_number()
}

pub open spec fn id_text(id: u32) -> Seq<char> {
    "#"@ + decimal(id as nat)
}

pub open spec fn project_text(t: TaskInfo) -> Seq<char> {
    match t.project {
        Some(p) => p,
        None => Seq::empty(),
    }
}

pub open spec fn due_text(t: TaskInfo) -> Seq<char> {
    match t.due {
        Some(d) => month_day(d),
        None => Seq::empty(),
    }
}

pub open spec fn remind_text(t: TaskInfo) -> Seq<char> {
    comma_joined(t.reminds.map_values(|d: Date| month_day(d)))
}

pub open spec fn age_text(t: TaskInfo, today: Date) -> Seq<char> {
    if t.status == Status::Done {
        match t.done_at {
            Some(d) => "done "@ + month_day(d.date),
            None => Seq::empty(),
        }
    } else if t.status == Status::Closed {
        "closed"@
    } else {
        signed_decimal(age_days(t, today)) + "d"@
    }
}

/// The title cell of an active task: red when overdue (bold if important),
/// magenta bold when important.
pub open spec fn active_title_cell(t: TaskInfo, today: Date) -> CellView {
    if is_overdue(t, today) {
        cell(t.title, Some(CellColor::Red), t.important)
    } else if t.important {
        cell(t.title, Some(CellColor::Magenta), true)
    } else {
        cell(t.title, None, false)
    }
}

/// The due cell of an active task: red when overdue, yellow when due today,
/// green when due later.
pub open spec fn active_due_cell(t: TaskInfo, today: Date) -> CellView {
    if is_overdue(t, today) {
        cell(due_text(t), Some(CellColor::Red), false)
    } else if is_due_today(t, today) {
        cell(due_text(t), Some(CellColor::Yellow), false)
    } else if t.due is Some {
        cell(due_text(t), Some(CellColor::Green), false)
    } else {
        cell(due_text(t), None, false)
    }
}

pub open spec fn project_cell_color(colors: Seq<(Seq<char>, CellColor)>, t: TaskInfo) -> CellColor {
    match color_of(colors, project_text(t)) {
        Some(c) => c,
        None => CellColor::White,
    }
}

/// A row of the three-column layout.
pub open spec fn compact_row(t: TaskInfo, today: Date) -> Seq<CellView> {
    let status_color = if t.status == Status::Done {
        CellColor::Green
    } else if t.status == Status::Closed {
        CellColor::DarkGrey
    } else {
        CellColor::Cyan
    };
    let title = if t.status == Status::Done {
        cell(t.title, Some(CellColor::Green), false)
    } else if t.status == Status::Closed {
        cell(t.title, Some(CellColor::DarkGrey), false)
    } else {
        active_title_cell(t, today)
    };
    let due = if is_inactive(t) {
        cell(due_text(t), Some(if t.status == Status::Done { CellColor::Green } else { CellColor::DarkGrey }), false)
    } else {
        active_due_cell(t, today)
    };
    seq![cell(id_text(t.id), Some(status_color), false), title, due]
}

/// A row of the full layout: done rows green (the project keeps its color),
/// closed rows dark grey, open rows colored by due date and age.
pub open spec fn wide_row(t: TaskInfo, colors: Seq<(Seq<char>, CellColor)>, today: Date) -> Seq<CellView> {
    if t.status == Status::Done {
        let g = Some(CellColor::Green);
        seq![
            cell(id_text(t.id), g, false),
            cell("DONE"@, g, false),
            cell(project_text(t), Some(project_cell_color(colors, t)), false),
            cell(t.title, g, false),
            cell(due_text(t), g, false),
            cell(remind_text(t), g, false),
            cell(age_text(t, today), g, false),
        ]
    } else if t.status == Status::Closed {
        let g = Some(CellColor::DarkGrey);
        seq![
            cell(id_text(t.id), g, false),
            cell("CLOSED"@, g, false),
            cell(project_text(t), g, false),
            cell(t.title, g, false),
            cell(due_text(t), g, false),
            cell(remind_text(t), g, false),
            cell(age_text(t, today), g, false),
        ]
    } else {
        let days = age_days(t, today);
        let age_color = if days > 30 {
            Some(CellColor::Red)
        } else if days > 7 {
            Some(CellColor::Yellow)
        } else {
            None
        };
        seq![
            cell(id_text(t.id), Some(CellColor::Cyan), false),
            cell("OPEN"@, Some(CellColor::Blue), false),
            cell(project_text(t), Some(project_cell_color(colors, t)), false),
            active_title_cell(t, today),
            active_due_cell(t, today),
            cell(remind_text(t), None, false),
            cell(age_text(t, today), age_color, false),
        ]
    }
}

pub open spec fn list_header(compact: bool) -> Seq<CellView> {
    if compact {
        seq![header_cell("ID"@), header_cell("Title"@), header_cell("Due"@)]
    } else {
        seq![
            header_cell("ID"@),
            header_cell("Status"@),
            header_cell("Project"@),
            header_cell("Title"@),
            header_cell("Due"@),
            header_cell("Remind"@),
            header_cell("Age"@),
        ]
    }
}

/// The task table: three columns below `NARROW_THRESHOLD`, seven otherwise;
/// the id column (and the age column) aligned right.
pub open spec fn task_table_of(
    tasks: Seq<TaskInfo>,
    colors: Seq<(Seq<char>, CellColor)>,
    width: u16,
    today: Date,
) -> TableView {
    let compact = width < NARROW_THRESHOLD;
    TableView {
        header: list_header(compact),
        rows: tasks.map_values(
            |t: TaskInfo| if compact { compact_row(t, today) } else { wide_row(t, colors, today) },
        ),
        right_aligned: if compact { seq![0usize] } else { seq![0usize, 6usize] },
        width,
    }
}

/// Done and closed tasks.
pub open spec fn inactive_count(tasks: Seq<TaskInfo>) -> nat {
    tasks.filter(|t: TaskInfo| is_inactive(t)).len()
}

/// "N tasks", or "N tasks (M done)" when all tasks are shown and some are
/// done or closed.
pub open spec fn footer_text(tasks: Seq<TaskInfo>, all: bool) -> Seq<char> {
    if all && inactive_count(tasks) > 0 {
        decimal(tasks.len()) + " tasks ("@ + decimal(inactive_count(tasks)) + " done)"@
    } else {
        decimal(tasks.len()) + " tasks"@
    }
}

fn push_month_day(v: &mut Vec<char>, d: Date)
    ensures
        final(v)@ == old(v)@ + month_day(d),
{
    let ghost v0 = v@;
    push_decimal(v, d.month as u64);
    push_str(v, "/");
    push_decimal(v, d.day as u64);
    proof {
        reveal_strlit("/");
        assert(v@ =~= v0 + month_day(d));
    }
}

fn text_of(v: &Vec<char>) -> (r: String)
    ensures
        r@ == v@,
{
    string_from_chars(v.as_slice())
}

fn make(text: Vec<char>, color: Option<CellColor>, bold: bool) -> (r: CellSpec)
    ensures
        r@ == cell(text@, color, bold),
{
    CellSpec { text: text_of(&text), color, bold }
}

fn copy_text(s: &String) -> (r: Vec<char>)
    ensures
        r@ == s@,
{
    chars_of(s.as_str())
}

fn literal(s: &str) -> (r: Vec<char>)
    ensures
        r@ == s@,
{
    chars_of(s)
}

fn id_chars(id: u32) -> (r: Vec<char>)
    ensures
        r@ == id_text(id),
{
    let mut v: Vec<char> = Vec::new();
    push_str(&mut v, "#");
    push_decimal(&mut v, id as u64);
    v
}

fn project_chars(t: &Task) -> (r: Vec<char>)
    ensures
        r@ == project_text(t@),
{
    match &t.project {
        Some(p) => chars_of(p.as_str()),
        None => Vec::new(),
    }
}

fn due_chars(t: &Task) -> (r: Vec<char>)
    ensures
        r@ == due_text(t@),
{
    let mut v: Vec<char> = Vec::new();
    match t.due {
        Some(d) => {
            push_month_day(&mut v, d);
        },
        None => {},
    }
    v
}

fn remind_chars(t: &Task) -> (r: Vec<char>)
    ensures
        r@ == remind_text(t@),
{
    let ghost parts = t.reminds@.map_values(|d: Date| month_day(d));
    let mut v: Vec<char> = Vec::new();
    let mut i: usize = 0;
    while i < t.reminds.len()
        invariant
            0 <= i <= t.reminds.len(),
            parts == t.reminds@.map_values(|d: Date| month_day(d)),
            v@ == comma_joined(parts.subrange(0, i as int)),
        decreases t.reminds.len() - i,
    {
        let ghost before = v@;
        if i > 0 {
            push_str(&mut v, ", ");
        }
        push_month_day(&mut v, t.reminds[i]);
        proof {
            let p = parts.subrange(0, i + 1);
            assert(p.drop_last() =~= parts.subrange(0, i as int));
            assert(p.last() == month_day(t.reminds@[i as int]));
            if i == 0 {
                assert(p.len() == 1);
                assert(v@ =~= p[0]);
            } else {
                assert(v@ =~= before + ", "@ + p.last());
            }
        }
        i = i + 1;
    }
    proof {
        assert(parts.subrange(0, t.reminds@.len() as int) =~= parts);
    }
    v
}

fn age_chars(t: &Task, today: Date) -> (r: Vec<char>)
    requires
        today.wf(),
        task_dates_wf(t@),
    ensures
        r@ == age_text(t@, today),
{
    let mut v: Vec<char> = Vec::new();
    match t.status {
        Status::Done => {
            match t.done_at {
                Some(d) => {
                    push_str(&mut v, "done ");
                    push_month_day(&mut v, d.date);
                },
                None => {},
            }
        },
        Status::Closed => {
            push_str(&mut v, "closed");
        },
        Status::Open => {
            let days = days_between(today, t.created.date);
            push_signed_decimal(&mut v, days);
            push_str(&mut v, "d");
        },
    }
    v
}

fn active_title(t: &Task, today: Date) -> (r: CellSpec)
    requires
        task_dates_wf(t@),
        today.wf(),
        !is_inactive(t@),
    ensures
        r@ == active_title_cell(t@, today),
{
    let overdue = match t.due {
        Some(d) => d.is_before(&today),
        None => false,
    };
    if overdue {
        make(copy_text(&t.title), Some(CellColor::Red), t.important)
    } else if t.important {
        make(copy_text(&t.title), Some(CellColor::Magenta), true)
    } else {
        make(copy_text(&t.title), None, false)
    }
}

fn active_due(t: &Task, today: Date) -> (r: CellSpec)
    requires
        task_dates_wf(t@),
        today.wf(),
        !is_inactive(t@),
    ensures
        r@ == active_due_cell(t@, today),
{
    match t.due {
        Some(d) => {
            if d.is_before(&today) {
                make(due_chars(t), Some(CellColor::Red), false)
            } else if d.same_day(&today) {
                make(due_chars(t), Some(CellColor::Yellow), false)
            } else {
                make(due_chars(t), Some(CellColor::Green), false)
            }
        },
        None => make(due_chars(t), None, false),
    }
}

fn compact_cells(t: &Task, today: Date) -> (r: Vec<CellSpec>)
    requires
        task_dates_wf(t@),
        today.wf(),
    ensures
        cells_view(r@) == compact_row(t@, today),
{
    let (color, title, due) = match t.status {
        Status::Done => (
            CellColor::Green,
            make(copy_text(&t.title), Some(CellColor::Green), false),
            make(due_chars(t), Some(CellColor::Green), false),
        ),
        Status::Closed => (
            CellColor::DarkGrey,
            make(copy_text(&t.title), Some(CellColor::DarkGrey), false),
            make(due_chars(t), Some(CellColor::DarkGrey), false),
        ),
        Status::Open => (CellColor::Cyan, active_title(t, today), active_due(t, today)),
    };
    let r = vec![make(id_chars(t.id), Some(color), false), title, due];
    assert(cells_view(r@) =~= compact_row(t@, today));
    r
}

fn wide_cells(t: &Task, colors: &ColorMap, today: Date) -> (r: Vec<CellSpec>)
    requires
        task_dates_wf(t@),
        today.wf(),
        colors.wf(),
    ensures
        cells_view(r@) == wide_row(t@, colors@, today),
{
    let project = project_chars(t);
    let project_color = match colors.get(text_of(&project).as_str()) {
        Some(c) => c,
        None => CellColor::White,
    };
    let r = match t.status {
        Status::Done => {
            let g = Some(CellColor::Green);
            vec![
                make(id_chars(t.id), g, false),
                make(literal("DONE"), g, false),
                make(project, Some(project_color), false),
                make(copy_text(&t.title), g, false),
                make(due_chars(t), g, false),
                make(remind_chars(t), g, false),
                make(age_chars(t, today), g, false),
            ]
        },
        Status::Closed => {
            let g = Some(CellColor::DarkGrey);
            vec![
                make(id_chars(t.id), g, false),
                make(literal("CLOSED"), g, false),
                make(project, g, false),
                make(copy_text(&t.title), g, false),
                make(due_chars(t), g, false),
                make(remind_chars(t), g, false),
                make(age_chars(t, today), g, false),
            ]
        },
        Status::Open => {
            let days = days_between(today, t.created.date);
            let age_color = if days > 30 {
                Some(CellColor::Red)
            } else if days > 7 {
                Some(CellColor::Yellow)
            } else {
                None
            };
            vec![
                make(id_chars(t.id), Some(CellColor::Cyan), false),
                make(literal("OPEN"), Some(CellColor::Blue), false),
                make(project, Some(project_color), false),
                active_title(t, today),
                active_due(t, today),
                make(remind_chars(t), None, false),
                make(age_chars(t, today), age_color, false),
            ]
        },
    };
    assert(cells_view(r@) =~= wide_row(t@, colors@, today));
    r
}

fn list_header_cells(compact: bool) -> (r: Vec<CellSpec>)
    ensures
        cells_view(r@) == list_header(compact),
{
    let r = if compact {
        vec![header_cell_of("ID"), header_cell_of("Title"), header_cell_of("Due")]
    } else {
        vec![
            header_cell_of("ID"),
            header_cell_of("Status"),
            header_cell_of("Project"),
            header_cell_of("Title"),
            header_cell_of("Due"),
            header_cell_of("Remind"),
            header_cell_of("Age"),
        ]
    };
    assert(cells_view(r@) =~= list_header(compact));
    r
}

/// The task table of `tasks` on day `today`.
pub fn task_table_spec(tasks: &[Task], colors: &ColorMap, width: u16, today: Date) -> (r: TableSpec)
    requires
        today.wf(),
        colors.wf(),
        forall|i: int| 0 <= i < tasks@.len() ==> task_dates_wf(#[trigger] tasks@[i]@),
    ensures
        r@ == task_table_of(infos(tasks@), colors@, width, today),
{
    let compact = width < NARROW_THRESHOLD;
    let ghost want = task_table_of(infos(tasks@), colors@, width, today);
    let mut rows: Vec<Vec<CellSpec>> = Vec::new();
    let mut i: usize = 0;
    while i < tasks.len()
        invariant
            0 <= i <= tasks.len(),
            compact == (width < NARROW_THRESHOLD),
            today.wf(),
            colors.wf(),
            forall|k: int| 0 <= k < tasks@.len() ==> task_dates_wf(#[trigger] tasks@[k]@),
            want == task_table_of(infos(tasks@), colors@, width, today),
            rows@.len() == i,
            forall|k: int| 0 <= k < i ==> cells_view(#[trigger] rows@[k]@) == want.rows[k],
        decreases tasks.len() - i,
    {
        let row = if compact {
            compact_cells(&tasks[i as usize], today)
        } else {
            wide_cells(&tasks[i as usize], colors, today)
        };
        rows.push(row);
        i = i + 1;
    }
    let right_aligned: Vec<usize> = if compact {
        vec![0]
    } else {
        vec![0, 6]
    };
    let r = TableSpec { header: list_header_cells(compact), rows, right_aligned, width };
    proof {
        assert(r@.rows =~= want.rows);
        assert(r@.right_aligned =~= want.right_aligned);
    }
    r
}

/// The footer under the task table.
pub fn footer(tasks: &[Task], all: bool) -> (r: String)
    ensures
        r@ == footer_text(infos(tasks@), all),
{
    let ghost ts = infos(tasks@);
    let mut done: usize = 0;
    let mut i: usize = 0;
    while i < tasks.len()
        invariant
            0 <= i <= tasks.len(),
            ts == infos(tasks@),
            done == inactive_count(ts.subrange(0, i as int)),
            done <= i,
        decreases tasks.len() - i,
    {
        proof {
            let p = ts.subrange(0, i + 1);
            assert(p.drop_last() =~= ts.subrange(0, i as int));
            assert(p.last() == ts[i as int]);
            reveal(Seq::filter);
        }
        match tasks[i].status {
            Status::Done | Status::Closed => {
                done = done + 1;
            },
            Status::Open => {},
        }
        i = i + 1;
    }
    proof {
        assert(ts.subrange(0, tasks@.len() as int) =~= ts);
    }
    let mut v: Vec<char> = Vec::new();
    push_decimal(&mut v, tasks.len() as u64);
    if all && done > 0 {
        push_str(&mut v, " tasks (");
        push_decimal(&mut v, done as u64);
        push_str(&mut v, " done)");
    } else {
        push_str(&mut v, " tasks");
    }
    text_of(&v)
}

/// The text of the task table of `ts` drawn in `style`, a blank line, and
/// its footer.
pub open spec fn task_table_text_of(
    ts: Seq<TaskInfo>,
    all: bool,
    colors: Seq<(Seq<char>, CellColor)>,
    width: u16,
    today: Date,
    style: TextStyle,
) -> Seq<char> {
    drawn_text(task_table_of(ts, colors, width, today), style) + "\n\n"@ + footer_text(ts, all)
}

/// The task table on day `today`, laid out in `term_width` and drawn in
/// `style`, with its footer after a blank line. A function of its arguments:
/// no clock, no randomness.
pub fn build_task_table_string(
    tasks: &[Task],
    all: bool,
    project_colors: &ColorMap,
    term_width: u16,
    today: Date,
    style: TextStyle,
) -> (r: String)
    requires
        today.wf(),
        project_colors.wf(),
        forall|i: int| 0 <= i < tasks@.len() ==> task_dates_wf(#[trigger] tasks@[i]@),
    ensures
        r@ == task_table_text_of(infos(tasks@), all, project_colors@, term_width, today, style),
{
    let spec = task_table_spec(tasks, project_colors, term_width, today);
    let table = render_table(&spec, style);
    let mut v: Vec<char> = chars_of(table.as_str());
    push_str(&mut v, "\n\n");
    let f = footer(tasks, all);
    push_str(&mut v, f.as_str());
    text_of(&v)
}

// ----- the listed tasks, their reminders and the printed table -----

/// An element of a filtered sequence is in the sequence and passes the filter.
proof fn lemma_filter_member<A>(s: Seq<A>, pred: spec_fn(A) -> bool, j: int)
    requires
        0 <= j < s.filter(pred).len(),
    ensures
        s.contains(s.filter(pred)[j]),
        pred(s.filter(pred)[j]),
    decreases s.len(),
{
    reveal(Seq::filter);
    if s.len() > 0 {
        let sub = s.drop_last().filter(pred);
        if j < sub.len() {
            lemma_filter_member(s.drop_last(), pred, j);
            let k = choose|k: int| 0 <= k < s.drop_last().len() && s.drop_last()[k] == sub[j];
            assert(s[k] == sub[j]);
        } else {
            assert(s.filter(pred)[j] == s.last());
            assert(s[s.len() - 1] == s.last());
        }
    }
}

/// Each task a query returns is a row of the tables that meets the filter,
/// joined with its project's name; so its dates are valid.
pub proof fn lemma_listed(s: DbState, f: RowQuery, v: Seq<TaskInfo>, i: int)
    requires
        s.wf(),
        v.to_multiset() == selected(s, f).to_multiset(),
        0 <= i < v.len(),
    ensures
        task_dates_wf(v[i]),
        exists|t: TaskRow| s.tasks.contains(t) && row_matches(s, f, t) && v[i] == row_info(s, t),
{
    let sel = selected(s, f);
    let pred = |t: TaskRow| row_matches(s, f, t);
    assert(v.contains(v[i]));
    assert(v.to_multiset().count(v[i]) > 0);
    assert(sel.contains(v[i]));
    let j = choose|j: int| 0 <= j < sel.len() && sel[j] == v[i];
    let fl = s.tasks.filter(pred);
    lemma_filter_member(s.tasks, pred, j);
    let t = fl[j];
    assert(sel[j] == row_info(s, t));
    let k = choose|k: int| 0 <= k < s.tasks.len() && s.tasks[k] == t;
    assert(task_row_wf(s.tasks[k]));
}

pub proof fn lemma_all_listed_wf(s: DbState, f: RowQuery, v: Seq<TaskInfo>)
    requires
        s.wf(),
        v.to_multiset() == selected(s, f).to_multiset(),
    ensures
        forall|i: int| 0 <= i < v.len() ==> task_dates_wf(#[trigger] v[i]),
{
    assert forall|i: int| 0 <= i < v.len() implies task_dates_wf(#[trigger] v[i]) by {
        lemma_listed(s, f, v, i);
    }
}

/// The footer depends only on how many tasks there are and their statuses.
pub proof fn lemma_footer_by_status(a: Seq<TaskInfo>, b: Seq<TaskInfo>, all: bool)
    requires
        a.len() == b.len(),
        forall|i: int| 0 <= i < a.len() ==> (#[trigger] a[i]).status == b[i].status,
    ensures
        footer_text(a, all) == footer_text(b, all),
        inactive_count(a) == inactive_count(b),
    decreases a.len(),
{
    reveal(Seq::filter);
    if a.len() > 0 {
        lemma_footer_by_status(a.drop_last(), b.drop_last(), all);
        assert(a.last().status == b.last().status);
    }
}

/// The tasks with their reminder dates, earliest first.
pub fn fill_reminds(db: &TaskDb, tasks: Vec<Task>) -> (r: Vec<Task>)
    requires
        db.wf(),
    ensures
        r@.len() == tasks@.len(),
        forall|i: int|
            0 <= i < r@.len() ==> {
                &&& (#[trigger] r@[i])@ == TaskInfo { reminds: r@[i]@.reminds, ..tasks@[i]@ }
                &&& r@[i]@.reminds.to_multiset() == remind_dates(db@, tasks@[i].id).to_multiset()
                &&& dates_sorted(r@[i]@.reminds)
                &&& forall|k: int| 0 <= k < r@[i]@.reminds.len() ==> (#[trigger] r@[i]@.reminds[k]).wf()
            },
{
    let ghost t0 = tasks@;
    let mut tasks = tasks;
    let mut out: Vec<Task> = Vec::new();
    let mut i: usize = 0;
    let n = tasks.len();
    while i < n
        invariant
            db.wf(),
            n == t0.len(),
            0 <= i <= n,
            tasks@.len() == n,
            forall|k: int| i <= k < n ==> tasks@[k] == t0[k],
            out@.len() == i,
            forall|k: int|
                0 <= k < i ==> {
                    &&& (#[trigger] out@[k])@ == TaskInfo { reminds: out@[k]@.reminds, ..t0[k]@ }
                    &&& out@[k]@.reminds.to_multiset() == remind_dates(db@, t0[k].id).to_multiset()
                    &&& dates_sorted(out@[k]@.reminds)
                    &&& forall|m: int| 0 <= m < out@[k]@.reminds.len() ==> (#[trigger] out@[k]@.reminds[m]).wf()
                },
        decreases n - i,
    {
        let id = tasks[i].id;
        let reminds = get_reminds_for_task(db, id);
        let mut t = tasks[i].clone_task();
        t.reminds = reminds;
        out.push(t);
        i = i + 1;
    }
    out
}

impl Task {
    /// A copy of the task.
    pub fn clone_task(&self) -> (r: Task)
        ensures
            r@ == self@,
    {
        Task {
            id: self.id,
            title: self.title.clone(),
            status: self.status,
            source: self.source.clone(),
            created: self.created,
            project: match &self.project {
                Some(p) => Some(p.clone()),
                None => None,
            },
            due: self.due,
            done_at: self.done_at,
            updated: self.updated,
            reminds: self.reminds.clone(),
            important: self.important,
        }
    }
}

/// terminal_size's `terminal_size()`, its width: the width of the first of
/// standard output, error and input that is a terminal, when there is one.
/// terminal_size gives a size only when both its rows and columns are above
/// zero, so a width is at least 1; which width it is depends on the terminal
/// and is not claimed.
#[verifier::external_body]
fn terminal_width_opt() -> (r: Option<u16>)
    ensures
        r matches Some(w) ==> w > 0,
{
    terminal_size::terminal_size().map(|(w, _)| w.0)
}

/// The terminal's width, 80 when it cannot be told; never zero.
pub(crate) fn terminal_width() -> (r: u16)
    ensures
        r > 0,
{
    match terminal_width_opt() {
        Some(w) => w,
        None => 80,
    }
}

/// `w` is `ts` with each task's reminder dates in state `s`, earliest first.
pub open spec fn with_reminds(s: DbState, w: Seq<TaskInfo>, ts: Seq<TaskInfo>) -> bool {
    &&& w.len() == ts.len()
    &&& forall|i: int|
        0 <= i < w.len() ==> {
            &&& #[trigger] w[i] == TaskInfo { reminds: w[i].reminds, ..ts[i] }
            &&& w[i].reminds.to_multiset() == remind_dates(s, ts[i].id).to_multiset()
            &&& dates_sorted(w[i].reminds)
        }
}

/// `colors` gives each project of `ts` a palette color: the non-empty project
/// names, each once in order of first appearance.
pub open spec fn project_colors_for(ts: Seq<TaskInfo>, colors: Seq<(Seq<char>, CellColor)>) -> bool {
    &&& colors.map_values(|e: (Seq<char>, CellColor)| e.0) == distinct_projects(ts)
    &&& forall|i: int| 0 <= i < colors.len() ==> palette().contains(#[trigger] colors[i].1)
}

/// `text` is the table of `ts` as the list and search commands print it: the
/// tasks with their reminders in state `s`, projects given palette colors,
/// laid out in `width` on day `today`, drawn in `style`, with the footer.
pub open spec fn table_shown(
    s: DbState,
    ts: Seq<TaskInfo>,
    all: bool,
    width: u16,
    today: Date,
    style: TextStyle,
    text: Seq<char>,
) -> bool {
    exists|w: Seq<TaskInfo>, colors: Seq<(Seq<char>, CellColor)>|
        #![trigger with_reminds(s, w, ts), project_colors_for(w, colors)]
        with_reminds(s, w, ts) && project_colors_for(w, colors) && text == task_table_text_of(
            w,
            all,
            colors,
            width,
            today,
            style,
        )
}

/// The task table of `tasks` with their reminders, projects colored at
/// random, laid out in `term_width` on day `today` and drawn in `style`, with
/// its footer.
pub fn task_table_text(
    db: &TaskDb,
    tasks: Vec<Task>,
    all: bool,
    term_width: u16,
    today: Date,
    style: TextStyle,
) -> (r: String)
    requires
        db.wf(),
        today.wf(),
        forall|i: int| 0 <= i < tasks@.len() ==> task_dates_wf(#[trigger] tasks@[i]@),
    ensures
        table_shown(db@, infos(tasks@), all, term_width, today, style, r@),
        exists|table: Seq<char>| r@ == table + "\n\n"@ + footer_text(infos(tasks@), all),
{
    let ghost t0 = tasks@;
    let filled = fill_reminds(db, tasks);
    let colors = build_project_color_map(filled.as_slice());
    proof {
        assert forall|i: int| 0 <= i < filled@.len() implies task_dates_wf(#[trigger] filled@[i]@) by {
            assert(task_dates_wf(t0[i]@));
        }
        lemma_footer_by_status(infos(filled@), infos(t0), all);
    }
    let r = build_task_table_string(filled.as_slice(), all, &colors, term_width, today, style);
    proof {
        let w = infos(filled@);
        assert forall|i: int| 0 <= i < w.len() implies {
            &&& #[trigger] w[i] == TaskInfo { reminds: w[i].reminds, ..infos(t0)[i] }
            &&& w[i].reminds.to_multiset() == remind_dates(db@, infos(t0)[i].id).to_multiset()
            &&& dates_sorted(w[i].reminds)
        } by {
            assert(w[i] == filled@[i]@);
            assert(infos(t0)[i] == t0[i]@);
        }
        assert(with_reminds(db@, w, infos(t0)));
        assert(project_colors_for(w, colors@));
        assert(r@ == drawn_text(task_table_of(w, colors@, term_width, today), style) + "\n\n"@
            + footer_text(infos(t0), all));
    }
    r
}

/// The task table as the list and search commands print it, drawn in
/// `style`, with the terminal's width and the local date today.
pub fn print_task_table(db: &TaskDb, tasks: Vec<Task>, all: bool, style: TextStyle) -> (r: String)
    requires
        db.wf(),
        forall|i: int| 0 <= i < tasks@.len() ==> task_dates_wf(#[trigger] tasks@[i]@),
    ensures
        exists|today: Date, width: u16|
            today.wf() && width > 0 && table_shown(db@, infos(tasks@), all, width, today, style, r@),
{
    let today = local_today();
    let width = terminal_width();
    task_table_text(db, tasks, all, width, today, style)
}

// ----- the list command -----

pub open spec fn no_tasks_text() -> Seq<char> {
    "No tasks. Add one with: my-task add \"task title\""@
}

/// The message for options that make no query, if they make none.
pub open spec fn list_query_failure(args: ListArgs, today: Date) -> Option<Seq<char>> {
    let ss = strings_view(args.sort@);
    if !all_keys_known(ss) {
        let i = choose|i: int| first_unknown_at(ss, i);
        Some(query_error_text(QueryError::UnknownSortKey(args.sort@[i])))
    } else if args.due matches Some(s) && fuzzy_date_on(s@, today) is None {
        Some("Error: invalid due date '"@ + args.due->0@ + "'. Use: YYYY-MM-DD, 今日, 明日, 来週, 曜日名 etc."@)
    } else {
        None
    }
}

pub open spec fn list_filter(args: ListArgs, today: Date) -> RowQuery {
    RowQuery::List {
        all: args.all,
        project: opt_view(args.project),
        category: opt_view(args.category),
        due: match args.due {
            Some(s) => fuzzy_date_on(s@, today),
            None => None,
        },
        important_only: args.important_only,
    }
}

pub open spec fn list_keys(args: ListArgs) -> Seq<SortKey> {
    crate::commands::list::keys_named(strings_view(args.sort@))
}

pub open spec fn read_failed_text() -> Seq<char> {
    "Error: failed to read database"@
}

/// What `list` prints on day `today` in a terminal `width` wide, tables drawn
/// in `style`: the reason the options make no query; a read failure when no
/// sort key is given (the query has no order); "No tasks..." when nothing
/// matches; else the matching tasks in the asked order as a table with its
/// footer.
pub open spec fn list_report_ok(
    s: DbState,
    args: ListArgs,
    today: Date,
    width: u16,
    style: TextStyle,
    r: ReportView,
) -> bool {
    match list_query_failure(args, today) {
        Some(msg) => r == failure(msg),
        None => {
            let rows = selected(s, list_filter(args, today));
            if args.sort@.len() == 0 {
                r == failure(read_failed_text())
            } else if rows.len() == 0 {
                r == success(seq![no_tasks_text()])
            } else {
                exists|v: Seq<TaskInfo>, text: Seq<char>|
                    v.to_multiset() == rows.to_multiset() && sorted_tasks(
                        list_keys(args),
                        crate::commands::list::order_of(args),
                        v,
                    ) && table_shown(s, v, args.all, width, today, style, text) && r == success(
                        seq![text],
                    )
            }
        },
    }
}

pub proof fn lemma_first_unknown_unique(ss: Seq<Seq<char>>, i: int, j: int)
    requires
        first_unknown_at(ss, i),
        first_unknown_at(ss, j),
    ensures
        i == j,
{
    if i < j {
        assert(crate::commands::list::sort_key_named(ss[i]) is Some);
    } else if j < i {
        assert(crate::commands::list::sort_key_named(ss[j]) is Some);
    }
}

/// `list` on day `today` with a terminal `term_width` wide, tables drawn in
/// `style`.
pub fn list_report_on(
    db: &TaskDb,
    args: &ListArgs,
    today: Date,
    term_width: u16,
    style: TextStyle,
) -> (r: Report)
    requires
        db.wf(),
        today.wf(),
    ensures
        list_report_ok(db@, *args, today, term_width, style, r@),
{
    let q = match resolve_query_on(args, today) {
        Ok(q) => q,
        Err(e) => {
            let msg = e.message();
            proof {
                let ss = strings_view(args.sort@);
                match e {
                    QueryError::UnknownSortKey(k) => {
                        let i = choose|i: int| first_unknown_at(ss, i) && k@ == args.sort@[i]@;
                        let c = choose|i: int| first_unknown_at(ss, i);
                        lemma_first_unknown_unique(ss, i, c);
                        assert(!all_keys_known(ss));
                        assert(list_query_failure(*args, today) == Some(msg@));
                    },
                    QueryError::InvalidDue(_) => {
                        assert(all_keys_known(ss));
                        assert(list_query_failure(*args, today) == Some(msg@));
                    },
                }
            }
            return report_error(msg);
        },
    };
    let project = match &q.project {
        Some(p) => Some(p.as_str()),
        None => None,
    };
    let category = match &q.category {
        Some(c) => Some(c.as_str()),
        None => None,
    };
    let result = list_tasks(
        db,
        q.all,
        project,
        category,
        q.due,
        q.sorts.as_slice(),
        q.order,
        q.important_only,
    );
    proof {
        assert(q.sorts@.len() == args.sort@.len());
    }
    match result {
        Err(_) => report_error(chars_to_string(&chars_of("Error: failed to read database"))),
        Ok(tasks) => {
            let ghost f = list_filter(*args, today);
            proof {
                assert(opt_str_view(project) == opt_view(args.project));
                assert(opt_str_view(category) == opt_view(args.category));
            }
            if tasks.len() == 0 {
                proof {
                    assert(infos(tasks@).to_multiset().len() == 0);
                    assert(selected(db@, f).to_multiset().len() == 0);
                    assert(selected(db@, f).len() == 0);
                }
                return report_line(
                    chars_to_string(&chars_of("No tasks. Add one with: my-task add \"task title\"")),
                );
            }
            proof {
                lemma_all_listed_wf(db@, f, infos(tasks@));
                assert forall|i: int| 0 <= i < tasks@.len() implies task_dates_wf(#[trigger] tasks@[i]@) by {
                    assert(infos(tasks@)[i] == tasks@[i]@);
                }
                assert(selected(db@, f).to_multiset().len() > 0);
                assert(selected(db@, f).len() > 0);
            }
            let ghost v = infos(tasks@);
            let text = task_table_text(db, tasks, args.all, term_width, today, style);
            let r = report_line(text);
            proof {
                assert(r@ == success(seq![text@]));
                assert(v.to_multiset() == selected(db@, f).to_multiset());
                assert(sorted_tasks(list_keys(*args), crate::commands::list::order_of(*args), v));
                assert(list_query_failure(*args, today) is None);
            }
            r
        },
    }
}

/// `list`, with the local date today and the terminal's width, tables drawn
/// in `style`.
pub fn run(db: &TaskDb, args: &ListArgs, style: TextStyle) -> (r: Report)
    requires
        db.wf(),
    ensures
        exists|today: Date, width: u16|
            today.wf() && width > 0 && list_report_ok(db@, *args, today, width, style, r@),
{
    let today = local_today();
    let width = terminal_width();
    list_report_on(db, args, today, width, style)
}

/// In the full table, the Age column of a done task's row reads "done M/D"
/// of the day the task was completed, whatever its creation date and today.
pub proof fn law_done_age_is_completion_day(
    tasks: Seq<TaskInfo>,
    colors: Seq<(Seq<char>, CellColor)>,
    width: u16,
    today: Date,
    i: int,
)
    requires
        0 <= i < tasks.len(),
        width >= NARROW_THRESHOLD,
        tasks[i].status == Status::Done,
        tasks[i].done_at is Some,
    ensures
        ({
            let d = tasks[i].done_at->0.date;
            task_table_of(tasks, colors, width, today).rows[i][6].text == "done "@ + decimal(d.month as nat)
                + "/"@ + decimal(d.day as nat)
        }),
{
}

} // verus!
