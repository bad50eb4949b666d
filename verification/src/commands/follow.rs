//! The follow view of the task list: polling interval, key handling, scroll
//! offset, the visible window of the body and the indicator beneath it, and
//! the tasks and body the view shows.
use vstd::prelude::*;
use crate::commands::{Report, chars_to_string, failure, report_error};
use crate::commands::list::{
    ColorMap, ListArgs, ListQuery, QueryError, all_keys_known, build_task_table_string, task_table_text_of,
    fill_reminds, first_unknown_at, footer_text, lemma_first_unknown_unique, list_filter,
    list_keys, list_query_failure, no_tasks_text, read_failed_text, resolve_query_on,
    strings_view, task_dates_wf,
};
use crate::table::TextStyle;
use crate::date::{Date, DateTime, local_now, pad2};
use crate::db::{
    DbError, DbState, RowQuery, TaskDb, dates_sorted, list_tasks, opt_str_view, remind_dates, selected,
};
use crate::model::{SortKey, SortOrder, Task, TaskInfo, opt_view};
use crate::order::{infos, sorted_tasks};
use crate::text::{
    chars_of, decimal, push_decimal, push_decimal_padded, push_str, string_from_chars,
};

verus! {

broadcast use vstd::seq_lib::group_to_multiset_ensures;

/// Fixed rows at the top of the view: the title line and one blank line.
pub const HEADER_LINES: usize = 2;

/// Scroll action derived from a key in the follow view.
#[derive(Debug, Clone, Copy, PartialEq, Eq, Structural)]
pub enum ScrollAction {
    Up,
    Down,
    NoScroll,
}

/// The key of a key press, as far as the follow view tells keys apart.
#[derive(Debug, Clone, Copy, PartialEq, Eq, Structural)]
pub enum KeyCode {
    Char(char),
    Esc,
    Up,
    Down,
    Other,
}

/// A key press: its key and whether Control was held.
#[derive(Debug, Clone, Copy, PartialEq, Eq, Structural)]
pub struct KeyInput {
    pub code: KeyCode,
    pub ctrl: bool,
}

impl KeyInput {
    /// A key press without modifiers.
    pub fn plain(code: KeyCode) -> (r: KeyInput)
        ensures
            r == (KeyInput { code, ctrl: false }),
    {
        KeyInput { code, ctrl: false }
    }

    /// A key press with Control held.
    pub fn with_ctrl(code: KeyCode) -> (r: KeyInput)
        ensures
            r == (KeyInput { code, ctrl: true }),
    {
        KeyInput { code, ctrl: true }
    }
}

/// The polling interval, never below one second.
pub fn normalize_interval(secs: u64) -> (r: u64)
    ensures
        r == (if secs < 1 { 1 } else { secs }),
{
    if secs < 1 {
        1
    } else {
        secs
    }
}

pub open spec fn spec_is_quit_key(key: KeyInput) -> bool {
    ||| key.code == KeyCode::Char('q')
    ||| key.code == KeyCode::Char('Q')
    ||| key.code == KeyCode::Esc
    ||| (key.ctrl && (key.code == KeyCode::Char('c') || key.code == KeyCode::Char('C')))
}

/// Keys that leave the follow view: q, Q, Esc, and Ctrl-C.
pub fn is_quit_key(key: KeyInput) -> (r: bool)
    ensures
        r == spec_is_quit_key(key),
{
    match key.code {
        KeyCode::Char(c) => c == 'q' || c == 'Q' || (key.ctrl && (c == 'c' || c == 'C')),
        KeyCode::Esc => true,
        _ => false,
    }
}

pub open spec fn spec_scroll_action(key: KeyInput) -> ScrollAction {
    if key.code == KeyCode::Char('j') || key.code == KeyCode::Down {
        ScrollAction::Down
    } else if key.code == KeyCode::Char('k') || key.code == KeyCode::Up {
        ScrollAction::Up
    } else {
        ScrollAction::NoScroll
    }
}

/// `j` and Down scroll one line down, `k` and Up one line up; other keys do
/// not scroll.
pub fn scroll_action(key: KeyInput) -> (r: ScrollAction)
    ensures
        r == spec_scroll_action(key),
{
    match key.code {
        KeyCode::Char(c) => if c == 'j' {
            ScrollAction::Down
        } else if c == 'k' {
            ScrollAction::Up
        } else {
            ScrollAction::NoScroll
        },
        KeyCode::Down => ScrollAction::Down,
        KeyCode::Up => ScrollAction::Up,
        _ => ScrollAction::NoScroll,
    }
}

/// The largest offset that still shows a full screen: `total - visible`, or 0.
pub open spec fn max_offset(total: int, visible: int) -> int {
    if total > visible {
        total - visible
    } else {
        0
    }
}

pub open spec fn min(a: int, b: int) -> int {
    if a < b {
        a
    } else {
        b
    }
}

/// The offset pulled back to the last full screen of content.
pub fn clamp_scroll_offset(offset: usize, total_lines: usize, visible_height: usize) -> (r: usize)
    ensures
        r == min(offset as int, max_offset(total_lines as int, visible_height as int)),
{
    let m = if total_lines > visible_height {
        total_lines - visible_height
    } else {
        0
    };
    if offset < m {
        offset
    } else {
        m
    }
}

/// The half-open window `[start, end)` of line indices shown for an offset and
/// a viewport height, always within `0..=total`.
pub fn visible_range(total: usize, offset: usize, visible: usize) -> (r: (usize, usize))
    ensures
        r.0 == min(offset as int, total as int),
        r.1 == min(r.0 + visible, total as int),
        r.0 <= r.1 <= total,
{
    let start = if offset < total {
        offset
    } else {
        total
    };
    let end = if visible <= total - start {
        start + visible
    } else {
        total
    };
    (start, end)
}

/// The scroll indicator: the shown lines as a 1-based inclusive range over the
/// total, `[0-0/total]` when nothing is shown.
pub open spec fn indicator_text(offset: int, visible: int, total: nat) -> Seq<char> {
    let start = min(offset, total as int);
    let end = min(start + visible, total as int);
    if total == 0 || start >= end {
        "[0-0/"@ + decimal(total) + "]"@
    } else {
        "["@ + decimal((start + 1) as nat) + "-"@ + decimal(end as nat) + "/"@ + decimal(total)
            + "]"@
    }
}

/// Formats the scroll position indicator shown at the bottom of the view.
pub fn format_scroll_indicator(offset: usize, visible: usize, total: usize) -> (r: String)
    ensures
        r@ == indicator_text(offset as int, visible as int, total as nat),
{
    let mut v: Vec<char> = Vec::new();
    let (start, end) = visible_range(total, offset, visible);
    if total == 0 || start >= end {
        push_str(&mut v, "[0-0/");
        push_decimal(&mut v, total as u64);
        push_str(&mut v, "]");
    } else {
        push_str(&mut v, "[");
        push_decimal(&mut v, start as u64 + 1);
        push_str(&mut v, "-");
        push_decimal(&mut v, end as u64);
        push_str(&mut v, "/");
        push_decimal(&mut v, total as u64);
        push_str(&mut v, "]");
    }
    proof {
        reveal_strlit("[0-0/");
        reveal_strlit("]");
        reveal_strlit("[");
        reveal_strlit("-");
        reveal_strlit("/");
    }
    string_from_chars(v.as_slice())
}

/// Rows left for the body: the terminal height less the header rows and the
/// indicator row, never below 0.
pub fn visible_height_for(term_height: u16) -> (r: usize)
    ensures
        r == (if term_height >= 3 { term_height - 3 } else { 0 }),
{
    let h = term_height as usize;
    if h >= HEADER_LINES + 1 {
        h - HEADER_LINES - 1
    } else {
        0
    }
}

// ----- the body split into lines -----

/// The lines of `s` split at each '\n' (the last one may be empty), as
/// `str::split('\n')` yields them.
pub open spec fn lines_of(s: Seq<char>) -> Seq<Seq<char>>
    decreases s.len(),
{
    if s.len() == 0 {
        seq![Seq::<char>::empty()]
    } else {
        let prev = lines_of(s.drop_last());
        if s.last() == '\n' {
            prev.push(Seq::<char>::empty())
        } else {
            prev.update(prev.len() - 1, prev.last().push(s.last()))
        }
    }
}

/// Lines joined with '\n' between them.
pub open spec fn joined(ls: Seq<Seq<char>>) -> Seq<char>
    decreases ls.len(),
{
    if ls.len() <= 1 {
        if ls.len() == 1 {
            ls[0]
        } else {
            Seq::<char>::empty()
        }
    } else {
        joined(ls.drop_last()) + seq!['\n'] + ls.last()
    }
}

/// There is always at least one line, and no line holds a '\n'.
pub proof fn lemma_lines_of_shape(s: Seq<char>)
    ensures
        lines_of(s).len() >= 1,
        forall|i: int, j: int|
            0 <= i < lines_of(s).len() && 0 <= j < lines_of(s)[i].len() ==> lines_of(s)[i][j]
                != '\n',
    decreases s.len(),
{
    if s.len() > 0 {
        lemma_lines_of_shape(s.drop_last());
    }
}

/// Splitting at '\n' and joining with '\n' gives the text back.
pub proof fn law_lines_join_back(s: Seq<char>)
    ensures
        joined(lines_of(s)) == s,
    decreases s.len(),
{
    if s.len() > 0 {
        let p = s.drop_last();
        law_lines_join_back(p);
        lemma_lines_of_shape(p);
        let prev = lines_of(p);
        if s.last() == '\n' {
            assert(lines_of(s).drop_last() == prev);
            assert(s == p + seq!['\n'] + Seq::<char>::empty());
        } else {
            let cur = lines_of(s);
            if prev.len() == 1 {
                assert(cur == seq![prev[0].push(s.last())]);
                assert(s == p.push(s.last()));
            } else {
                assert(cur.drop_last() == prev.drop_last());
                assert(joined(prev) == joined(prev.drop_last()) + seq!['\n'] + prev.last());
                assert(s == p.push(s.last()));
                assert(joined(cur) == joined(prev.drop_last()) + seq!['\n'] + prev.last().push(
                    s.last(),
                ));
            }
        }
    }
}

/// Splits `s` at each '\n'.
pub fn split_lines(s: &str) -> (r: Vec<String>)
    ensures
        r@.map_values(|l: String| l@) == lines_of(s@),
{
    let cs = chars_of(s);
    let mut lines: Vec<String> = Vec::new();
    let mut cur: Vec<char> = Vec::new();
    let mut i: usize = 0;
    while i < cs.len()
        invariant
            0 <= i <= cs.len(),
            cs@ == s@,
            lines@.map_values(|l: String| l@).push(cur@) == lines_of(s@.subrange(0, i as int)),
        decreases cs.len() - i,
    {
        let c = cs[i];
        let ghost before = lines@.map_values(|l: String| l@).push(cur@);
        proof {
            assert(s@.subrange(0, i + 1).drop_last() == s@.subrange(0, i as int));
        }
        if c == '\n' {
            let line = string_from_chars(cur.as_slice());
            lines.push(line);
            cur = Vec::new();
            assert(lines@.map_values(|l: String| l@).push(cur@) =~= before.push(
                Seq::<char>::empty(),
            ));
        } else {
            cur.push(c);
            assert(lines@.map_values(|l: String| l@).push(cur@) =~= before.update(
                before.len() - 1,
                before.last().push(c),
            ));
        }
        i = i + 1;
    }
    let last = string_from_chars(cur.as_slice());
    let ghost before = lines@.map_values(|l: String| l@);
    lines.push(last);
    proof {
        assert(s@.subrange(0, cs.len() as int) == s@);
        assert(lines@.map_values(|l: String| l@) =~= before.push(last@));
    }
    lines
}

// ----- one frame of the view -----

/// What one frame shows: the title line, the body lines in the scrolled
/// window (drawn from row `HEADER_LINES` down), and the indicator with the
/// row it is pinned to.
pub struct Frame {
    pub header: String,
    pub rows: Vec<String>,
    pub indicator: String,
    pub indicator_row: u16,
}

/// Lays out a frame: the body is split into lines, the offset clamped to the
/// last full screen, and the window of that offset taken.
pub fn layout_frame(header: &str, body: &str, scroll_offset: usize, term_height: u16) -> (r:
    Frame)
    ensures
        r.header@ == header@,
        ({
            let lines = lines_of(body@);
            let vh: int = if term_height >= 3 { term_height - 3 } else { 0 };
            let off = min(scroll_offset as int, max_offset(lines.len() as int, vh));
            let start = min(off, lines.len() as int);
            let end = min(start + vh, lines.len() as int);
            &&& r.rows@.map_values(|l: String| l@) == lines.subrange(start, end)
            &&& r.indicator@ == indicator_text(off, vh, lines.len())
            &&& r.indicator_row == (if term_height >= 1 { term_height - 1 } else { 0 })
        }),
{
    let lines = split_lines(body);
    let visible_height = visible_height_for(term_height);
    let total = lines.len();
    let offset = clamp_scroll_offset(scroll_offset, total, visible_height);
    let (start, end) = visible_range(total, offset, visible_height);
    let mut rows: Vec<String> = Vec::new();
    let mut i = start;
    while i < end
        invariant
            start <= i <= end <= lines.len(),
            rows@.map_values(|l: String| l@) == lines@.map_values(|l: String| l@).subrange(
                start as int,
                i as int,
            ),
        decreases end - i,
    {
        let line = lines[i].clone();
        let ghost before = rows@.map_values(|l: String| l@);
        let ghost all = lines@.map_values(|l: String| l@);
        rows.push(line);
        proof {
            assert(rows@.map_values(|l: String| l@) =~= before.push(all[i as int]));
            assert(all.subrange(start as int, i + 1) =~= all.subrange(start as int, i as int).push(
                all[i as int],
            ));
        }
        i = i + 1;
    }
    let indicator = format_scroll_indicator(offset, visible_height, total);
    let indicator_row = if term_height >= 1 {
        term_height - 1
    } else {
        0
    };
    Frame { header: string_from_chars(chars_of(header).as_slice()), rows, indicator, indicator_row }
}

// ----- the header line -----

/// "HH:MM:SS" of a time of day.
pub open spec fn clock_text(t: DateTime) -> Seq<char> {
    pad2(t.hour as int) + ":"@ + pad2(t.minute as int) + ":"@ + pad2(t.second as int)
}

pub open spec fn header_text(interval: u64, now: DateTime) -> Seq<char> {
    "my-task (follow) - q:quit r:refresh j/k:scroll  every "@ + decimal(interval as nat) + "s  "@
        + clock_text(now)
}

/// The title line of the view for a given time.
pub fn format_header(interval: u64, now: DateTime) -> (r: String)
    ensures
        r@ == header_text(interval, now),
{
    let mut v: Vec<char> = Vec::new();
    push_str(&mut v, "my-task (follow) - q:quit r:refresh j/k:scroll  every ");
    push_decimal(&mut v, interval);
    push_str(&mut v, "s  ");
    push_decimal_padded(&mut v, now.hour as u64, 2);
    push_str(&mut v, ":");
    push_decimal_padded(&mut v, now.minute as u64, 2);
    push_str(&mut v, ":");
    push_decimal_padded(&mut v, now.second as u64, 2);
    string_from_chars(v.as_slice())
}

/// The title line of the view at the local time now.
pub fn render_header(interval: u64) -> (r: String)
    ensures
        exists|now: DateTime| now.wf() && r@ == header_text(interval, now),
{
    let now = local_now();
    format_header(interval, now)
}

// ----- what a key or a timeout does -----

/// What the view does next while it waits.
#[derive(Debug, Clone, Copy, PartialEq, Eq, Structural)]
pub enum FollowAction {
    /// Leave the view.
    Quit,
    /// Draw a new frame at this offset.
    Redraw(usize),
    /// Keep waiting for input until the interval is over.
    Wait,
}

/// What the view waits for: a key, or the end of the polling interval.
#[derive(Debug, Clone, Copy, PartialEq, Eq, Structural)]
pub enum FollowEvent {
    Key(KeyInput),
    Timeout,
}

pub open spec fn spec_follow_step(offset: usize, event: FollowEvent) -> FollowAction {
    match event {
        FollowEvent::Timeout => FollowAction::Redraw(offset),
        FollowEvent::Key(key) => if spec_is_quit_key(key) {
            FollowAction::Quit
        } else if key.code == KeyCode::Char('r') || key.code == KeyCode::Char('R') {
            FollowAction::Redraw(offset)
        } else {
            match spec_scroll_action(key) {
                ScrollAction::Down => FollowAction::Redraw(
                    if offset == usize::MAX { offset } else { (offset + 1) as usize },
                ),
                ScrollAction::Up => FollowAction::Redraw(
                    if offset == 0 { 0 } else { (offset - 1) as usize },
                ),
                ScrollAction::NoScroll => FollowAction::Wait,
            }
        },
    }
}

/// The follow view's decision on an event: quit keys leave, `r`/`R` and the
/// end of the interval redraw, scroll keys move the offset by one line
/// (saturating) and redraw, other keys are ignored.
pub fn follow_step(offset: usize, event: FollowEvent) -> (r: FollowAction)
    ensures
        r == spec_follow_step(offset, event),
{
    match event {
        FollowEvent::Timeout => FollowAction::Redraw(offset),
        FollowEvent::Key(key) => {
            if is_quit_key(key) {
                FollowAction::Quit
            } else if key.code == KeyCode::Char('r') || key.code == KeyCode::Char('R') {
                FollowAction::Redraw(offset)
            } else {
                match scroll_action(key) {
                    ScrollAction::Down => FollowAction::Redraw(
                        if offset == usize::MAX {
                            offset
                        } else {
                            offset + 1
                        },
                    ),
                    ScrollAction::Up => FollowAction::Redraw(
                        if offset == 0 {
                            0
                        } else {
                            offset - 1
                        },
                    ),
                    ScrollAction::NoScroll => FollowAction::Wait,
                }
            }
        },
    }
}

// ----- laws -----

/// A clamped offset shows a full window: as many lines as fit, or all of them
/// when everything fits, and an offset past the end lands on the last full
/// screen rather than the top.
pub proof fn law_clamped_window_is_full(offset: int, total: int, visible: int)
    requires
        offset >= 0,
        total >= 0,
        visible >= 0,
    ensures
        ({
            let off = min(offset, max_offset(total, visible));
            let start = min(off, total);
            let end = min(start + visible, total);
            &&& end - start == min(visible, total)
            &&& (offset >= max_offset(total, visible) ==> end == total)
            &&& 0 <= start <= end <= total
        }),
{
}

/// Clamping twice is clamping once, and clamping never moves the offset down
/// further than the last full screen.
pub proof fn law_clamp_idempotent(offset: int, total: int, visible: int)
    requires
        offset >= 0,
        total >= 0,
        visible >= 0,
    ensures
        min(min(offset, max_offset(total, visible)), max_offset(total, visible)) == min(
            offset,
            max_offset(total, visible),
        ),
        min(offset, max_offset(total, visible)) <= offset,
{
}

// ----- the tasks and body of the view -----

/// The filter of a query.
pub open spec fn query_filter(q: ListQuery) -> RowQuery {
    RowQuery::List {
        all: q.all,
        project: opt_view(q.project),
        category: opt_view(q.category),
        due: q.due,
        important_only: q.important_only,
    }
}

/// `v` holds the tasks of `w`, in order, each with its reminder dates in
/// state `s`, earliest first.
pub open spec fn filled_from(s: DbState, v: Seq<Task>, w: Seq<TaskInfo>) -> bool {
    &&& w.len() == v.len()
    &&& forall|i: int|
        0 <= i < w.len() ==> {
            &&& (#[trigger] v[i])@ == TaskInfo { reminds: v[i]@.reminds, ..w[i] }
            &&& v[i]@.reminds.to_multiset() == remind_dates(s, w[i].id).to_multiset()
            &&& dates_sorted(v[i]@.reminds)
        }
}

/// `v` holds, with their reminders, the rows that `f` selects in state `s`,
/// ordered by `sorts` and `order`.
pub open spec fn loaded_from(
    s: DbState,
    f: RowQuery,
    sorts: Seq<SortKey>,
    order: SortOrder,
    v: Seq<Task>,
) -> bool {
    exists|w: Seq<TaskInfo>|
        #[trigger] filled_from(s, v, w) && w.to_multiset() == selected(s, f).to_multiset()
            && sorted_tasks(sorts, order, w)
}

/// The tasks a query selects, in its order, with their reminders; no valid
/// query without a sort key.
pub fn load_tasks(db: &TaskDb, query: &ListQuery) -> (r: Result<Vec<Task>, DbError>)
    requires
        db.wf(),
    ensures
        r is Err <==> query.sorts@.len() == 0,
        r matches Ok(v) ==> loaded_from(db@, query_filter(*query), query.sorts@, query.order, v@),
{
    let project = match &query.project {
        Some(p) => Some(p.as_str()),
        None => None,
    };
    let category = match &query.category {
        Some(c) => Some(c.as_str()),
        None => None,
    };
    let result = list_tasks(
        db,
        query.all,
        project,
        category,
        query.due,
        query.sorts.as_slice(),
        query.order,
        query.important_only,
    );
    proof {
        assert(opt_str_view(project) == opt_view(query.project));
        assert(opt_str_view(category) == opt_view(query.category));
    }
    match result {
        Err(e) => Err(e),
        Ok(tasks) => {
            let ghost w = infos(tasks@);
            let filled = fill_reminds(db, tasks);
            proof {
                let f = query_filter(*query);
                assert(f == RowQuery::List {
                    all: query.all,
                    project: opt_str_view(project),
                    category: opt_str_view(category),
                    due: query.due,
                    important_only: query.important_only,
                });
                assert(w.to_multiset() == selected(db@, f).to_multiset());
                assert(sorted_tasks(query.sorts@, query.order, w));
                assert(filled_from(db@, filled@, w));
                assert(loaded_from(db@, f, query.sorts@, query.order, filled@));
            }
            Ok(filled)
        },
    }
}

/// The tasks `list` shows on day `today`, with their reminders, or the
/// failure it reports instead.
pub fn query_tasks_on(db: &TaskDb, args: &ListArgs, today: Date) -> (r: Result<Vec<Task>, Report>)
    requires
        db.wf(),
        today.wf(),
    ensures
        match r {
            Err(rep) => match list_query_failure(*args, today) {
                Some(msg) => rep@ == failure(msg),
                None => args.sort@.len() == 0 && rep@ == failure(read_failed_text()),
            },
            Ok(v) => {
                &&& list_query_failure(*args, today) is None
                &&& args.sort@.len() > 0
                &&& loaded_from(
                    db@,
                    list_filter(*args, today),
                    list_keys(*args),
                    crate::commands::list::order_of(*args),
                    v@,
                )
            },
        },
{
    let q = match resolve_query_on(args, today) {
        Ok(q) => q,
        Err(e) => {
            let msg = e.message();
            proof {
                let ss = strings_view(args.sort@);
                match e {
                    QueryError::UnknownSortKey(k) => {
                        let i = choose|i: int| first_unknown_at(ss, i) && k@ == args.sort@[i]@;
                        let c = choose|i: int| first_unknown_at(ss, i);
                        lemma_first_unknown_unique(ss, i, c);
                        assert(!all_keys_known(ss));
                        assert(list_query_failure(*args, today) == Some(msg@));
                    },
                    QueryError::InvalidDue(_) => {
                        assert(all_keys_known(ss));
                        assert(list_query_failure(*args, today) == Some(msg@));
                    },
                }
            }
            return Err(report_error(msg));
        },
    };
    proof {
        assert(q.sorts@.len() == args.sort@.len());
    }
    match load_tasks(db, &q) {
        Err(_) => {
            proof {
                assert(args.sort@.len() == 0);
                assert(list_query_failure(*args, today) is None);
            }
            Err(report_error(chars_to_string(&chars_of("Error: failed to read database"))))
        },
        Ok(filled) => {
            proof {
                assert(query_filter(q) == list_filter(*args, today));
                assert(q.sorts@ == list_keys(*args));
                assert(list_query_failure(*args, today) is None);
            }
            Ok(filled)
        },
    }
}

/// The body of the follow view: the task table drawn in `style` with its
/// footer, or the "No tasks" message when there is none.
pub fn render_body(
    tasks: &[Task],
    all: bool,
    colors: &ColorMap,
    term_width: u16,
    today: Date,
    style: TextStyle,
) -> (r: String)
    requires
        today.wf(),
        colors.wf(),
        forall|i: int| 0 <= i < tasks@.len() ==> task_dates_wf(#[trigger] tasks@[i]@),
    ensures
        tasks@.len() == 0 ==> r@ == no_tasks_text(),
        tasks@.len() > 0 ==> r@ == task_table_text_of(infos(tasks@), all, colors@, term_width, today, style),
{
    if tasks.len() == 0 {
        return chars_to_string(&chars_of("No tasks. Add one with: my-task add \"task title\""));
    }
    build_task_table_string(tasks, all, colors, term_width, today, style)
}

} // verus!
