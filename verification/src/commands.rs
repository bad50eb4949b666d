//! The commands of the task manager, one module each, and what they share:
//! the report of what a command prints, and its messages. Each command works
//! on the tables in memory and returns what it prints; reading and writing
//! the database file is the caller's.
use vstd::prelude::*;
use crate::date::Date;
use crate::date_parser::fuzzy_date_on;
use crate::text::{chars_of, decimal, push_decimal, push_str, string_from_chars};

pub mod add;
pub mod close;
pub mod done;
pub mod edit;
pub mod follow;
pub mod json_output;
pub mod list;
pub mod notify;
pub mod project;
pub mod projects;
pub mod search;
pub mod show;

verus! {

/// What a command prints: lines for standard output, lines for standard
/// error, and whether it ends in failure (exit code 1).
#[derive(Debug)]
pub struct Report {
    pub out: Vec<String>,
    pub err: Vec<String>,
    pub failed: bool,
}

pub struct ReportView {
    pub out: Seq<Seq<char>>,
    pub err: Seq<Seq<char>>,
    pub failed: bool,
}

pub open spec fn lines_view(v: Seq<String>) -> Seq<Seq<char>> {
    v.map_values(|s: String| s@)
}

impl View for Report {
    type V = ReportView;

    open spec fn view(&self) -> ReportView {
        ReportView { out: lines_view(self.out@), err: lines_view(self.err@), failed: self.failed }
    }
}

pub open spec fn success(out: Seq<Seq<char>>) -> ReportView {
    ReportView { out, err: Seq::empty(), failed: false }
}

pub open spec fn failure(msg: Seq<char>) -> ReportView {
    ReportView { out: Seq::empty(), err: seq![msg], failed: true }
}

pub fn chars_to_string(v: &Vec<char>) -> (r: String)
    ensures
        r@ == v@,
{
    string_from_chars(v.as_slice())
}

/// A report of one line on standard output.
pub fn report_line(line: String) -> (r: Report)
    ensures
        r@ == success(seq![line@]),
{
    let r = Report { out: vec![line], err: Vec::new(), failed: false };
    assert(r@.out =~= seq![line@]);
    assert(r@.err =~= Seq::<Seq<char>>::empty());
    r
}

/// A failed report with one line on standard error.
pub fn report_error(msg: String) -> (r: Report)
    ensures
        r@ == failure(msg@),
{
    let r = Report { out: Vec::new(), err: vec![msg], failed: true };
    assert(r@.err =~= seq![msg@]);
    assert(r@.out =~= Seq::<Seq<char>>::empty());
    r
}

pub(crate) fn literal_string(s: &str) -> (r: String)
    ensures
        r@ == s@,
{
    string_from_chars(chars_of(s).as_slice())
}

/// The message for a database the tables cannot be written to.
pub open spec fn write_failed_text() -> Seq<char> {
    "Error: failed to write database"@
}

/// The message for a date text that names no date; `what` is "due" or
/// "remind".
pub open spec fn invalid_date_text(what: Seq<char>, s: Seq<char>) -> Seq<char> {
    "Error: invalid "@ + what + " date '"@ + s + "'. Use: YYYY-MM-DD, 今日, 明日, 来週, 曜日名 etc."@
}

pub fn invalid_date_message(what: &str, s: &str) -> (r: String)
    ensures
        r@ == invalid_date_text(what@, s@),
{
    let mut v: Vec<char> = Vec::new();
    push_str(&mut v, "Error: invalid ");
    push_str(&mut v, what);
    push_str(&mut v, " date '");
    push_str(&mut v, s);
    push_str(&mut v, "'. Use: YYYY-MM-DD, 今日, 明日, 来週, 曜日名 etc.");
    chars_to_string(&v)
}

/// "#<id> <title>" after a label such as "Added: ".
pub open spec fn labeled_task_text(label: Seq<char>, id: u32, title: Seq<char>) -> Seq<char> {
    label + "#"@ + decimal(id as nat) + " "@ + title
}

pub fn labeled_task_message(label: &str, id: u32, title: &str) -> (r: String)
    ensures
        r@ == labeled_task_text(label@, id, title@),
{
    let mut v: Vec<char> = Vec::new();
    push_str(&mut v, label);
    push_str(&mut v, "#");
    push_decimal(&mut v, id as u64);
    push_str(&mut v, " ");
    push_str(&mut v, title);
    chars_to_string(&v)
}

/// "Error: task #<id> <what>".
pub open spec fn task_error_text(id: u32, what: Seq<char>) -> Seq<char> {
    "Error: task #"@ + decimal(id as nat) + " "@ + what
}

pub fn task_error_message(id: u32, what: &str) -> (r: String)
    ensures
        r@ == task_error_text(id, what@),
{
    let mut v: Vec<char> = Vec::new();
    push_str(&mut v, "Error: task #");
    push_decimal(&mut v, id as u64);
    push_str(&mut v, " ");
    push_str(&mut v, what);
    chars_to_string(&v)
}

/// The date a fuzzy text names on day `today`, when it names one.
pub open spec fn opt_fuzzy(s: Option<Seq<char>>, today: Date) -> Option<Date> {
    match s {
        Some(x) => fuzzy_date_on(x, today),
        None => None,
    }
}

/// A given fuzzy text names no date.
pub open spec fn fuzzy_fails(s: Option<Seq<char>>, today: Date) -> bool {
    s matches Some(x) && fuzzy_date_on(x, today) is None
}

} // verus!
