//! Tasks, their statuses and the keys a task list can be sorted by.
use vstd::prelude::*;
use crate::date::{Date, DateTime};
use crate::text::str_eq;

verus! {

/// A task as the commands see it: the stored row, its project's name and its
/// reminder dates.
#[derive(Debug, Clone)]
pub struct Task {
    pub id: u32,
    pub title: String,
    pub status: Status,
    pub source: String,
    pub created: DateTime,
    pub project: Option<String>,
    pub due: Option<Date>,
    pub done_at: Option<DateTime>,
    pub updated: DateTime,
    pub reminds: Vec<Date>,
    pub important: bool,
}

/// The mathematical value of a `Task`: texts as character sequences.
pub struct TaskInfo {
    pub id: u32,
    pub title: Seq<char>,
    pub status: Status,
    pub source: Seq<char>,
    pub created: DateTime,
    pub project: Option<Seq<char>>,
    pub due: Option<Date>,
    pub done_at: Option<DateTime>,
    pub updated: DateTime,
    pub reminds: Seq<Date>,
    pub important: bool,
}

pub open spec fn opt_view(s: Option<String>) -> Option<Seq<char>> {
    match s {
        Some(x) => Some(x@),
        None => None,
    }
}

impl View for Task {
    type V = TaskInfo;

    open spec fn view(&self) -> TaskInfo {
        TaskInfo {
            id: self.id,
            title: self.title@,
            status: self.status,
            source: self.source@,
            created: self.created,
            project: opt_view(self.project),
            due: self.due,
            done_at: self.done_at,
            updated: self.updated,
            reminds: self.reminds@,
            important: self.important,
        }
    }
}

#[derive(Debug, Clone, Copy, PartialEq, Eq, Structural)]
pub enum Status {
    Open,
    Done,
    Closed,
}

#[derive(Debug, Clone, Copy, PartialEq, Eq, Structural)]
pub enum SortKey {
    Id,
    Due,
    Project,
    Created,
}

#[derive(Debug, Clone, Copy, PartialEq, Eq, Structural)]
pub enum SortOrder {
    Asc,
    Desc,
}

impl SortKey {
    /// The ORDER BY fragment that sorts by this key (rows without a due date
    /// or project come last).
    pub fn as_sql(&self) -> (r: &'static str)
        ensures
            r@ == (match *self {
                SortKey::Id => "id"@,
                SortKey::Due => "due IS NULL, due"@,
                SortKey::Project => "project IS NULL, project"@,
                SortKey::Created => "created"@,
            }),
    {
        match self {
            SortKey::Id => "id",
            SortKey::Due => "due IS NULL, due",
            SortKey::Project => "project IS NULL, project",
            SortKey::Created => "created",
        }
    }
}

impl SortOrder {
    pub fn as_sql(&self) -> (r: &'static str)
        ensures
            r@ == (match *self {
                SortOrder::Asc => "ASC"@,
                SortOrder::Desc => "DESC"@,
            }),
    {
        match self {
            SortOrder::Asc => "ASC",
            SortOrder::Desc => "DESC",
        }
    }
}

/// The text stored for a status.
pub open spec fn status_text(s: Status) -> Seq<char> {
    match s {
        Status::Open => "open"@,
        Status::Done => "done"@,
        Status::Closed => "closed"@,
    }
}

/// The status a stored text stands for: anything but "done" and "closed" reads
/// as open.
pub open spec fn status_of_text(s: Seq<char>) -> Status {
    if s == "done"@ {
        Status::Done
    } else if s == "closed"@ {
        Status::Closed
    } else {
        Status::Open
    }
}

impl Status {
    pub fn as_str(&self) -> (r: &'static str)
        ensures
            r@ == status_text(*self),
    {
        match self {
            Status::Open => "open",
            Status::Done => "done",
            Status::Closed => "closed",
        }
    }

    pub fn from_str(s: &str) -> (r: Status)
        ensures
            r == status_of_text(s@),
    {
        if str_eq(s, "done") {
            Status::Done
        } else if str_eq(s, "closed") {
            Status::Closed
        } else {
            Status::Open
        }
    }

    pub fn is_open(&self) -> (r: bool)
        ensures
            r == (*self == Status::Open),
    {
        match self {
            Status::Open => true,
            _ => false,
        }
    }

    pub fn is_done(&self) -> (r: bool)
        ensures
            r == (*self == Status::Done),
    {
        match self {
            Status::Done => true,
            _ => false,
        }
    }

    pub fn is_closed(&self) -> (r: bool)
        ensures
            r == (*self == Status::Closed),
    {
        match self {
            Status::Closed => true,
            _ => false,
        }
    }
}

/// Reading back the text stored for a status gives the status.
pub proof fn law_status_text_roundtrip(s: Status)
    ensures
        status_of_text(status_text(s)) == s,
{
    reveal_strlit("open");
    reveal_strlit("done");
    reveal_strlit("closed");
    assert("open"@[0] != "done"@[0]);
    assert("open"@.len() != "closed"@.len());
    assert("done"@.len() != "closed"@.len());
}

} // verus!
