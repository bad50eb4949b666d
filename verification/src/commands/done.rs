//! `done`: marking tasks as done, one id after another.
use vstd::prelude::*;
use crate::commands::{
    Report, ReportView, labeled_task_message, labeled_task_text, lines_view, success,
    task_error_message, task_error_text,
};
use crate::date::DateTime;
use crate::db::{DbState, TaskDb, complete_task, find_task, spec_complete_task, spec_find_task};
use crate::model::{Status, opt_view};

verus! {

/// What `done` does for one id: a missing task or one already done is an
/// error; otherwise the task is completed at `now` and "Done: #<id> <title>"
/// printed.
pub open spec fn spec_done_one(s: DbState, id: u32, now: DateTime) -> (DbState, Option<Seq<char>>, Option<Seq<char>>) {
    match spec_find_task(s, id) {
        None => (s, None, Some(task_error_text(id, "not found"@))),
        Some(t) => if t.status == Status::Done {
            (s, None, Some(task_error_text(id, "is already done"@)))
        } else {
            (spec_complete_task(s, id, now), Some(labeled_task_text("Done: "@, t.id, t.title)), None)
        },
    }
}

pub open spec fn push_opt(v: Seq<Seq<char>>, x: Option<Seq<char>>) -> Seq<Seq<char>> {
    match x {
        Some(l) => v.push(l),
        None => v,
    }
}

/// `done` over several ids in turn: each id's line goes to standard output or
/// standard error, and the command fails when any id failed.
pub open spec fn spec_done_command(s: DbState, ids: Seq<u32>, now: DateTime) -> (DbState, ReportView)
    decreases ids.len(),
{
    if ids.len() == 0 {
        (s, success(Seq::empty()))
    } else {
        let (s1, r1) = spec_done_command(s, ids.drop_last(), now);
        let (s2, o, e) = spec_done_one(s1, ids.last(), now);
        (s2, ReportView { out: push_opt(r1.out, o), err: push_opt(r1.err, e), failed: r1.failed || e is Some })
    }
}

fn done_one(db: &mut TaskDb, id: u32, now: DateTime) -> (r: (Option<String>, Option<String>))
    requires
        old(db).wf(),
        now.wf(),
    ensures
        final(db).wf(),
        ({
            let (s2, o, e) = spec_done_one(old(db)@, id, now);
            &&& final(db)@ == s2
            &&& opt_view(r.0) == o
            &&& opt_view(r.1) == e
        }),
{
    match find_task(db, id) {
        None => (None, Some(task_error_message(id, "not found"))),
        Some(t) => {
            if t.status.is_done() {
                (None, Some(task_error_message(id, "is already done")))
            } else {
                complete_task(db, id, now);
                (Some(labeled_task_message("Done: ", t.id, t.title.as_str())), None)
            }
        },
    }
}

/// Options of `done`.
#[derive(Debug)]
pub struct DoneArgs {
    /// The tasks to mark as done, in order.
    pub ids: Vec<u32>,
}

/// `done` at time `now`.
pub fn run(db: &mut TaskDb, args: &DoneArgs, now: DateTime) -> (r: Report)
    requires
        old(db).wf(),
        now.wf(),
    ensures
        final(db).wf(),
        (final(db)@, r@) == spec_done_command(old(db)@, args.ids@, now),
{
    let ids = args.ids.as_slice();
    let ghost s0 = db@;
    let mut out: Vec<String> = Vec::new();
    let mut err: Vec<String> = Vec::new();
    let mut failed = false;
    let mut i: usize = 0;
    assert(lines_view(out@) =~= Seq::<Seq<char>>::empty());
    assert(lines_view(err@) =~= Seq::<Seq<char>>::empty());
    assert(ids@.subrange(0, 0) =~= Seq::<u32>::empty());
    while i < ids.len()
        invariant
            0 <= i <= ids.len(),
            db.wf(),
            now.wf(),
            (db@, ReportView { out: lines_view(out@), err: lines_view(err@), failed })
                == spec_done_command(s0, ids@.subrange(0, i as int), now),
        decreases ids.len() - i,
    {
        proof {
            assert(ids@.subrange(0, i + 1).drop_last() =~= ids@.subrange(0, i as int));
        }
        let (o, e) = done_one(db, ids[i], now);
        let ghost out0 = lines_view(out@);
        let ghost err0 = lines_view(err@);
        match o {
            Some(l) => {
                out.push(l);
                assert(lines_view(out@) =~= out0.push(l@));
            },
            None => {},
        }
        match e {
            Some(l) => {
                err.push(l);
                failed = true;
                assert(lines_view(err@) =~= err0.push(l@));
            },
            None => {},
        }
        i = i + 1;
    }
    proof {
        assert(ids@.subrange(0, ids@.len() as int) =~= ids@);
    }
    Report { out, err, failed }
}

} // verus!
