//! `project`: setting or clearing a project's category.
use vstd::prelude::*;
use crate::commands::{
    Report, ReportView, chars_to_string, failure, literal_string, report_error, report_line,
    success,
};
use crate::db::{
    DbState, TaskDb, has_project_named, opt_str_view, set_project_category,
    spec_set_project_category,
};
use crate::model::opt_view;
use crate::text::push_str;

verus! {

/// Options of `project`.
#[derive(Debug)]
pub struct ProjectArgs {
    pub name: String,
    pub set_category: Option<String>,
    pub clear_category: bool,
}

pub open spec fn set_category_text(cat: Seq<char>, name: Seq<char>) -> Seq<char> {
    "Set category '"@ + cat + "' for project '"@ + name + "'"@
}

pub open spec fn cleared_category_text(name: Seq<char>) -> Seq<char> {
    "Cleared category for project '"@ + name + "'"@
}

/// What `project` does: sets or clears the category of an existing project.
pub open spec fn spec_project_command(s: DbState, name: Seq<char>, set: Option<Seq<char>>, clear: bool) -> (DbState, ReportView) {
    if set is None && !clear {
        (s, failure("Error: specify --set-category <name> or --clear-category"@))
    } else if !has_project_named(s.projects, name) {
        (s, failure("Error: project '"@ + name + "' not found"@))
    } else {
        (
            spec_set_project_category(s, name, set),
            success(seq![
                match set {
                    Some(c) => set_category_text(c, name),
                    None => cleared_category_text(name),
                },
            ]),
        )
    }
}

/// `project`: sets or clears the category of an existing project.
pub fn run(db: &mut TaskDb, args: &ProjectArgs) -> (r: Report)
    requires
        old(db).wf(),
    ensures
        final(db).wf(),
        (final(db)@, r@) == spec_project_command(
            old(db)@,
            args.name@,
            opt_view(args.set_category),
            args.clear_category,
        ),
{
    let name = args.name.as_str();
    let (category, message) = match &args.set_category {
        Some(cat) => {
            let mut v: Vec<char> = Vec::new();
            push_str(&mut v, "Set category '");
            push_str(&mut v, cat.as_str());
            push_str(&mut v, "' for project '");
            push_str(&mut v, name);
            push_str(&mut v, "'");
            (Some(cat.as_str()), chars_to_string(&v))
        },
        None => {
            if !args.clear_category {
                return report_error(
                    literal_string("Error: specify --set-category <name> or --clear-category"),
                );
            }
            let mut v: Vec<char> = Vec::new();
            push_str(&mut v, "Cleared category for project '");
            push_str(&mut v, name);
            push_str(&mut v, "'");
            (None, chars_to_string(&v))
        },
    };
    proof {
        assert(opt_str_view(category) == opt_view(args.set_category));
    }
    if set_project_category(db, name, category) {
        report_line(message)
    } else {
        let mut v: Vec<char> = Vec::new();
        push_str(&mut v, "Error: project '");
        push_str(&mut v, name);
        push_str(&mut v, "' not found");
        report_error(chars_to_string(&v))
    }
}

} // verus!
