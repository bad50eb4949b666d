//! The edit file of `edit -i`: tasks written as YAML-like blocks, read back
//! line by line.
use vstd::prelude::*;
use crate::commands::follow::{lines_of, split_lines};
use crate::date::{Date, date_text, parse_ymd, push_date_text};
use crate::date_parser::chrono_ymd;
use crate::model::{Task, TaskInfo, opt_view};
use crate::text::{
    chars_of, decimal, has_prefix, push_decimal, push_seq, push_str, slice_chars, starts_with,
    string_from_chars, trim_chars, trimmed,
};

verus! {

/// One task block read from the edit file.
#[derive(Debug, Clone, PartialEq, Eq)]
pub struct EditEntry {
    pub id: u32,
    pub title: String,
    pub project: Option<String>,
    pub due: Option<Date>,
}

pub struct EntryView {
    pub id: u32,
    pub title: Seq<char>,
    pub project: Option<Seq<char>>,
    pub due: Option<Date>,
}

impl View for EditEntry {
    type V = EntryView;

    open spec fn view(&self) -> EntryView {
        EntryView { id: self.id, title: self.title@, project: opt_view(self.project), due: self.due }
    }
}

pub open spec fn entries_view(v: Seq<EditEntry>) -> Seq<EntryView> {
    v.map_values(|e: EditEntry| e@)
}

// ----- lines -----

/// A line without the '\r' that may end it.
pub open spec fn strip_cr(l: Seq<char>) -> Seq<char> {
    if l.len() > 0 && l.last() == '\r' {
        l.drop_last()
    } else {
        l
    }
}

/// The lines of a text as `str::lines` yields them: split at '\n', a final
/// '\r' dropped from each, and no empty line after a final '\n'.
pub open spec fn text_lines(s: Seq<char>) -> Seq<Seq<char>> {
    let ls = lines_of(s);
    let kept = if ls.last().len() == 0 {
        ls.drop_last()
    } else {
        ls
    };
    kept.map_values(|l: Seq<char>| strip_cr(l))
}

/// `s` with every leading repetition of `p` removed (`trim_start_matches`).
pub open spec fn strip_all(s: Seq<char>, p: Seq<char>) -> Seq<char>
    decreases s.len(),
{
    if p.len() > 0 && has_prefix(s, p) {
        strip_all(s.subrange(p.len() as int, s.len() as int), p)
    } else {
        s
    }
}

/// The value of a line's field: the text after the key, trimmed.
pub open spec fn field_value(t: Seq<char>, key: Seq<char>) -> Seq<char> {
    trimmed(strip_all(t, key))
}

pub open spec fn is_digit(c: char) -> bool {
    '0' <= c && c <= '9'
}

pub open spec fn digits_value(d: Seq<char>) -> nat
    decreases d.len(),
{
    if d.len() == 0 {
        0
    } else {
        digits_value(d.drop_last()) * 10 + ((d.last() as int) - 48) as nat
    }
}

/// The digits of a number text: without a leading '+'.
pub open spec fn unsigned_digits(s: Seq<char>) -> Seq<char> {
    if s.len() > 0 && s[0] == '+' {
        s.drop_first()
    } else {
        s
    }
}

pub open spec fn all_digits(d: Seq<char>) -> bool {
    forall|i: int| 0 <= i < d.len() ==> is_digit(#[trigger] d[i])
}

/// `u32::from_str`: an optional '+', then one or more ASCII digits whose
/// value fits in 32 bits.
pub open spec fn parse_u32(s: Seq<char>) -> Option<u32> {
    let d = unsigned_digits(s);
    if d.len() > 0 && all_digits(d) && digits_value(d) <= u32::MAX {
        Some(digits_value(d) as u32)
    } else {
        None
    }
}

// ----- reading the edit file -----

/// The reader's state: the finished entries and the fields of the block
/// being read.
pub struct ParseState {
    pub entries: Seq<EntryView>,
    pub id: Option<u32>,
    pub title: Option<Seq<char>>,
    pub project: Option<Seq<char>>,
    pub due: Option<Date>,
}

pub open spec fn initial_state() -> ParseState {
    ParseState { entries: Seq::empty(), id: None, title: None, project: None, due: None }
}

/// The entries with the block being read finished.
pub open spec fn finished(st: ParseState) -> Seq<EntryView> {
    match st.id {
        Some(id) => st.entries.push(
            EntryView {
                id,
                title: match st.title {
                    Some(t) => t,
                    None => Seq::empty(),
                },
                project: st.project,
                due: st.due,
            },
        ),
        None => st.entries,
    }
}

/// Reads one line: blank lines and comments are skipped; "- id:" starts a
/// block (its value must be a number); "title:", "project:" and "due:" set
/// the fields of the block (an empty project or due is none; a due date
/// must be "YYYY-MM-DD"); other lines are ignored. `None` when the line is
/// in error.
pub open spec fn read_line(st: ParseState, line: Seq<char>) -> Option<ParseState> {
    let t = trimmed(line);
    if t.len() == 0 || t[0] == '#' {
        Some(st)
    } else if has_prefix(t, "- id:"@) {
        match parse_u32(field_value(t, "- id:"@)) {
            Some(id) => Some(
                ParseState { entries: finished(st), id: Some(id), title: None, project: None, due: None },
            ),
            None => None,
        }
    } else if has_prefix(t, "title:"@) {
        Some(ParseState { title: Some(field_value(t, "title:"@)), ..st })
    } else if has_prefix(t, "project:"@) {
        let v = field_value(t, "project:"@);
        Some(ParseState { project: if v.len() == 0 { None } else { Some(v) }, ..st })
    } else if has_prefix(t, "due:"@) {
        let v = field_value(t, "due:"@);
        if v.len() == 0 {
            Some(ParseState { due: None, ..st })
        } else {
            match chrono_ymd(v) {
                Some(d) => Some(ParseState { due: Some(d), ..st }),
                None => None,
            }
        }
    } else {
        Some(st)
    }
}

/// The state after reading `lines` in order, or the (1-based) number of the
/// first line in error.
pub open spec fn read_lines(lines: Seq<Seq<char>>) -> Result<ParseState, int>
    decreases lines.len(),
{
    if lines.len() == 0 {
        Ok(initial_state())
    } else {
        match read_lines(lines.drop_last()) {
            Err(n) => Err(n),
            Ok(st) => match read_line(st, lines.last()) {
                Some(st2) => Ok(st2),
                None => Err(lines.len() as int),
            },
        }
    }
}

/// The entries of an edit file, or the number of the line in error.
pub open spec fn yaml_entries(input: Seq<char>) -> Result<Seq<EntryView>, int> {
    match read_lines(text_lines(input)) {
        Ok(st) => Ok(finished(st)),
        Err(n) => Err(n),
    }
}

/// Once a line is in error, reading further lines keeps that error.
proof fn lemma_read_error_stays(ls: Seq<Seq<char>>, k: int, m: int)
    requires
        0 <= k <= m <= ls.len(),
        read_lines(ls.subrange(0, k)) is Err,
    ensures
        read_lines(ls.subrange(0, m)) == read_lines(ls.subrange(0, k)),
    decreases m - k,
{
    if m > k {
        lemma_read_error_stays(ls, k, m - 1);
        assert(ls.subrange(0, m).drop_last() =~= ls.subrange(0, m - 1));
    }
}

/// Reads a `u32` as `str::parse` does.
pub fn parse_u32_exec(s: &[char]) -> (r: Option<u32>)
    ensures
        r == parse_u32(s@),
{
    let start: usize = if s.len() > 0 && s[0] == '+' {
        1
    } else {
        0
    };
    let ghost d = unsigned_digits(s@);
    assert(d =~= s@.subrange(start as int, s@.len() as int));
    if start >= s.len() {
        return None;
    }
    let mut v: u64 = 0;
    let mut i = start;
    while i < s.len()
        invariant
            start <= i <= s.len(),
            start < s.len(),
            d == s@.subrange(start as int, s@.len() as int),
            d == unsigned_digits(s@),
            forall|k: int| start <= k < i ==> is_digit(s@[k]),
            v == digits_value(s@.subrange(start as int, i as int)),
            v <= u32::MAX,
        decreases s.len() - i,
    {
        let c = s[i];
        if !('0' <= c && c <= '9') {
            proof {
                assert(d[i - start] == c);
                assert(!is_digit(d[i - start]));
                assert(!all_digits(d));
            }
            return None;
        }
        proof {
            let p = s@.subrange(start as int, i + 1);
            assert(p.drop_last() =~= s@.subrange(start as int, i as int));
            assert(p.last() == c);
        }
        let digit: u64 = (c as u32 - '0' as u32) as u64;
        let next: u64 = v * 10 + digit;
        if next > 4294967295u64 {
            proof {
                if all_digits(d) {
                    lemma_digits_grow(d, (i + 1 - start) as int);
                    assert(d.subrange(0, i + 1 - start) =~= s@.subrange(start as int, i + 1));
                }
            }
            return None;
        }
        v = next;
        i = i + 1;
    }
    proof {
        assert forall|k: int| 0 <= k < d.len() implies is_digit(#[trigger] d[k]) by {
            assert(d[k] == s@[start + k]);
        }
        assert(d =~= s@.subrange(start as int, i as int));
    }
    Some(v as u32)
}

/// A prefix of a run of digits is worth no more than the whole run.
proof fn lemma_digits_grow(d: Seq<char>, n: int)
    requires
        0 <= n <= d.len(),
        forall|i: int| 0 <= i < d.len() ==> is_digit(#[trigger] d[i]),
    ensures
        digits_value(d.subrange(0, n)) <= digits_value(d),
    decreases d.len() - n,
{
    if n < d.len() {
        lemma_digits_grow(d, n + 1);
        let p = d.subrange(0, n + 1);
        assert(p.drop_last() =~= d.subrange(0, n));
        assert(is_digit(p.last()));
    } else {
        assert(d.subrange(0, n) =~= d);
    }
}

/// Removes every leading repetition of `p` from `s`.
pub fn strip_all_exec(s: &[char], p: &[char]) -> (r: Vec<char>)
    ensures
        r@ == strip_all(s@, p@),
{
    let mut start: usize = 0;
    let mut go = p.len() > 0;
    assert(s@.subrange(0, s@.len() as int) =~= s@);
    while go
        invariant
            start <= s@.len(),
            go ==> p@.len() > 0,
            strip_all(s@, p@) == strip_all(s@.subrange(start as int, s@.len() as int), p@),
            !go ==> strip_all(s@, p@) == s@.subrange(start as int, s@.len() as int),
        decreases (s@.len() - start) * 2 + (if go { 1int } else { 0int }),
    {
        let rest = slice_chars(s, start, s.len());
        if starts_with(rest.as_slice(), p) {
            proof {
                assert(rest@.subrange(p@.len() as int, rest@.len() as int) =~= s@.subrange(
                    start + p@.len(),
                    s@.len() as int,
                ));
            }
            start = start + p.len();
        } else {
            go = false;
        }
    }
    let r = slice_chars(s, start, s.len());
    r
}

fn field_value_exec(t: &[char], key: &str) -> (r: Vec<char>)
    ensures
        r@ == field_value(t@, key@),
{
    let k = chars_of(key);
    let s = strip_all_exec(t, k.as_slice());
    trim_chars(s.as_slice())
}

fn has_key(t: &[char], key: &str) -> (r: bool)
    ensures
        r == has_prefix(t@, key@),
{
    let k = chars_of(key);
    starts_with(t, k.as_slice())
}

/// The lines of a text, as `str::lines` yields them.
pub fn text_lines_exec(s: &str) -> (r: Vec<Vec<char>>)
    ensures
        r@.map_values(|l: Vec<char>| l@) == text_lines(s@),
{
    let pieces = split_lines(s);
    let ghost ls = lines_of(s@);
    proof {
        crate::commands::follow::lemma_lines_of_shape(s@);
    }
    let n = pieces.len();
    let last_empty = chars_of(pieces[n - 1].as_str()).len() == 0;
    let keep = if last_empty {
        n - 1
    } else {
        n
    };
    proof {
        assert(pieces@.map_values(|l: String| l@)[n - 1] == pieces@[n - 1]@);
    }
    let ghost kept = if ls.last().len() == 0 {
        ls.drop_last()
    } else {
        ls
    };
    let mut out: Vec<Vec<char>> = Vec::new();
    let mut i: usize = 0;
    while i < keep
        invariant
            0 <= i <= keep <= n,
            n == pieces@.len(),
            pieces@.map_values(|l: String| l@) == ls,
            kept.len() == keep,
            kept == (if ls.last().len() == 0 { ls.drop_last() } else { ls }),
            out@.map_values(|l: Vec<char>| l@) == kept.subrange(0, i as int).map_values(
                |l: Seq<char>| strip_cr(l),
            ),
        decreases keep - i,
    {
        let mut l = chars_of(pieces[i].as_str());
        proof {
            assert(ls[i as int] == pieces@[i as int]@);
            assert(kept[i as int] == ls[i as int]);
        }
        if l.len() > 0 && l[l.len() - 1] == '\r' {
            l.pop();
        }
        let ghost before = out@.map_values(|l: Vec<char>| l@);
        out.push(l);
        proof {
            assert(out@.map_values(|l: Vec<char>| l@) =~= before.push(strip_cr(kept[i as int])));
            assert(kept.subrange(0, i + 1).map_values(|l: Seq<char>| strip_cr(l)) =~= kept.subrange(
                0,
                i as int,
            ).map_values(|l: Seq<char>| strip_cr(l)).push(strip_cr(kept[i as int])));
        }
        i = i + 1;
    }
    proof {
        assert(kept.subrange(0, keep as int) =~= kept);
    }
    out
}

/// The parser's state in memory.
struct Reader {
    entries: Vec<EditEntry>,
    id: Option<u32>,
    title: Option<Vec<char>>,
    project: Option<Vec<char>>,
    due: Option<Date>,
}

spec fn opt_chars(o: Option<Vec<char>>) -> Option<Seq<char>> {
    match o {
        Some(v) => Some(v@),
        None => None,
    }
}

impl Reader {
    spec fn state(&self) -> ParseState {
        ParseState {
            entries: entries_view(self.entries@),
            id: self.id,
            title: opt_chars(self.title),
            project: opt_chars(self.project),
            due: self.due,
        }
    }

    fn finish(self) -> (r: Vec<EditEntry>)
        ensures
            entries_view(r@) == finished(self.state()),
    {
        let mut entries = self.entries;
        match self.id {
            Some(id) => {
                let title = match self.title {
                    Some(t) => string_from_chars(t.as_slice()),
                    None => String::new(),
                };
                let project = match self.project {
                    Some(p) => Some(string_from_chars(p.as_slice())),
                    None => None,
                };
                let ghost before = entries_view(entries@);
                let e = EditEntry { id, title, project, due: self.due };
                entries.push(e);
                proof {
                    assert(entries_view(entries@) =~= before.push(e@));
                }
            },
            None => {},
        }
        entries
    }

    /// Reads one line; false when it is in error.
    fn read(&mut self, line: &[char]) -> (ok: bool)
        ensures
            ok == (read_line(old(self).state(), line@) is Some),
            ok ==> final(self).state() == read_line(old(self).state(), line@)->0,
            line_reads_back(line@),
    {
        let t = trim_chars(line);
        if t.len() == 0 || t[0] == '#' {
            return true;
        }
        if has_key(t.as_slice(), "- id:") {
            let v = field_value_exec(t.as_slice(), "- id:");
            match parse_u32_exec(v.as_slice()) {
                Some(id) => {
                    let mut entries: Vec<EditEntry> = Vec::new();
                    std::mem::swap(&mut entries, &mut self.entries);
                    let done = Reader {
                        entries,
                        id: self.id,
                        title: self.title.take(),
                        project: self.project.take(),
                        due: self.due,
                    };
                    let ghost st0 = done.state();
                    self.entries = done.finish();
                    self.id = Some(id);
                    self.title = None;
                    self.project = None;
                    self.due = None;
                    true
                },
                None => false,
            }
        } else if has_key(t.as_slice(), "title:") {
            self.title = Some(field_value_exec(t.as_slice(), "title:"));
            true
        } else if has_key(t.as_slice(), "project:") {
            let v = field_value_exec(t.as_slice(), "project:");
            self.project = if v.len() == 0 {
                None
            } else {
                Some(v)
            };
            true
        } else if has_key(t.as_slice(), "due:") {
            let v = field_value_exec(t.as_slice(), "due:");
            if v.len() == 0 {
                self.due = None;
                true
            } else {
                let vs = string_from_chars(v.as_slice());
                match parse_ymd(vs.as_str()) {
                    Some(d) => {
                        self.due = Some(d);
                        true
                    },
                    None => false,
                }
            }
        } else {
            true
        }
    }
}

/// Reads the entries of an edit file; `Err(n)` names the first line (from
/// 1) whose id is not a number or whose due date is not "YYYY-MM-DD". The
/// file written for tasks (see `writable`) reads back as their entries.
pub fn parse_yaml(input: &str) -> (r: Result<Vec<EditEntry>, usize>)
    ensures
        match r {
            Ok(v) => yaml_entries(input@) == Ok::<Seq<EntryView>, int>(entries_view(v@)),
            Err(n) => yaml_entries(input@) == Err::<Seq<EntryView>, int>(n as int),
        },
        forall|ts: Seq<TaskInfo>|
            (forall|k: int| 0 <= k < ts.len() ==> writable(#[trigger] ts[k])) && input@ == #[trigger] terminated(
                yaml_lines(ts),
            ) ==> (r matches Ok(v) && entries_view(v@) == entries_of(ts)),
{
    let lines = text_lines_exec(input);
    let ghost ls = text_lines(input@);
    let mut reader = Reader { entries: Vec::new(), id: None, title: None, project: None, due: None };
    proof {
        assert(entries_view(reader.entries@) =~= Seq::<EntryView>::empty());
        assert(reader.state() == initial_state());
        assert(ls.subrange(0, 0) =~= Seq::<Seq<char>>::empty());
    }
    let mut i: usize = 0;
    while i < lines.len()
        invariant
            0 <= i <= lines.len(),
            lines@.map_values(|l: Vec<char>| l@) == ls,
            ls == text_lines(input@),
            read_lines(ls.subrange(0, i as int)) == Ok::<ParseState, int>(reader.state()),
            forall|j: int| 0 <= j < i ==> line_reads_back(#[trigger] ls[j]),
        decreases lines.len() - i,
    {
        proof {
            let p = ls.subrange(0, i + 1);
            assert(p.drop_last() =~= ls.subrange(0, i as int));
            assert(p.last() == lines@[i as int]@);
        }
        let ghost st0 = reader.state();
        if !reader.read(lines[i].as_slice()) {
            proof {
                let p = ls.subrange(0, i + 1);
                assert(read_line(st0, p.last()) is None);
                assert(read_lines(p) == Err::<ParseState, int>(i + 1));
                lemma_read_error_stays(ls, i + 1, ls.len() as int);
                assert(ls.subrange(0, ls.len() as int) =~= ls);
                assert(read_lines(ls) == Err::<ParseState, int>(i + 1));
                assert(yaml_entries(input@) == Err::<Seq<EntryView>, int>(i + 1));
                assert forall|ts: Seq<TaskInfo>|
                    (forall|k: int| 0 <= k < ts.len() ==> writable(#[trigger] ts[k])) && input@ == #[trigger] terminated(
                        yaml_lines(ts),
                    ) implies false by {
                    lemma_yaml_lines_shape(ts);
                    lemma_text_lines_terminated(yaml_lines(ts));
                    assert(ls == yaml_lines(ts));
                    assert(ls[i as int] == lines@[i as int]@);
                    lemma_prefix_reads(ts, i as int);
                }
            }
            return Err(i + 1);
        }
        i = i + 1;
    }
    proof {
        assert(ls.subrange(0, lines@.len() as int) =~= ls);
    }
    let v = reader.finish();
    proof {
        assert forall|ts: Seq<TaskInfo>|
            (forall|k: int| 0 <= k < ts.len() ==> writable(#[trigger] ts[k])) && input@ == #[trigger] terminated(
                yaml_lines(ts),
            ) implies entries_view(v@) == entries_of(ts) by {
            lemma_yaml_lines_shape(ts);
            lemma_text_lines_terminated(yaml_lines(ts));
            assert(ls == yaml_lines(ts));
            lemma_lines_give_reads_back(ts);
            law_yaml_roundtrip(ts);
        }
    }
    Ok(v)
}

// ----- writing the edit file -----

/// The comment lines at the top of the edit file.
pub open spec fn yaml_header() -> Seq<Seq<char>> {
    seq![
        "# my-task edit: 編集して保存してください"@,
        "# 行やブロックを削除するとタスクをクローズします"@,
        "# id は変更できません"@,
    ]
}

pub open spec fn opt_text(s: Option<Seq<char>>) -> Seq<char> {
    match s {
        Some(x) => x,
        None => Seq::empty(),
    }
}

pub open spec fn opt_date_text(d: Option<Date>) -> Seq<char> {
    match d {
        Some(x) => date_text(x),
        None => Seq::empty(),
    }
}

/// The block of a task: a blank line, then its id, title, project and due
/// date.
pub open spec fn task_block(t: TaskInfo) -> Seq<Seq<char>> {
    seq![
        Seq::empty(),
        "- id: "@ + decimal(t.id as nat),
        "  title: "@ + t.title,
        "  project: "@ + opt_text(t.project),
        "  due: "@ + opt_date_text(t.due),
    ]
}

/// The lines of the edit file for `tasks`.
pub open spec fn yaml_lines(tasks: Seq<TaskInfo>) -> Seq<Seq<char>>
    decreases tasks.len(),
{
    if tasks.len() == 0 {
        yaml_header()
    } else {
        yaml_lines(tasks.drop_last()) + task_block(tasks.last())
    }
}

/// Lines, each followed by '\n'.
pub open spec fn terminated(ls: Seq<Seq<char>>) -> Seq<char>
    decreases ls.len(),
{
    if ls.len() == 0 {
        Seq::empty()
    } else {
        terminated(ls.drop_last()) + ls.last() + seq!['\n']
    }
}

fn push_line(v: &mut Vec<char>, prefix: &str, rest: &[char])
    ensures
        final(v)@ == old(v)@ + (prefix@ + rest@) + seq!['\n'],
{
    let ghost v0 = v@;
    push_str(v, prefix);
    push_seq(v, rest);
    v.push('\n');
    assert(v@ =~= v0 + (prefix@ + rest@) + seq!['\n']);
}

proof fn lemma_terminated_append(a: Seq<Seq<char>>, b: Seq<Seq<char>>)
    ensures
        terminated(a + b) == terminated(a) + terminated(b),
    decreases b.len(),
{
    if b.len() == 0 {
        assert(a + b =~= a);
    } else {
        lemma_terminated_append(a, b.drop_last());
        assert((a + b).drop_last() =~= a + b.drop_last());
    }
}

proof fn lemma_terminated_block(t: TaskInfo)
    ensures
        terminated(task_block(t)) == seq!['\n'] + (("- id: "@ + decimal(t.id as nat)) + seq!['\n'])
            + (("  title: "@ + t.title) + seq!['\n']) + (("  project: "@ + opt_text(t.project))
            + seq!['\n']) + (("  due: "@ + opt_date_text(t.due)) + seq!['\n']),
{
    let blk = task_block(t);
    reveal_with_fuel(terminated, 6);
    assert(blk.drop_last().drop_last().drop_last().drop_last().drop_last() =~= Seq::<Seq<char>>::empty());
    assert(terminated(blk) =~= seq!['\n'] + (("- id: "@ + decimal(t.id as nat)) + seq!['\n'])
        + (("  title: "@ + t.title) + seq!['\n']) + (("  project: "@ + opt_text(t.project))
        + seq!['\n']) + (("  due: "@ + opt_date_text(t.due)) + seq!['\n']));
}

/// Writes the edit file for `tasks`.
pub fn tasks_to_yaml(tasks: &[Task]) -> (r: String)
    ensures
        r@ == terminated(yaml_lines(crate::order::infos(tasks@))),
{
    let ghost ts = crate::order::infos(tasks@);
    let mut v: Vec<char> = Vec::new();
    push_line(&mut v, "# my-task edit: 編集して保存してください", &[]);
    push_line(&mut v, "# 行やブロックを削除するとタスクをクローズします", &[]);
    push_line(&mut v, "# id は変更できません", &[]);
    proof {
        reveal_with_fuel(terminated, 4);
        assert(yaml_header().drop_last().drop_last().drop_last() =~= Seq::<Seq<char>>::empty());
        assert(yaml_header().drop_last().drop_last().last() == "# my-task edit: 編集して保存してください"@ + Seq::<char>::empty());
        assert(yaml_header().drop_last().last() == "# 行やブロックを削除するとタスクをクローズします"@ + Seq::<char>::empty());
        assert(yaml_header().last() == "# id は変更できません"@ + Seq::<char>::empty());
        assert(v@ =~= terminated(yaml_header()));
        assert(ts.subrange(0, 0) =~= Seq::<TaskInfo>::empty());
    }
    let mut i: usize = 0;
    while i < tasks.len()
        invariant
            0 <= i <= tasks.len(),
            ts == crate::order::infos(tasks@),
            v@ == terminated(yaml_lines(ts.subrange(0, i as int))),
        decreases tasks.len() - i,
    {
        let t = &tasks[i];
        let ghost v0 = v@;
        v.push('\n');
        let mut id: Vec<char> = Vec::new();
        push_decimal(&mut id, t.id as u64);
        push_line(&mut v, "- id: ", id.as_slice());
        push_line(&mut v, "  title: ", chars_of(t.title.as_str()).as_slice());
        let project = match &t.project {
            Some(p) => chars_of(p.as_str()),
            None => Vec::new(),
        };
        push_line(&mut v, "  project: ", project.as_slice());
        let mut due: Vec<char> = Vec::new();
        match t.due {
            Some(d) => {
                push_date_text(&mut due, d);
            },
            None => {},
        }
        push_line(&mut v, "  due: ", due.as_slice());
        proof {
            let p = ts.subrange(0, i + 1);
            assert(p.drop_last() =~= ts.subrange(0, i as int));
            assert(p.last() == t@);
            let blk = task_block(t@);
            lemma_terminated_block(t@);
            lemma_terminated_append(yaml_lines(ts.subrange(0, i as int)), blk);
            assert(v@ =~= v0 + terminated(blk));
        }
        i = i + 1;
    }
    proof {
        assert(ts.subrange(0, tasks@.len() as int) =~= ts);
    }
    string_from_chars(v.as_slice())
}

// ----- reading back what was written -----

proof fn lemma_lines_extend(q: Seq<char>, l: Seq<char>)
    requires
        forall|i: int| 0 <= i < l.len() ==> l[i] != '\n',
    ensures
        lines_of(q + l) == lines_of(q).update(lines_of(q).len() - 1, lines_of(q).last() + l),
    decreases l.len(),
{
    crate::commands::follow::lemma_lines_of_shape(q);
    let lq = lines_of(q);
    if l.len() == 0 {
        assert(q + l =~= q);
        assert(lq.last() + l =~= lq.last());
        assert(lq.update(lq.len() - 1, lq.last()) =~= lq);
    } else {
        let l2 = l.drop_last();
        lemma_lines_extend(q, l2);
        assert((q + l).drop_last() =~= q + l2);
        assert((q + l).last() == l.last());
        assert((lq.last() + l2).push(l.last()) =~= lq.last() + l);
        let prev = lines_of(q + l2);
        assert(prev.update(prev.len() - 1, prev.last().push(l.last())) =~= lq.update(
            lq.len() - 1,
            lq.last() + l,
        ));
    }
}

pub open spec fn no_newlines(ls: Seq<Seq<char>>) -> bool {
    forall|i: int, j: int| 0 <= i < ls.len() && 0 <= j < ls[i].len() ==> ls[i][j] != '\n'
}

proof fn lemma_lines_terminated(ls: Seq<Seq<char>>)
    requires
        no_newlines(ls),
    ensures
        lines_of(terminated(ls)) == ls.push(Seq::<char>::empty()),
    decreases ls.len(),
{
    if ls.len() == 0 {
        assert(lines_of(Seq::<char>::empty()) == seq![Seq::<char>::empty()]);
        assert(ls.push(Seq::<char>::empty()) =~= seq![Seq::<char>::empty()]);
    } else {
        let p = ls.drop_last();
        let l = ls.last();
        assert(no_newlines(p)) by {
            assert forall|i: int, j: int| 0 <= i < p.len() && 0 <= j < p[i].len() implies p[i][j] != '\n' by {
                assert(p[i] == ls[i]);
            }
        }
        lemma_lines_terminated(p);
        let q = terminated(p);
        assert forall|j: int| 0 <= j < l.len() implies l[j] != '\n' by {
            assert(l == ls[ls.len() - 1]);
        }
        lemma_lines_extend(q, l);
        let t = terminated(ls);
        assert(t == q + l + seq!['\n']);
        assert(t.drop_last() =~= q + l);
        assert(t.last() == '\n');
        let pe = p.push(Seq::<char>::empty());
        assert(pe.update(pe.len() - 1, Seq::<char>::empty() + l) =~= ls);
    }
}

proof fn lemma_text_lines_terminated(ls: Seq<Seq<char>>)
    requires
        no_newlines(ls),
        forall|i: int| 0 <= i < ls.len() ==> !(ls[i].len() > 0 && (#[trigger] ls[i]).last() == '\r'),
    ensures
        text_lines(terminated(ls)) == ls,
{
    lemma_lines_terminated(ls);
    let all = ls.push(Seq::<char>::empty());
    assert(all.drop_last() =~= ls);
    assert(ls.map_values(|l: Seq<char>| strip_cr(l)) =~= ls);
}

proof fn lemma_skip_to(s: Seq<char>, i: int, k: int)
    requires
        0 <= i <= k < s.len(),
        forall|j: int| i <= j < k ==> crate::text::is_ws(s[j]),
        !crate::text::is_ws(s[k]),
    ensures
        crate::text::skip_ws_from(s, i) == k,
    decreases k - i,
{
    if i < k {
        lemma_skip_to(s, i + 1, k);
    }
}

proof fn lemma_end_to(s: Seq<char>, j: int, e: int)
    requires
        1 <= e <= j <= s.len(),
        forall|m: int| e <= m < j ==> crate::text::is_ws(s[m]),
        !crate::text::is_ws(s[e - 1]),
    ensures
        crate::text::trim_end_to(s, j) == e,
    decreases j - e,
{
    if j > e {
        lemma_end_to(s, j - 1, e);
    }
}

/// Trimming keeps the characters from the first to the last that is not
/// whitespace.
proof fn lemma_trim_between(s: Seq<char>, k: int, e: int)
    requires
        0 <= k < e <= s.len(),
        forall|j: int| 0 <= j < k ==> crate::text::is_ws(s[j]),
        forall|j: int| e <= j < s.len() ==> crate::text::is_ws(s[j]),
        !crate::text::is_ws(s[k]),
        !crate::text::is_ws(s[e - 1]),
    ensures
        trimmed(s) == s.subrange(k, e),
{
    lemma_skip_to(s, 0, k);
    lemma_end_to(s, s.len() as int, e);
}

proof fn lemma_skip_at_least(s: Seq<char>, i: int)
    requires
        0 <= i,
    ensures
        crate::text::skip_ws_from(s, i) >= i || crate::text::skip_ws_from(s, i) == s.len(),
    decreases s.len() - i,
{
    if i < s.len() && crate::text::is_ws(s[i]) {
        lemma_skip_at_least(s, i + 1);
    }
}

proof fn lemma_end_at_most(s: Seq<char>, j: int)
    ensures
        crate::text::trim_end_to(s, j) <= j || crate::text::trim_end_to(s, j) == 0,
    decreases j,
{
    if 0 < j <= s.len() && crate::text::is_ws(s[j - 1]) {
        lemma_end_at_most(s, j - 1);
    }
}

proof fn lemma_skip_stops(s: Seq<char>, i: int)
    requires
        0 <= i,
    ensures
        i <= crate::text::skip_ws_from(s, i) <= s.len() || (i > s.len() && crate::text::skip_ws_from(s, i) == s.len()),
        crate::text::skip_ws_from(s, i) < s.len() ==> !crate::text::is_ws(s[crate::text::skip_ws_from(s, i)]),
    decreases s.len() - i,
{
    if i < s.len() && crate::text::is_ws(s[i]) {
        lemma_skip_stops(s, i + 1);
    }
}

/// A non-empty text that trimming keeps begins and ends with a character
/// that is not whitespace.
proof fn lemma_trim_stable_ends(s: Seq<char>)
    requires
        s.len() > 0,
        trimmed(s) == s,
    ensures
        !crate::text::is_ws(s[0]),
        !crate::text::is_ws(s.last()),
{
    let i = crate::text::skip_ws_from(s, 0);
    let e = crate::text::trim_end_to(s, s.len() as int);
    lemma_skip_stops(s, 0);
    if i >= s.len() {
        assert(trimmed(s).len() == 0);
    } else {
        crate::text::lemma_trim_bounds(s, i);
        assert(trimmed(s) == s.subrange(i, e));
        assert(e - i == s.len());
        if crate::text::is_ws(s[0]) {
            lemma_skip_stops(s, 1);
            assert(i == crate::text::skip_ws_from(s, 1));
        }
        if crate::text::is_ws(s.last()) {
            lemma_end_at_most(s, s.len() - 1);
            assert(e == crate::text::trim_end_to(s, s.len() - 1));
        }
    }
}

proof fn lemma_decimal_digits(n: nat)
    ensures
        decimal(n).len() >= 1,
        all_digits(decimal(n)),
        digits_value(decimal(n)) == n,
        unsigned_digits(decimal(n)) == decimal(n),
        parse_u32(decimal(n)) == (if n <= u32::MAX { Some(n as u32) } else { None::<u32> }),
    decreases n,
{
    let c = crate::text::digit_char((n % 10) as int);
    assert(c as int == 48 + n % 10);
    if n < 10 {
        let d = decimal(n);
        assert(d.drop_last() =~= Seq::<char>::empty());
        assert(d.last() == c);
        assert(digits_value(d.drop_last()) == 0);
        assert(digits_value(d) == n);
        assert(is_digit(d[0]));
        assert(d[0] != '+');
        assert(unsigned_digits(d) == d);
    }
    if n >= 10 {
        lemma_decimal_digits(n / 10);
        let d = decimal(n);
        assert(d.drop_last() =~= decimal(n / 10));
        assert((n / 10) * 10 + n % 10 == n) by (nonlinear_arith);
        assert(digits_value(d) == digits_value(decimal(n / 10)) * 10 + n % 10);
        assert(d[0] == decimal(n / 10)[0]);
        assert(unsigned_digits(d) == d);
        assert(d.last() == crate::text::digit_char((n % 10) as int));
        assert forall|i: int| 0 <= i < d.len() implies is_digit(#[trigger] d[i]) by {
            if i < d.len() - 1 {
                assert(d[i] == decimal(n / 10)[i]);
            }
        }
    }
}

/// The fields of a task the edit file carries.
pub open spec fn entry_of(t: TaskInfo) -> EntryView {
    EntryView { id: t.id, title: t.title, project: t.project, due: t.due }
}

pub open spec fn entries_of(ts: Seq<TaskInfo>) -> Seq<EntryView> {
    ts.map_values(|t: TaskInfo| entry_of(t))
}

pub open spec fn no_newline(s: Seq<char>) -> bool {
    forall|j: int| 0 <= j < s.len() ==> s[j] != '\n'
}

/// A task the edit file carries faithfully: title and project on one line
/// without surrounding whitespace, no empty project name, and a valid due
/// date.
pub open spec fn writable(t: TaskInfo) -> bool {
    &&& no_newline(t.title)
    &&& trimmed(t.title) == t.title
    &&& (t.project matches Some(p) ==> p.len() > 0 && no_newline(p) && trimmed(p) == p)
    &&& (t.due matches Some(d) ==> d.wf())
}

/// chrono reads a task's due date back from the text printed for it.
pub open spec fn reads_back(t: TaskInfo) -> bool {
    t.due matches Some(d) ==> chrono_ymd(date_text(d)) == Some(d)
}

/// The text that reading `line` hands to chrono as a due date, if any.
pub open spec fn due_value(line: Seq<char>) -> Option<Seq<char>> {
    let t = trimmed(line);
    if t.len() == 0 || t[0] == '#' {
        None
    } else if has_prefix(t, "- id:"@) || has_prefix(t, "title:"@) || has_prefix(t, "project:"@) {
        None
    } else if has_prefix(t, "due:"@) && field_value(t, "due:"@).len() > 0 {
        Some(field_value(t, "due:"@))
    } else {
        None
    }
}

/// When reading `line` hands chrono the text of a valid date, chrono reads
/// that date back.
pub open spec fn line_reads_back(line: Seq<char>) -> bool {
    forall|x: Date| x.wf() && due_value(line) == Some(#[trigger] date_text(x)) ==> chrono_ymd(date_text(x)) == Some(x)
}

/// The reader's state after the blocks of `ts`: the last block still open.
pub open spec fn state_after(ts: Seq<TaskInfo>) -> ParseState {
    if ts.len() == 0 {
        initial_state()
    } else {
        ParseState {
            entries: entries_of(ts.drop_last()),
            id: Some(ts.last().id),
            title: Some(ts.last().title),
            project: ts.last().project,
            due: ts.last().due,
        }
    }
}

proof fn lemma_read_push(ls: Seq<Seq<char>>, l: Seq<char>)
    ensures
        read_lines(ls.push(l)) == (match read_lines(ls) {
            Err(n) => Err(n),
            Ok(st) => match read_line(st, l) {
                Some(st2) => Ok(st2),
                None => Err((ls.len() + 1) as int),
            },
        }),
{
    assert(ls.push(l).drop_last() =~= ls);
}

/// A line "<indent><key> <value>" read as the field `key`.
#[verifier::rlimit(50)]
proof fn lemma_key_line(indent: Seq<char>, key: Seq<char>, v: Seq<char>)
    requires
        forall|j: int| 0 <= j < indent.len() ==> crate::text::is_ws(#[trigger] indent[j]),
        key.len() > 0,
        !crate::text::is_ws(key[0]),
        !crate::text::is_ws(key.last()),
        key[0] != ' ',
        v.len() == 0 || (trimmed(v) == v),
    ensures
        trimmed(indent + key + " "@ + v) == (if v.len() == 0 { key } else { key + " "@ + v }),
        v.len() > 0 ==> strip_all(key + " "@ + v, key) == " "@ + v,
        v.len() == 0 ==> strip_all(key, key) == Seq::<char>::empty(),
        field_value(if v.len() == 0 { key } else { key + " "@ + v }, key) == v,
{
    reveal_strlit(" ");
    let line = indent + key + " "@ + v;
    let k = indent.len() as int;
    if v.len() == 0 {
        assert(line =~= indent + key + seq![' ']);
        lemma_trim_between(line, k, k + key.len());
        assert(line.subrange(k, k + key.len()) =~= key);
        assert(key.subrange(0, key.len() as int) =~= key);
        assert(key.subrange(key.len() as int, key.len() as int) =~= Seq::<char>::empty());
        assert(!has_prefix(Seq::<char>::empty(), key));
        assert(strip_all(key, key) == strip_all(Seq::<char>::empty(), key));
        assert(trimmed(Seq::<char>::empty()) =~= Seq::<char>::empty());
    } else {
        lemma_trim_stable_ends(v);
        lemma_trim_between(line, k, line.len() as int);
        assert(line.subrange(k, line.len() as int) =~= key + " "@ + v);
        let u = key + " "@ + v;
        assert(u.subrange(0, key.len() as int) =~= key);
        assert(u.subrange(key.len() as int, u.len() as int) =~= " "@ + v);
        let w = " "@ + v;
        assert(w[0] == ' ');
        assert(!has_prefix(w, key));
        assert(strip_all(u, key) == strip_all(w, key));
        lemma_trim_between(w, 1, w.len() as int);
        assert(w.subrange(1, w.len() as int) =~= v);
    }
}

proof fn lemma_first_char_differs(s: Seq<char>, p: Seq<char>)
    requires
        s.len() > 0,
        p.len() > 0,
        s[0] != p[0],
    ensures
        !has_prefix(s, p),
{
    if has_prefix(s, p) {
        assert(s.subrange(0, p.len() as int)[0] == s[0]);
    }
}

/// Reading the five lines of a task's block.
#[verifier::spinoff_prover]
#[verifier::rlimit(40)]
proof fn lemma_read_block(ls: Seq<Seq<char>>, ts: Seq<TaskInfo>)
    requires
        ts.len() > 0,
        writable(ts.last()),
        read_lines(ls) == Ok::<ParseState, int>(state_after(ts.drop_last())),
    ensures
        forall|o: int| 0 <= o < 4 ==> #[trigger] read_lines(ls + task_block(ts.last()).subrange(0, o + 1)) is Ok,
        ts.last().due matches Some(d) ==> due_value(task_block(ts.last())[4]) == Some(date_text(d)),
        reads_back(ts.last()) ==> read_lines(ls + task_block(ts.last())) == Ok::<ParseState, int>(state_after(ts)),
{
    let t = ts.last();
    let b = task_block(t);
    let st0 = state_after(ts.drop_last());
    reveal_strlit("- id:");
    reveal_strlit("- id: ");
    reveal_strlit("title:");
    reveal_strlit("  title: ");
    reveal_strlit("project:");
    reveal_strlit("  project: ");
    reveal_strlit("due:");
    reveal_strlit("  due: ");
    reveal_strlit(" ");
    reveal_strlit("  ");
    reveal_strlit("-");
    // the blank line
    assert(trimmed(Seq::<char>::empty()) =~= Seq::<char>::empty());
    lemma_read_push(ls, b[0]);
    let ls1 = ls.push(b[0]);
    assert(read_lines(ls1) == Ok::<ParseState, int>(st0));
    // the id line
    lemma_decimal_digits(t.id as nat);
    let dn = decimal(t.id as nat);
    assert("- id: "@ =~= "-"@ + "- id:"@.subrange(1, 5) + " "@);
    assert(b[1] =~= Seq::<char>::empty() + "- id:"@ + " "@ + dn);
    assert(forall|j: int| 0 <= j < Seq::<char>::empty().len() ==> crate::text::is_ws(#[trigger] Seq::<char>::empty()[j]));
    assert(trimmed(dn) == dn) by {
        lemma_trim_between(dn, 0, dn.len() as int);
        assert(dn.subrange(0, dn.len() as int) =~= dn);
    }
    lemma_key_line(Seq::<char>::empty(), "- id:"@, dn);
    let tid = "- id:"@ + " "@ + dn;
    assert(has_prefix(tid, "- id:"@)) by {
        assert(tid.subrange(0, 5) =~= "- id:"@);
    }
    lemma_read_push(ls1, b[1]);
    let st1 = ParseState { entries: finished(st0), id: Some(t.id), title: None, project: None, due: None };
    let ls2 = ls1.push(b[1]);
    assert(read_lines(ls2) == Ok::<ParseState, int>(st1));
    // the title line
    let two = "  "@;
    assert(forall|j: int| 0 <= j < two.len() ==> crate::text::is_ws(#[trigger] two[j]));
    assert(b[2] =~= two + "title:"@ + " "@ + t.title);
    lemma_key_line(two, "title:"@, t.title);
    let tt = if t.title.len() == 0 { "title:"@ } else { "title:"@ + " "@ + t.title };
    assert(has_prefix(tt, "title:"@)) by {
        assert(tt.subrange(0, 6) =~= "title:"@);
    }
    lemma_first_char_differs(tt, "- id:"@);
    lemma_read_push(ls2, b[2]);
    let st2 = ParseState { title: Some(t.title), ..st1 };
    let ls3 = ls2.push(b[2]);
    assert(read_lines(ls3) == Ok::<ParseState, int>(st2));
    // the project line
    let pv = opt_text(t.project);
    assert(b[3] =~= two + "project:"@ + " "@ + pv);
    lemma_key_line(two, "project:"@, pv);
    let tp = if pv.len() == 0 { "project:"@ } else { "project:"@ + " "@ + pv };
    assert(has_prefix(tp, "project:"@)) by {
        assert(tp.subrange(0, 8) =~= "project:"@);
    }
    lemma_first_char_differs(tp, "- id:"@);
    lemma_first_char_differs(tp, "title:"@);
    lemma_read_push(ls3, b[3]);
    let st3 = ParseState { project: t.project, ..st2 };
    let ls4 = ls3.push(b[3]);
    assert(read_lines(ls4) == Ok::<ParseState, int>(st3));
    // the due line
    let dv = opt_date_text(t.due);
    assert(b[4] =~= two + "due:"@ + " "@ + dv);
    if t.due is Some {
        lemma_date_text_ends(t.due->0);
        lemma_trim_between(dv, 0, dv.len() as int);
        assert(dv.subrange(0, dv.len() as int) =~= dv);
    }
    lemma_key_line(two, "due:"@, dv);
    let td = if dv.len() == 0 { "due:"@ } else { "due:"@ + " "@ + dv };
    assert(has_prefix(td, "due:"@)) by {
        assert(td.subrange(0, 4) =~= "due:"@);
    }
    lemma_first_char_differs(td, "- id:"@);
    lemma_first_char_differs(td, "title:"@);
    lemma_first_char_differs(td, "project:"@);
    assert(ls + b.subrange(0, 1) =~= ls1);
    assert(ls + b.subrange(0, 2) =~= ls2);
    assert(ls + b.subrange(0, 3) =~= ls3);
    assert(ls + b.subrange(0, 4) =~= ls4);
    if t.due is Some {
        assert(trimmed(b[4]) == td);
        assert(field_value(td, "due:"@) == dv);
        assert(due_value(b[4]) == Some(dv));
    }
    if reads_back(t) {
        lemma_read_push(ls4, b[4]);
        let st4 = ParseState { due: t.due, ..st3 };
        let ls5 = ls4.push(b[4]);
        assert(read_lines(ls5) == Ok::<ParseState, int>(st4));
        assert(ls5 =~= ls + b);
        assert(finished(st0) =~= entries_of(ts.drop_last())) by {
            if ts.len() > 1 {
                let p = ts.drop_last();
                assert(p.drop_last() =~= ts.drop_last().drop_last());
                assert(entries_of(p) =~= entries_of(p.drop_last()).push(entry_of(p.last())));
            } else {
                assert(entries_of(ts.drop_last()) =~= Seq::<EntryView>::empty());
            }
        }
        assert(st4 == state_after(ts));
    }
}

/// The text of a valid date is not empty and neither begins nor ends with
/// whitespace.
proof fn lemma_date_text_ends(d: Date)
    ensures
        date_text(d).len() > 0,
        !crate::text::is_ws(date_text(d)[0]),
        !crate::text::is_ws(date_text(d).last()),
{
    let y = d.year as int;
    lemma_decimal_digits(d.day as nat);
    let dd = decimal(d.day as nat);
    let p = crate::date::pad2(d.day as int);
    assert(p.last() == dd.last());
    assert(is_digit(dd[dd.len() - 1]));
    if 0 <= y <= 9999 {
        lemma_decimal_digits(y as nat);
        let dy = decimal(y as nat);
        let z = crate::text::zero_pad(dy, 4);
        assert(is_digit(dy[0]));
        assert(z[0] == '0' || z[0] == dy[0]);
        assert(date_text(d)[0] == z[0]);
    } else if y < 0 {
        assert(date_text(d)[0] == '-');
    } else {
        assert(date_text(d)[0] == '+');
    }
    assert(date_text(d).last() == p.last());
}

proof fn lemma_header_lines()
    ensures
        read_lines(yaml_header()) == Ok::<ParseState, int>(initial_state()),
        no_newlines(yaml_header()),
        forall|i: int| 0 <= i < 3 ==> #[trigger] read_lines(yaml_header().subrange(0, i + 1)) is Ok,
{
    reveal_strlit("# my-task edit: 編集して保存してください");
    reveal_strlit("# 行やブロックを削除するとタスクをクローズします");
    reveal_strlit("# id は変更できません");
    let h = yaml_header();
    assert forall|i: int| 0 <= i < 3 implies trimmed(#[trigger] h[i])[0] == '#' && trimmed(h[i]).len() > 0 by {
        lemma_trim_between(h[i], 0, h[i].len() as int);
        assert(h[i].subrange(0, h[i].len() as int) =~= h[i]);
    }
    lemma_read_push(Seq::<Seq<char>>::empty(), h[0]);
    assert(seq![h[0]] =~= Seq::<Seq<char>>::empty().push(h[0]));
    lemma_read_push(seq![h[0]], h[1]);
    assert(seq![h[0], h[1]] =~= seq![h[0]].push(h[1]));
    lemma_read_push(seq![h[0], h[1]], h[2]);
    assert(h =~= seq![h[0], h[1]].push(h[2]));
    assert(h.subrange(0, 1) =~= seq![h[0]]);
    assert(h.subrange(0, 2) =~= seq![h[0], h[1]]);
    assert(h.subrange(0, 3) =~= h);
}

proof fn lemma_read_yaml_lines(ts: Seq<TaskInfo>)
    requires
        forall|i: int| 0 <= i < ts.len() ==> writable(#[trigger] ts[i]),
        forall|i: int| 0 <= i < ts.len() ==> reads_back(#[trigger] ts[i]),
    ensures
        read_lines(yaml_lines(ts)) == Ok::<ParseState, int>(state_after(ts)),
    decreases ts.len(),
{
    if ts.len() == 0 {
        lemma_header_lines();
    } else {
        let p = ts.drop_last();
        assert forall|i: int| 0 <= i < p.len() implies writable(#[trigger] p[i]) && reads_back(p[i]) by {
            assert(p[i] == ts[i]);
        }
        lemma_read_yaml_lines(p);
        assert(writable(ts[ts.len() - 1]));
        assert(reads_back(ts[ts.len() - 1]));
        lemma_read_block(yaml_lines(p), ts);
    }
}

proof fn lemma_yaml_lines_shape(ts: Seq<TaskInfo>)
    requires
        forall|i: int| 0 <= i < ts.len() ==> writable(#[trigger] ts[i]),
    ensures
        no_newlines(yaml_lines(ts)),
        forall|i: int| 0 <= i < yaml_lines(ts).len() ==> !((#[trigger] yaml_lines(ts)[i]).len() > 0 && yaml_lines(ts)[i].last() == '\r'),
    decreases ts.len(),
{
    reveal_strlit("# my-task edit: 編集して保存してください");
    reveal_strlit("# 行やブロックを削除するとタスクをクローズします");
    reveal_strlit("# id は変更できません");
    reveal_strlit("- id: ");
    reveal_strlit("  title: ");
    reveal_strlit("  project: ");
    reveal_strlit("  due: ");
    if ts.len() > 0 {
        let p = ts.drop_last();
        assert forall|i: int| 0 <= i < p.len() implies writable(#[trigger] p[i]) by {
            assert(p[i] == ts[i]);
        }
        lemma_yaml_lines_shape(p);
        let t = ts.last();
        assert(writable(ts[ts.len() - 1]));
        let b = task_block(t);
        let a = yaml_lines(p);
        let all = yaml_lines(ts);
        assert(all == a + b);
        lemma_decimal_digits(t.id as nat);
        if t.due is Some {
            lemma_date_text_ends(t.due->0);
            lemma_date_text_digits(t.due->0);
        }
        if t.title.len() > 0 {
            lemma_trim_stable_ends(t.title);
        }
        if t.project is Some {
            lemma_trim_stable_ends(t.project->0);
        }
        assert forall|i: int, j: int| 0 <= i < all.len() && 0 <= j < all[i].len() implies all[i][j] != '\n' by {
            if i >= a.len() {
                let k = i - a.len();
                assert(all[i] == b[k]);
                if k == 1 && j >= 6 {
                    assert(b[1][j] == decimal(t.id as nat)[j - 6]);
                    assert(is_digit(decimal(t.id as nat)[j - 6]));
                }
            } else {
                assert(all[i] == a[i]);
            }
        }
        assert forall|i: int| 0 <= i < all.len() implies !((#[trigger] all[i]).len() > 0 && all[i].last() == '\r') by {
            if i >= a.len() {
                assert(all[i] == b[i - a.len()]);
            } else {
                assert(all[i] == a[i]);
            }
        }
    }
}

/// The characters of a date's text are digits and '-' (and a leading '+').
proof fn lemma_date_text_digits(d: Date)
    ensures
        forall|j: int| 0 <= j < date_text(d).len() ==> date_text(d)[j] != '\n' && date_text(d)[j] != '\r',
{
    let y = d.year as int;
    lemma_decimal_digits(d.month as nat);
    lemma_decimal_digits(d.day as nat);
    if 0 <= y <= 9999 {
        lemma_decimal_digits(y as nat);
    } else if y < 0 {
        lemma_decimal_digits((-y) as nat);
    } else {
        lemma_decimal_digits(y as nat);
    }
    let t = date_text(d);
    assert forall|j: int| 0 <= j < t.len() implies t[j] != '\n' && t[j] != '\r' by {
        let yt = crate::date::year_text(y);
        let m = crate::date::pad2(d.month as int);
        let dd = crate::date::pad2(d.day as int);
        assert(t == yt + seq!['-'] + m + seq!['-'] + dd);
        if j < yt.len() {
            assert(t[j] == yt[j]);
        } else if j < yt.len() + 1 {
        } else if j < yt.len() + 1 + m.len() {
            assert(t[j] == m[j - yt.len() - 1]);
        } else if j < yt.len() + 1 + m.len() + 1 {
        } else {
            assert(t[j] == dd[j - yt.len() - 2 - m.len()]);
        }
    }
}

/// The facts chrono gave on every line of the file written for `ts` include
/// that it reads each due date back.
proof fn lemma_lines_give_reads_back(ts: Seq<TaskInfo>)
    requires
        forall|i: int| 0 <= i < ts.len() ==> writable(#[trigger] ts[i]),
        forall|j: int| 0 <= j < yaml_lines(ts).len() ==> line_reads_back(#[trigger] yaml_lines(ts)[j]),
    ensures
        forall|i: int| 0 <= i < ts.len() ==> reads_back(#[trigger] ts[i]),
    decreases ts.len(),
{
    if ts.len() > 0 {
        let p = ts.drop_last();
        let a = yaml_lines(p);
        let all = yaml_lines(ts);
        assert(all == a + task_block(ts.last()));
        assert forall|i: int| 0 <= i < p.len() implies writable(#[trigger] p[i]) by {
            assert(p[i] == ts[i]);
        }
        assert forall|j: int| 0 <= j < a.len() implies line_reads_back(#[trigger] a[j]) by {
            assert(all[j] == a[j]);
        }
        lemma_lines_give_reads_back(p);
        let t = ts.last();
        assert(writable(ts[ts.len() - 1]));
        if t.due is Some {
            let d = t.due->0;
            lemma_read_due_value(t);
            assert(all[all.len() - 1] == task_block(t)[4]);
            assert(line_reads_back(all[all.len() - 1]));
            assert(due_value(task_block(t)[4]) == Some(date_text(d)));
        }
        assert forall|i: int| 0 <= i < ts.len() implies reads_back(#[trigger] ts[i]) by {
            if i < p.len() {
                assert(p[i] == ts[i]);
            }
        }
    }
}

/// The due line of a task's block hands chrono the text of its due date.
proof fn lemma_read_due_value(t: TaskInfo)
    requires
        writable(t),
    ensures
        t.due matches Some(d) ==> due_value(task_block(t)[4]) == Some(date_text(d)),
{
    if t.due is Some {
        reveal_strlit("- id:");
        reveal_strlit("title:");
        reveal_strlit("project:");
        reveal_strlit("due:");
        reveal_strlit("  due: ");
        reveal_strlit(" ");
        reveal_strlit("  ");
        let b = task_block(t);
        let two = "  "@;
        assert(forall|j: int| 0 <= j < two.len() ==> crate::text::is_ws(#[trigger] two[j]));
        let dv = opt_date_text(t.due);
        assert(b[4] =~= two + "due:"@ + " "@ + dv);
        lemma_date_text_ends(t.due->0);
        lemma_trim_between(dv, 0, dv.len() as int);
        assert(dv.subrange(0, dv.len() as int) =~= dv);
        lemma_key_line(two, "due:"@, dv);
        let td = "due:"@ + " "@ + dv;
        assert(has_prefix(td, "due:"@)) by {
            assert(td.subrange(0, 4) =~= "due:"@);
        }
        lemma_first_char_differs(td, "- id:"@);
        lemma_first_char_differs(td, "title:"@);
        lemma_first_char_differs(td, "project:"@);
    }
}

/// Reading the first lines of the file written for `ts`, up to line `i`,
/// goes through when chrono has read back each due date among them.
proof fn lemma_prefix_reads(ts: Seq<TaskInfo>, i: int)
    requires
        forall|k: int| 0 <= k < ts.len() ==> writable(#[trigger] ts[k]),
        0 <= i < yaml_lines(ts).len(),
        forall|j: int| 0 <= j <= i ==> line_reads_back(#[trigger] yaml_lines(ts)[j]),
    ensures
        read_lines(yaml_lines(ts).subrange(0, i + 1)) is Ok,
    decreases ts.len(),
{
    if ts.len() == 0 {
        lemma_header_lines();
    } else {
        let p = ts.drop_last();
        let a = yaml_lines(p);
        let b = task_block(ts.last());
        let all = yaml_lines(ts);
        assert(all == a + b);
        assert forall|k: int| 0 <= k < p.len() implies writable(#[trigger] p[k]) by {
            assert(p[k] == ts[k]);
        }
        if i < a.len() {
            assert forall|j: int| 0 <= j <= i implies line_reads_back(#[trigger] a[j]) by {
                assert(all[j] == a[j]);
            }
            lemma_prefix_reads(p, i);
            assert(all.subrange(0, i + 1) =~= a.subrange(0, i + 1));
        } else {
            assert forall|j: int| 0 <= j < a.len() implies line_reads_back(#[trigger] a[j]) by {
                assert(all[j] == a[j]);
            }
            lemma_lines_give_reads_back(p);
            lemma_read_yaml_lines(p);
            assert(writable(ts[ts.len() - 1]));
            lemma_read_block(a, ts);
            let o = i - a.len();
            if o < 4 {
                assert(all.subrange(0, i + 1) =~= a + b.subrange(0, o + 1));
            } else {
                assert(all[i] == b[4]);
                assert(line_reads_back(all[i]));
                assert(reads_back(ts.last()));
                assert(all.subrange(0, i + 1) =~= a + b);
            }
        }
    }
}

/// Reading the edit file written for tasks gives back each task's id,
/// title, project and due date, in order, when the file carries them
/// faithfully (see `writable`) and chrono reads each due date back from its
/// text (see `reads_back`; `parse_yaml` states the round trip without that
/// premise).
pub proof fn law_yaml_roundtrip(ts: Seq<TaskInfo>)
    requires
        forall|i: int| 0 <= i < ts.len() ==> writable(#[trigger] ts[i]),
        forall|i: int| 0 <= i < ts.len() ==> reads_back(#[trigger] ts[i]),
    ensures
        yaml_entries(terminated(yaml_lines(ts))) == Ok::<Seq<EntryView>, int>(entries_of(ts)),
{
    lemma_yaml_lines_shape(ts);
    lemma_text_lines_terminated(yaml_lines(ts));
    lemma_read_yaml_lines(ts);
    if ts.len() > 0 {
        assert(entries_of(ts) =~= entries_of(ts.drop_last()).push(entry_of(ts.last())));
    } else {
        assert(entries_of(ts) =~= Seq::<EntryView>::empty());
    }
}

} // verus!
