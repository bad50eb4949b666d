//! The order in which task lists are returned: by the requested sort keys in
//! the requested direction, rows without a due date or project last, and by
//! task id among rows the keys do not tell apart.
use vstd::prelude::*;
use crate::date::{Date, DateTime, lemma_lt_iff_day_number};
use crate::model::{SortKey, SortOrder, Task, TaskInfo};
use crate::text::chars_of;

verus! {

broadcast use vstd::seq_lib::group_to_multiset_ensures;

/// Three-way comparison of integers.
pub open spec fn three_way(a: int, b: int) -> int {
    if a < b {
        -1
    } else if a == b {
        0
    } else {
        1
    }
}

/// Three-way comparison of texts by character code, as SQLite's BINARY
/// collation orders UTF-8 text; compares from position `i` on.
pub open spec fn text_ord_from(a: Seq<char>, b: Seq<char>, i: int) -> int
    decreases a.len() - i,
{
    if i < 0 || (i >= a.len() && i >= b.len()) {
        0
    } else if i >= a.len() {
        -1
    } else if i >= b.len() {
        1
    } else if a[i] < b[i] {
        -1
    } else if a[i] > b[i] {
        1
    } else {
        text_ord_from(a, b, i + 1)
    }
}

pub open spec fn text_ord(a: Seq<char>, b: Seq<char>) -> int {
    text_ord_from(a, b, 0)
}

pub open spec fn date_ord(a: Date, b: Date) -> int {
    if a.lt(b) {
        -1
    } else if a == b {
        0
    } else {
        1
    }
}

pub open spec fn datetime_ord(a: DateTime, b: DateTime) -> int {
    if a.lt(b) {
        -1
    } else if a == b {
        0
    } else {
        1
    }
}

/// The comparison turned around for a descending order.
pub open spec fn directed(order: SortOrder, c: int) -> int {
    match order {
        SortOrder::Asc => c,
        SortOrder::Desc => -c,
    }
}

/// Comparison of two tasks by one key. A missing due date or project sorts
/// after every present one in either direction.
pub open spec fn key_ord(key: SortKey, order: SortOrder, a: TaskInfo, b: TaskInfo) -> int {
    match key {
        SortKey::Id => directed(order, three_way(a.id as int, b.id as int)),
        SortKey::Due => match (a.due, b.due) {
            (None, None) => 0,
            (None, Some(_)) => 1,
            (Some(_), None) => -1,
            (Some(x), Some(y)) => directed(order, date_ord(x, y)),
        },
        SortKey::Project => match (a.project, b.project) {
            (None, None) => 0,
            (None, Some(_)) => 1,
            (Some(_), None) => -1,
            (Some(x), Some(y)) => directed(order, text_ord(x, y)),
        },
        SortKey::Created => directed(order, datetime_ord(a.created, b.created)),
    }
}

/// Lexicographic comparison by the keys from position `i` on.
pub open spec fn keys_ord_from(
    keys: Seq<SortKey>,
    order: SortOrder,
    a: TaskInfo,
    b: TaskInfo,
    i: int,
) -> int
    decreases keys.len() - i,
{
    if i < 0 || i >= keys.len() {
        0
    } else {
        let c = key_ord(keys[i], order, a, b);
        if c != 0 {
            c
        } else {
            keys_ord_from(keys, order, a, b, i + 1)
        }
    }
}

/// `a` comes before `b` in a list sorted by `keys` in direction `order`;
/// tasks equal on every key keep the order of their ids.
pub open spec fn task_before(keys: Seq<SortKey>, order: SortOrder, a: TaskInfo, b: TaskInfo) -> bool {
    let c = keys_ord_from(keys, order, a, b, 0);
    c < 0 || (c == 0 && a.id < b.id)
}

/// `s` is strictly sorted by `task_before`.
pub open spec fn sorted_tasks(keys: Seq<SortKey>, order: SortOrder, s: Seq<TaskInfo>) -> bool {
    forall|i: int, j: int| 0 <= i < j < s.len() ==> task_before(keys, order, s[i], s[j])
}

// ----- properties of the comparisons -----

pub proof fn lemma_text_ord_antisym(a: Seq<char>, b: Seq<char>, i: int)
    requires
        0 <= i,
    ensures
        text_ord_from(a, b, i) == -text_ord_from(b, a, i),
        -1 <= text_ord_from(a, b, i) <= 1,
    decreases a.len() - i,
{
    if i < a.len() && i < b.len() && a[i] == b[i] {
        lemma_text_ord_antisym(a, b, i + 1);
    }
}

pub proof fn lemma_text_ord_trans(a: Seq<char>, b: Seq<char>, c: Seq<char>, i: int)
    requires
        0 <= i,
        text_ord_from(a, b, i) <= 0,
        text_ord_from(b, c, i) <= 0,
    ensures
        text_ord_from(a, c, i) <= 0,
        (text_ord_from(a, b, i) < 0 || text_ord_from(b, c, i) < 0) ==> text_ord_from(a, c, i) < 0,
    decreases a.len() - i,
{
    if i < a.len() && i < b.len() && i < c.len() && a[i] == b[i] && b[i] == c[i] {
        lemma_text_ord_trans(a, b, c, i + 1);
    }
}

pub proof fn lemma_text_ord_zero(a: Seq<char>, b: Seq<char>, i: int)
    requires
        0 <= i <= a.len(),
        i <= b.len(),
        a.subrange(0, i) == b.subrange(0, i),
        text_ord_from(a, b, i) == 0,
    ensures
        a == b,
    decreases a.len() - i,
{
    if i < a.len() && i < b.len() {
        assert(a[i] == b[i]);
        assert(a.subrange(0, i + 1) =~= a.subrange(0, i).push(a[i]));
        assert(b.subrange(0, i + 1) =~= b.subrange(0, i).push(b[i]));
        lemma_text_ord_zero(a, b, i + 1);
    } else {
        assert(a =~= a.subrange(0, i));
        assert(b =~= b.subrange(0, i));
    }
}

proof fn lemma_key_ord_props(key: SortKey, order: SortOrder, a: TaskInfo, b: TaskInfo, c: TaskInfo)
    requires
        a.due is Some ==> a.due->0.wf(),
        b.due is Some ==> b.due->0.wf(),
        c.due is Some ==> c.due->0.wf(),
    ensures
        key_ord(key, order, a, b) == -key_ord(key, order, b, a),
        -1 <= key_ord(key, order, a, b) <= 1,
        key_ord(key, order, a, b) <= 0 && key_ord(key, order, b, c) <= 0 ==> key_ord(
            key,
            order,
            a,
            c,
        ) <= 0,
        key_ord(key, order, a, b) <= 0 && key_ord(key, order, b, c) <= 0 && (key_ord(
            key,
            order,
            a,
            b,
        ) < 0 || key_ord(key, order, b, c) < 0) ==> key_ord(key, order, a, c) < 0,
{
    match key {
        SortKey::Project => {
            if a.project is Some && b.project is Some {
                lemma_text_ord_antisym(a.project->0, b.project->0, 0);
            }
            if a.project is Some && b.project is Some && c.project is Some {
                let (x, y, z) = (a.project->0, b.project->0, c.project->0);
                lemma_text_ord_antisym(x, y, 0);
                lemma_text_ord_antisym(y, z, 0);
                lemma_text_ord_antisym(x, z, 0);
                match order {
                    SortOrder::Asc => {
                        if text_ord(x, y) <= 0 && text_ord(y, z) <= 0 {
                            lemma_text_ord_trans(x, y, z, 0);
                        }
                    },
                    SortOrder::Desc => {
                        if text_ord(z, y) <= 0 && text_ord(y, x) <= 0 {
                            lemma_text_ord_trans(z, y, x, 0);
                        }
                    },
                }
            }
        },
        SortKey::Due => {
            if a.due is Some && b.due is Some && c.due is Some {
                let (x, y, z) = (a.due->0, b.due->0, c.due->0);
                lemma_lt_iff_day_number(x, y);
                lemma_lt_iff_day_number(y, z);
                lemma_lt_iff_day_number(x, z);
                lemma_lt_iff_day_number(y, x);
                lemma_lt_iff_day_number(z, y);
                lemma_lt_iff_day_number(z, x);
            } else if a.due is Some && b.due is Some {
                lemma_lt_iff_day_number(a.due->0, b.due->0);
                lemma_lt_iff_day_number(b.due->0, a.due->0);
            }
        },
        _ => {},
    }
}

proof fn lemma_keys_ord_props(
    keys: Seq<SortKey>,
    order: SortOrder,
    a: TaskInfo,
    b: TaskInfo,
    c: TaskInfo,
    i: int,
)
    requires
        0 <= i,
        a.due is Some ==> a.due->0.wf(),
        b.due is Some ==> b.due->0.wf(),
        c.due is Some ==> c.due->0.wf(),
    ensures
        keys_ord_from(keys, order, a, b, i) == -keys_ord_from(keys, order, b, a, i),
        -1 <= keys_ord_from(keys, order, a, b, i) <= 1,
        keys_ord_from(keys, order, a, b, i) <= 0 && keys_ord_from(keys, order, b, c, i) <= 0
            ==> keys_ord_from(keys, order, a, c, i) <= 0,
        keys_ord_from(keys, order, a, b, i) <= 0 && keys_ord_from(keys, order, b, c, i) <= 0 && (
        keys_ord_from(keys, order, a, b, i) < 0 || keys_ord_from(keys, order, b, c, i) < 0)
            ==> keys_ord_from(keys, order, a, c, i) < 0,
    decreases keys.len() - i,
{
    if i < keys.len() {
        lemma_key_ord_props(keys[i], order, a, b, c);
        lemma_key_ord_props(keys[i], order, b, c, a);
        lemma_key_ord_props(keys[i], order, a, c, b);
        lemma_key_ord_props(keys[i], order, b, a, c);
        lemma_key_ord_props(keys[i], order, c, b, a);
        lemma_keys_ord_props(keys, order, a, b, c, i + 1);
    }
}

/// Tasks are well formed for ordering when their due dates are valid.
pub open spec fn orderable(t: TaskInfo) -> bool {
    t.due is Some ==> t.due->0.wf()
}

/// `task_before` is a strict total order on tasks with distinct ids.
pub proof fn lemma_task_before_strict_total(
    keys: Seq<SortKey>,
    order: SortOrder,
    a: TaskInfo,
    b: TaskInfo,
    c: TaskInfo,
)
    requires
        orderable(a),
        orderable(b),
        orderable(c),
    ensures
        !task_before(keys, order, a, a),
        a.id != b.id ==> (task_before(keys, order, a, b) || task_before(keys, order, b, a)),
        !(task_before(keys, order, a, b) && task_before(keys, order, b, a)),
        task_before(keys, order, a, b) && task_before(keys, order, b, c) ==> task_before(
            keys,
            order,
            a,
            c,
        ),
{
    lemma_keys_ord_props(keys, order, a, b, c, 0);
    lemma_keys_ord_props(keys, order, a, a, a, 0);
}

// ----- executable comparisons -----

/// Three-way comparison of two texts by character code.
pub fn text_compare(a: &[char], b: &[char]) -> (r: i8)
    ensures
        r == text_ord(a@, b@),
{
    let mut i: usize = 0;
    while i < a.len() && i < b.len()
        invariant
            i <= a@.len(),
            i <= b@.len(),
            text_ord(a@, b@) == text_ord_from(a@, b@, i as int),
        decreases a@.len() - i,
    {
        if a[i] < b[i] {
            return -1;
        }
        if a[i] > b[i] {
            return 1;
        }
        i = i + 1;
    }
    if i >= a.len() && i >= b.len() {
        0
    } else if i >= a.len() {
        -1
    } else {
        1
    }
}

fn u32_compare(a: u32, b: u32) -> (r: i8)
    ensures
        r == three_way(a as int, b as int),
{
    if a < b {
        -1
    } else if a == b {
        0
    } else {
        1
    }
}

fn date_compare(a: &Date, b: &Date) -> (r: i8)
    ensures
        r == date_ord(*a, *b),
{
    if a.is_before(b) {
        -1
    } else if a.same_day(b) {
        0
    } else {
        1
    }
}

fn datetime_compare(a: &DateTime, b: &DateTime) -> (r: i8)
    ensures
        r == datetime_ord(*a, *b),
{
    if a.is_before(b) {
        -1
    } else if a.date.same_day(&b.date) && a.hour == b.hour && a.minute == b.minute && a.second
        == b.second {
        0
    } else {
        1
    }
}

fn direct(order: SortOrder, c: i8) -> (r: i8)
    requires
        -1 <= c <= 1,
    ensures
        r == directed(order, c as int),
{
    match order {
        SortOrder::Asc => c,
        SortOrder::Desc => -c,
    }
}

/// Compares two tasks by one sort key.
pub fn key_compare(key: SortKey, order: SortOrder, a: &Task, b: &Task) -> (r: i8)
    ensures
        r == key_ord(key, order, a@, b@),
{
    match key {
        SortKey::Id => direct(order, u32_compare(a.id, b.id)),
        SortKey::Due => match (&a.due, &b.due) {
            (None, None) => 0,
            (None, Some(_)) => 1,
            (Some(_), None) => -1,
            (Some(x), Some(y)) => direct(order, date_compare(x, y)),
        },
        SortKey::Project => match (&a.project, &b.project) {
            (None, None) => 0,
            (None, Some(_)) => 1,
            (Some(_), None) => -1,
            (Some(x), Some(y)) => {
                let xs = chars_of(x.as_str());
                let ys = chars_of(y.as_str());
                let c = text_compare(xs.as_slice(), ys.as_slice());
                proof {
                    lemma_text_ord_antisym(x@, y@, 0);
                }
                direct(order, c)
            },
        },
        SortKey::Created => direct(order, datetime_compare(&a.created, &b.created)),
    }
}

/// Whether `a` comes before `b` in a list sorted by `keys` in direction `order`.
pub fn is_task_before(keys: &[SortKey], order: SortOrder, a: &Task, b: &Task) -> (r: bool)
    ensures
        r == task_before(keys@, order, a@, b@),
{
    let mut i: usize = 0;
    while i < keys.len()
        invariant
            i <= keys@.len(),
            keys_ord_from(keys@, order, a@, b@, 0) == keys_ord_from(keys@, order, a@, b@, i as int),
        decreases keys@.len() - i,
    {
        let c = key_compare(keys[i], order, a, b);
        if c != 0 {
            return c < 0;
        }
        i = i + 1;
    }
    a.id < b.id
}

/// The view of each task in a sequence.
pub open spec fn infos(s: Seq<Task>) -> Seq<TaskInfo> {
    s.map_values(|t: Task| t@)
}

/// Sorts tasks with distinct ids by `keys` in direction `order`.
pub fn sort_tasks(tasks: Vec<Task>, keys: &[SortKey], order: SortOrder) -> (r: Vec<Task>)
    requires
        forall|i: int, j: int|
            0 <= i < j < tasks@.len() ==> tasks@[i].id != tasks@[j].id,
        forall|i: int| 0 <= i < tasks@.len() ==> orderable(#[trigger] tasks@[i]@),
    ensures
        infos(r@).to_multiset() == infos(tasks@).to_multiset(),
        sorted_tasks(keys@, order, infos(r@)),
{
    let mut out: Vec<Task> = Vec::new();
    let mut rest = tasks;
    let ghost all = infos(rest@);
    let ghost n = rest@.len();
    // Tasks are taken from the back of `rest` and inserted into `out`.
    while rest.len() > 0
        invariant
            n == all.len(),
            rest@.len() <= n,
            infos(rest@) == all.subrange(0, rest@.len() as int),
            infos(out@).to_multiset() == all.subrange(rest@.len() as int, n as int).to_multiset(),
            sorted_tasks(keys@, order, infos(out@)),
            forall|i: int, j: int| 0 <= i < j < n ==> all[i].id != all[j].id,
            forall|i: int| 0 <= i < n ==> orderable(#[trigger] all[i]),
            forall|i: int|
                0 <= i < out@.len() ==> exists|j: int|
                    rest@.len() <= j < n && #[trigger] infos(out@)[i] == all[j],
        decreases rest@.len(),
    {
        let ghost k0 = rest@.len() - 1;
        let ghost old_rest = rest@;
        assert(infos(old_rest)[k0] == old_rest[k0]@);
        let x = rest.pop().unwrap();
        assert(x@ == all[k0]);
        assert(infos(rest@) =~= all.subrange(0, rest@.len() as int)) by {
            assert forall|i: int| 0 <= i < rest@.len() implies infos(rest@)[i] == all[i] by {
                assert(infos(rest@)[i] == rest@[i]@);
                assert(infos(old_rest)[i] == old_rest[i]@);
            }
        }
        let mut pos: usize = 0;
        while pos < out.len() && is_task_before(keys, order, &out[pos], &x)
            invariant
                pos <= out@.len(),
                forall|i: int| 0 <= i < pos ==> task_before(keys@, order, infos(out@)[i], x@),
            decreases out@.len() - pos,
        {
            pos = pos + 1;
        }
        let ghost old_out = infos(out@);
        proof {
            // x differs in id from every element already placed.
            assert forall|i: int| 0 <= i < old_out.len() implies old_out[i].id != x@.id
                && orderable(old_out[i]) by {
                let j = choose|j: int| rest@.len() + 1 <= j < n && #[trigger] old_out[i] == all[j];
                assert(all[j].id != all[k0].id);
            }
            if pos < old_out.len() {
                assert(!task_before(keys@, order, old_out[pos as int], x@));
                lemma_task_before_strict_total(keys@, order, old_out[pos as int], x@, x@);
                assert(task_before(keys@, order, x@, old_out[pos as int]));
                assert forall|j: int| pos <= j < old_out.len() implies task_before(
                    keys@,
                    order,
                    x@,
                    old_out[j],
                ) by {
                    if j > pos {
                        lemma_task_before_strict_total(keys@, order, x@, old_out[pos as int], old_out[j]);
                    }
                }
            }
        }
        out.insert(pos, x);
        proof {
            let new_out = infos(out@);
            assert(new_out =~= old_out.insert(pos as int, x@));
            assert(all.subrange(rest@.len() as int, n as int) =~= all.subrange(
                (rest@.len() + 1) as int,
                n as int,
            ).insert(0, x@));
            assert forall|i: int, j: int| 0 <= i < j < new_out.len() implies task_before(
                keys@,
                order,
                new_out[i],
                new_out[j],
            ) by {
                if j < pos {
                } else if j == pos {
                } else if i < pos {
                    assert(new_out[j] == old_out[j - 1]);
                    lemma_task_before_strict_total(keys@, order, new_out[i], x@, new_out[j]);
                } else if i == pos {
                    assert(new_out[j] == old_out[j - 1]);
                } else {
                    assert(new_out[i] == old_out[i - 1]);
                    assert(new_out[j] == old_out[j - 1]);
                }
            }
            assert forall|i: int| 0 <= i < out@.len() implies exists|j: int|
                rest@.len() <= j < n && #[trigger] infos(out@)[i] == all[j] by {
                if i < pos {
                    let j = choose|j: int| rest@.len() + 1 <= j < n && #[trigger] old_out[i] == all[j];
                    assert(infos(out@)[i] == all[j]);
                } else if i == pos {
                    assert(infos(out@)[i] == all[rest@.len() as int]);
                } else {
                    let j = choose|j: int|
                        rest@.len() + 1 <= j < n && #[trigger] old_out[i - 1] == all[j];
                    assert(infos(out@)[i] == all[j]);
                }
            }
        }
    }
    assert(all.subrange(0, n as int) =~= all);
    out
}

} // verus!
