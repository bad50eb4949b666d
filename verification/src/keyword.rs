//! Keyword matching for search: the keyword as literal text anywhere in a
//! title, ASCII letters compared without regard to case. No character of the
//! keyword has a special meaning.
use vstd::prelude::*;
use crate::text::{ascii_fold, fold_char};

verus! {

/// `text` holds `keyword` starting at position `at`, up to the case of ASCII
/// letters.
pub open spec fn holds_at(keyword: Seq<char>, text: Seq<char>, at: int) -> bool {
    &&& 0 <= at
    &&& at + keyword.len() <= text.len()
    &&& forall|m: int| 0 <= m < keyword.len() ==> ascii_fold(#[trigger] text[at + m]) == ascii_fold(keyword[m])
}

/// `text` holds `keyword` somewhere, up to the case of ASCII letters.
pub open spec fn contains_text(keyword: Seq<char>, text: Seq<char>) -> bool {
    exists|at: int| holds_at(keyword, text, at)
}

/// Whether `text` holds `keyword` at position `at`.
fn holds_at_exec(keyword: &[char], text: &[char], at: usize) -> (r: bool)
    requires
        at + keyword@.len() <= text@.len(),
    ensures
        r == holds_at(keyword@, text@, at as int),
{
    let n: usize = text.len();
    let mut m: usize = 0;
    while m < keyword.len()
        invariant
            n == text@.len(),
            m <= keyword@.len(),
            at + keyword@.len() <= text@.len(),
            forall|j: int| 0 <= j < m ==> ascii_fold(#[trigger] text@[at + j]) == ascii_fold(keyword@[j]),
        decreases keyword@.len() - m,
    {
        assert(at + m < text@.len());
        if fold_char(text[at + m]) != fold_char(keyword[m]) {
            return false;
        }
        m = m + 1;
    }
    true
}

/// Whether `text` holds `keyword`, up to the case of ASCII letters.
pub fn contains_keyword(keyword: &[char], text: &[char]) -> (r: bool)
    ensures
        r == contains_text(keyword@, text@),
{
    if keyword.len() > text.len() {
        return false;
    }
    let last = text.len() - keyword.len();
    let mut at: usize = 0;
    loop
        invariant
            last == text@.len() - keyword@.len(),
            keyword@.len() <= text@.len(),
            at <= last,
            forall|a: int| 0 <= a < at ==> !#[trigger] holds_at(keyword@, text@, a),
        decreases last - at,
    {
        if holds_at_exec(keyword, text, at) {
            return true;
        }
        if at == last {
            assert forall|a: int| !#[trigger] holds_at(keyword@, text@, a) by {
                if 0 <= a && a < at {
                } else if a == at {
                } else {
                }
            }
            return false;
        }
        at = at + 1;
    }
}

} // verus!
