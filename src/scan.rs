use vstd::prelude::*;
use crate::text::{trim, to_chars, trim_text};

verus! {

/// `m` occurs in `s` starting at index `k`.
pub open spec fn occurs_at(s: Seq<char>, m: Seq<char>, k: int) -> bool {
    0 <= k && k + m.len() <= s.len() && s.subrange(k, k + m.len()) == m
}

/// The first index at or after `from` where `m` occurs in `s`, or -1.
pub open spec fn first_occurrence(s: Seq<char>, m: Seq<char>, from: int) -> int
    decreases s.len() + 1 - from,
{
    if from < 0 || from + m.len() > s.len() {
        -1
    } else if occurs_at(s, m, from) {
        from
    } else {
        first_occurrence(s, m, from + 1)
    }
}

/// The first index at or after `from` that holds `c`, or -1.
pub open spec fn first_char(s: Seq<char>, c: char, from: int) -> int
    decreases s.len() - from,
{
    if from < 0 || from >= s.len() {
        -1
    } else if s[from] == c {
        from
    } else {
        first_char(s, c, from + 1)
    }
}

/// Index `k` starts a line of `s` and that line begins with `#`.
pub open spec fn is_heading_at(s: Seq<char>, k: int) -> bool {
    0 <= k < s.len() && s[k] == '#' && (k == 0 || s[k - 1] == '\n')
}

/// The first index at or after `from` where a line beginning with `#` starts,
/// or -1.
pub open spec fn first_heading(s: Seq<char>, from: int) -> int
    decreases s.len() - from,
{
    if from < 0 || from >= s.len() {
        -1
    } else if is_heading_at(s, from) {
        from
    } else {
        first_heading(s, from + 1)
    }
}

/// The lines after the first line of `body` that contains `marker`, up to the
/// next line that begins with `#`, trimmed. Empty where `marker` does not
/// occur, where its line is the last one, or where no such heading follows.
pub open spec fn section_after(body: Seq<char>, marker: Seq<char>) -> Seq<char> {
    let p = first_occurrence(body, marker, 0);
    let e = first_char(body, '\n', p + marker.len());
    let j = first_heading(body, e + 1);
    if p < 0 || e < 0 || j < 0 {
        Seq::empty()
    } else {
        trim_text(body.subrange(e + 1, j))
    }
}

/// Where `m` occurs nowhere in `s` at or after `from`, no occurrence is found.
pub proof fn lemma_no_occurrence(s: Seq<char>, m: Seq<char>, from: int)
    requires
        forall|k: int| from <= k ==> !occurs_at(s, m, k),
    ensures
        first_occurrence(s, m, from) == -1,
    decreases s.len() + 1 - from,
{
    if from < 0 || from + m.len() > s.len() {
    } else {
        lemma_no_occurrence(s, m, from + 1);
    }
}

/// Whether `m` occurs in `s` at index `k`.
fn matches_at(s: &Vec<char>, m: &Vec<char>, k: usize) -> (r: bool)
    requires
        k + m@.len() <= s@.len(),
    ensures
        r == occurs_at(s@, m@, k as int),
{
    let mut j: usize = 0;
    while j < m.len()
        invariant
            j <= m@.len(),
            k + m@.len() <= s@.len(),
            s@.subrange(k as int, k + j) == m@.subrange(0, j as int),
        decreases m@.len() - j,
    {
        assert(k + j < s.len());
        if s[k + j] != m[j] {
            assert(s@.subrange(k as int, k + m@.len())[j as int] != m@[j as int]);
            return false;
        }
        assert(s@.subrange(k as int, k + j + 1) =~= s@.subrange(k as int, k + j).push(s@[k + j]));
        assert(m@.subrange(0, j + 1) =~= m@.subrange(0, j as int).push(m@[j as int]));
        j = j + 1;
    }
    assert(m@.subrange(0, m@.len() as int) =~= m@);
    true
}

/// The first index at or after `from` where `m` occurs in `s`.
pub fn find_text(s: &Vec<char>, m: &Vec<char>, from: usize) -> (r: Option<usize>)
    ensures
        match r {
            Some(k) => k as int == first_occurrence(s@, m@, from as int) && k + m.len()
                <= s.len(),
            None => first_occurrence(s@, m@, from as int) == -1,
        },
{
    if m.len() > s.len() {
        return None;
    }
    let last = s.len() - m.len();
    let mut k: usize = from;
    while k <= last
        invariant
            last + m@.len() == s@.len(),
            from <= k,
            first_occurrence(s@, m@, from as int) == first_occurrence(s@, m@, k as int),
        decreases last + 1 - k,
    {
        if matches_at(s, m, k) {
            return Some(k);
        }
        if k == last {
            assert(first_occurrence(s@, m@, k + 1) == -1);
            return None;
        }
        k = k + 1;
    }
    None
}

/// The first index at or after `from` that holds `c`.
pub fn find_char(s: &Vec<char>, c: char, from: usize) -> (r: Option<usize>)
    ensures
        match r {
            Some(k) => k as int == first_char(s@, c, from as int) && from <= k < s.len()
                && s@[k as int] == c,
            None => first_char(s@, c, from as int) == -1 && forall|j: int|
                from <= j < s@.len() ==> s@[j] != c,
        },
{
    let mut k: usize = from;
    while k < s.len()
        invariant
            from <= k,
            first_char(s@, c, from as int) == first_char(s@, c, k as int),
            forall|j: int| from <= j < k ==> s@[j] != c,
        decreases s@.len() - k,
    {
        if s[k] == c {
            return Some(k);
        }
        k = k + 1;
    }
    None
}

/// The first index at or after `from` where a line beginning with `#` starts.
fn find_heading(s: &Vec<char>, from: usize) -> (r: Option<usize>)
    ensures
        match r {
            Some(k) => k as int == first_heading(s@, from as int) && from <= k < s@.len(),
            None => first_heading(s@, from as int) == -1,
        },
{
    let mut k: usize = from;
    while k < s.len()
        invariant
            from <= k,
            first_heading(s@, from as int) == first_heading(s@, k as int),
        decreases s@.len() - k,
    {
        if s[k] == '#' && (k == 0 || s[k - 1] == '\n') {
            return Some(k);
        }
        k = k + 1;
    }
    None
}

/// The trimmed lines of `body` between the line that first contains `marker`
/// and the next line that begins with `#`; empty where there is no such span.
pub fn section_text(body: &str, marker: &str) -> (r: String)
    ensures
        r@ == section_after(body@, marker@),
{
    let cs = to_chars(body);
    let ms = to_chars(marker);
    match find_text(&cs, &ms, 0) {
        None => String::new(),
        Some(p) => {
            match find_char(&cs, '\n', p + ms.len()) {
                None => String::new(),
                Some(e) => {
                    match find_heading(&cs, e + 1) {
                        None => String::new(),
                        Some(j) => {
                            let part = body.substring_char(e + 1, j);
                            trim(part)
                        },
                    }
                },
            }
        },
    }
}

} // verus!
