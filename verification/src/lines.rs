//! Line splitting, trimming and searching over character sequences, with
//! the meaning of the standard string methods of the same names.
use vstd::prelude::*;

use crate::scan_text::{is_unicode_ws, spec_unicode_ws, split_lines, split_nl};
use crate::text::to_chars;

verus! {

/// A line without the `\r` of a `\r\n` ending.
pub open spec fn strip_cr(l: Seq<char>) -> Seq<char> {
    if l.len() > 0 && l.last() == '\r' {
        l.drop_last()
    } else {
        l
    }
}

/// The lines of `s` as `str::lines` gives them: split at `\n`, with the
/// `\r` of each `\r\n` removed, and no final empty line after a trailing
/// line break.
pub open spec fn str_lines(s: Seq<char>) -> Seq<Seq<char>> {
    let parts = split_nl(s);
    let n = if parts.last().len() == 0 {
        parts.len() - 1
    } else {
        parts.len() as int
    };
    Seq::new(
        n as nat,
        |i: int|
            if i < parts.len() - 1 {
                strip_cr(parts[i])
            } else {
                parts[i]
            },
    )
}

/// The index of the first non-whitespace character at or after `i`.
pub open spec fn ws_end(s: Seq<char>, i: int) -> int
    decreases s.len() - i,
{
    if 0 <= i < s.len() && spec_unicode_ws(s[i]) {
        ws_end(s, i + 1)
    } else {
        i
    }
}

/// The index just past the last non-whitespace character before `e`.
pub open spec fn ws_start(s: Seq<char>, e: int) -> int
    decreases e,
{
    if 0 < e <= s.len() && spec_unicode_ws(s[e - 1]) {
        ws_start(s, e - 1)
    } else {
        e
    }
}

/// `s` without leading Unicode whitespace.
pub open spec fn trim_start(s: Seq<char>) -> Seq<char> {
    s.skip(ws_end(s, 0))
}

/// `s` without trailing Unicode whitespace.
pub open spec fn trim_end(s: Seq<char>) -> Seq<char> {
    s.take(ws_start(s, s.len() as int))
}

/// `s` without leading and trailing Unicode whitespace.
pub open spec fn trim(s: Seq<char>) -> Seq<char> {
    trim_end(trim_start(s))
}

/// Whether `p` occurs in `s` at index `i`.
pub open spec fn occurs_at(s: Seq<char>, p: Seq<char>, i: int) -> bool {
    0 <= i && i + p.len() <= s.len() && s.subrange(i, i + p.len()) == p
}

/// Whether `s` starts with `p`.
pub open spec fn starts_with(s: Seq<char>, p: Seq<char>) -> bool {
    occurs_at(s, p, 0)
}

/// Whether `p` occurs anywhere in `s`.
pub open spec fn contains_seq(s: Seq<char>, p: Seq<char>) -> bool {
    exists|i: int| occurs_at(s, p, i)
}

/// The first index at or after `i` holding `c`.
pub open spec fn find_from(s: Seq<char>, c: char, i: int) -> Option<int>
    decreases s.len() - i,
{
    if i < 0 || i >= s.len() {
        None
    } else if s[i] == c {
        Some(i)
    } else {
        find_from(s, c, i + 1)
    }
}

/// The first index of `c` in `s`.
pub open spec fn find_char(s: Seq<char>, c: char) -> Option<int> {
    find_from(s, c, 0)
}

/// The end of leading whitespace lies between its start and the end.
pub proof fn lemma_ws_end_bounds(s: Seq<char>, i: int)
    requires
        0 <= i <= s.len(),
    ensures
        i <= ws_end(s, i) <= s.len(),
    decreases s.len() - i,
{
    if i < s.len() && spec_unicode_ws(s[i]) {
        lemma_ws_end_bounds(s, i + 1);
    }
}

/// The characters `s[from..to]` as a new vector.
pub fn copy_range(s: &[char], from: usize, to: usize) -> (r: Vec<char>)
    requires
        from <= to <= s@.len(),
    ensures
        r@ == s@.subrange(from as int, to as int),
{
    let mut r: Vec<char> = Vec::new();
    let mut i = from;
    while i < to
        invariant
            from <= i <= to <= s@.len(),
            r@ == s@.subrange(from as int, i as int),
        decreases to - i,
    {
        r.push(s[i]);
        i = i + 1;
        assert(r@ =~= s@.subrange(from as int, i as int));
    }
    r
}

/// The lines of `s`, as `str::lines` splits them.
pub fn lines_of(s: &Vec<char>) -> (r: Vec<Vec<char>>)
    ensures
        r.deep_view() == str_lines(s@),
{
    let parts = split_lines(s);
    let ghost p = parts.deep_view();
    proof {
        lemma_parts_nonempty(s@);
    }
    let count = parts.len();
    let last_len = parts[count - 1].len();
    let n = if last_len == 0 {
        count - 1
    } else {
        count
    };
    let mut r: Vec<Vec<char>> = Vec::new();
    let mut i: usize = 0;
    while i < n
        invariant
            p == parts.deep_view(),
            p == split_nl(s@),
            count == p.len(),
            n <= count,
            n == str_lines(s@).len(),
            i <= n,
            r.deep_view() == str_lines(s@).take(i as int),
        decreases n - i,
    {
        let l = &parts[i];
        let len = l.len();
        let line = if i + 1 < count && len > 0 && l[len - 1] == '\r' {
            copy_range(l.as_slice(), 0, len - 1)
        } else {
            copy_range(l.as_slice(), 0, len)
        };
        proof {
            assert(l@ == p[i as int]);
            assert(line@ =~= str_lines(s@)[i as int]);
        }
        let ghost before = r.deep_view();
        let ghost old_r = r@;
        r.push(line);
        proof {
            assert forall|j: int| 0 <= j < r@.len() implies #[trigger] r.deep_view()[j] == before.push(
                line@,
            )[j] by {
                if j < old_r.len() {
                    assert(r@[j] == old_r[j]);
                }
            }
            assert(r.deep_view() =~= before.push(line@));
            assert(str_lines(s@).take(i + 1) =~= str_lines(s@).take(i as int).push(
                str_lines(s@)[i as int],
            ));
        }
        i = i + 1;
    }
    proof {
        assert(str_lines(s@).take(n as int) =~= str_lines(s@));
    }
    r
}

/// Splitting at line breaks gives at least one part.
pub proof fn lemma_parts_nonempty(s: Seq<char>)
    ensures
        split_nl(s).len() >= 1,
    decreases s.len(),
{
    if s.len() > 0 {
        lemma_parts_nonempty(s.drop_last());
    }
}

/// The index of the first non-whitespace character of `s` at or after `i`.
pub fn skip_ws(s: &[char], i: usize) -> (r: usize)
    requires
        i <= s@.len(),
    ensures
        r == ws_end(s@, i as int),
        i <= r <= s@.len(),
{
    let mut k = i;
    while k < s.len() && is_unicode_ws(s[k])
        invariant
            i <= k <= s@.len(),
            ws_end(s@, i as int) == ws_end(s@, k as int),
        decreases s@.len() - k,
    {
        k = k + 1;
    }
    k
}

/// `s` without leading Unicode whitespace.
pub fn trim_start_v(s: &[char]) -> (r: Vec<char>)
    ensures
        r@ == trim_start(s@),
{
    let a = skip_ws(s, 0);
    copy_range(s, a, s.len())
}

/// `s` without trailing Unicode whitespace.
pub fn trim_end_v(s: &[char]) -> (r: Vec<char>)
    ensures
        r@ == trim_end(s@),
{
    let mut e = s.len();
    while e > 0 && is_unicode_ws(s[e - 1])
        invariant
            e <= s@.len(),
            ws_start(s@, s@.len() as int) == ws_start(s@, e as int),
        decreases e,
    {
        e = e - 1;
    }
    let r = copy_range(s, 0, e);
    assert(r@ =~= trim_end(s@));
    r
}

/// `s` without leading and trailing Unicode whitespace.
pub fn trim_v(s: &[char]) -> (r: Vec<char>)
    ensures
        r@ == trim(s@),
{
    let t = trim_start_v(s);
    trim_end_v(t.as_slice())
}

/// Whether `p` occurs in `s` at index `i`.
pub fn occurs_at_v(s: &[char], p: &[char], i: usize) -> (r: bool)
    ensures
        r == occurs_at(s@, p@, i as int),
{
    let n = s.len();
    if i > n || p.len() > n - i {
        return false;
    }
    let mut k: usize = 0;
    while k < p.len()
        invariant
            n == s@.len(),
            i + p@.len() <= s@.len(),
            k <= p@.len(),
            forall|m: int| 0 <= m < k ==> s@[i + m] == p@[m],
        decreases p@.len() - k,
    {
        if s[i + k] != p[k] {
            assert(s@.subrange(i as int, i + p@.len())[k as int] != p@[k as int]);
            return false;
        }
        k = k + 1;
    }
    assert(s@.subrange(i as int, i + p@.len()) =~= p@);
    true
}

/// Whether `s` starts with the characters of `p`.
pub fn starts_with_v(s: &[char], p: &str) -> (r: bool)
    ensures
        r == starts_with(s@, p@),
{
    let pv = to_chars(p);
    occurs_at_v(s, pv.as_slice(), 0)
}

/// Whether the characters of `p` occur in `s`.
pub fn contains_v(s: &[char], p: &str) -> (r: bool)
    ensures
        r == contains_seq(s@, p@),
{
    let pv = to_chars(p);
    let n = s.len();
    let mut i: usize = 0;
    loop
        invariant
            pv@ == p@,
            n == s@.len(),
            i <= n,
            forall|j: int| 0 <= j < i ==> !occurs_at(s@, p@, j),
        decreases n - i,
    {
        if occurs_at_v(s, pv.as_slice(), i) {
            return true;
        }
        if i == n {
            assert forall|j: int| !occurs_at(s@, p@, j) by {
                if 0 <= j && j <= i {
                    assert(j < i || j == i);
                }
            }
            return false;
        }
        i = i + 1;
    }
}

/// The first index of `c` in `s`, if any.
pub fn find_char_v(s: &[char], c: char) -> (r: Option<usize>)
    ensures
        r matches Some(k) ==> find_char(s@, c) == Some(k as int),
        r is None ==> find_char(s@, c) is None,
{
    let mut i: usize = 0;
    while i < s.len()
        invariant
            i <= s@.len(),
            find_char(s@, c) == find_from(s@, c, i as int),
        decreases s@.len() - i,
    {
        if s[i] == c {
            return Some(i);
        }
        i = i + 1;
    }
    None
}

} // verus!
