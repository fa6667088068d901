//! Test cases of YAML Test Suite files, read line by line (without a YAML
//! parser): the `yaml:`, `tree:` and `fail:` fields of each element of the
//! file's top-level sequence.
use vstd::prelude::*;

use crate::lines::{
    copy_range, lines_of, skip_ws, starts_with, starts_with_v, str_lines, strip_cr, trim,
    trim_start, trim_start_v, trim_v, ws_end, occurs_at_v,
};
use crate::text::{
    boundary_index, char_len_utf8, is_boundary, lemma_boundary_index, lemma_boundary_unique,
    lemma_utf8_len_take_mono, lemma_utf8_len_take_step, to_chars, utf8_len, vec_to_string,
};

verus! {

/// A test case of a YAML Test Suite file.
#[derive(Debug, Clone, PartialEq, Eq)]
pub struct TestCase {
    /// Position of the element in the file, from 0.
    pub index: usize,
    /// The YAML input, with the suite's visible markers replaced.
    pub yaml: String,
    /// The expected event tree, if the element has one.
    pub tree: Option<String>,
    /// Whether the input is expected to be rejected.
    pub fail: bool,
}

/// What a suite marker character stands for: `—` and `↵` and `∎` for
/// nothing, `␣` for a space, `»` for a tab; other characters for
/// themselves.
pub open spec fn marker_text(c: char) -> Seq<char> {
    if c == '\u{2014}' || c == '\u{21B5}' || c == '\u{220E}' {
        seq![]
    } else if c == '\u{2423}' {
        seq![' ']
    } else if c == '\u{00BB}' {
        seq!['\t']
    } else {
        seq![c]
    }
}

/// `s` with each marker replaced by what it stands for.
pub open spec fn map_markers(s: Seq<char>) -> Seq<char>
    decreases s.len(),
{
    if s.len() == 0 {
        seq![]
    } else {
        map_markers(s.drop_last()) + marker_text(s.last())
    }
}

/// `s` with its markers replaced; after an end-of-proof marker `∎` a
/// final line break is dropped too.
pub open spec fn spec_replace_markers(s: Seq<char>) -> Seq<char> {
    let m = map_markers(s);
    if s.contains('\u{220E}') && m.len() > 0 && m.last() == '\n' {
        m.drop_last()
    } else {
        m
    }
}

/// The number of bytes of leading whitespace of a line.
pub open spec fn ws_bytes(line: Seq<char>) -> nat {
    utf8_len(line.take(ws_end(line, 0)))
}

/// Whether a line is empty or whitespace only.
pub open spec fn is_blank(line: Seq<char>) -> bool {
    trim(line).len() == 0
}

/// The text after `key:` in a line, where the key is the line's first
/// word or follows a leading `- `.
pub open spec fn key_value(line: Seq<char>, key: Seq<char>) -> Option<Seq<char>> {
    let t = trim_start(line);
    let k = key.push(':');
    if starts_with(t, k) {
        Some(t.skip(k.len() as int))
    } else if starts_with(t, seq!['-', ' ']) && starts_with(trim_start(t.skip(2)), k) {
        Some(trim_start(t.skip(2)).skip(k.len() as int))
    } else {
        None
    }
}

/// Whether a line says `fail: true`.
pub open spec fn is_fail_line(line: Seq<char>) -> bool {
    key_value(line, "fail"@) matches Some(rest) && trim(rest) == "true"@
}

/// The index of the first ASCII digit of `s` at or after `i`.
pub open spec fn digit_from(s: Seq<char>, i: int) -> Option<int>
    decreases s.len() - i,
{
    if i < 0 || i >= s.len() {
        None
    } else if '0' <= s[i] <= '9' {
        Some(i)
    } else {
        digit_from(s, i + 1)
    }
}

/// The byte column where a block's content starts when its header (such as
/// `|2`) gives an indentation indicator: the key's column (after a leading
/// `- `) plus the indicator. `None` without a non-zero indicator.
pub open spec fn indent_indicator(header: Seq<char>, key_line: Seq<char>) -> Option<nat> {
    match digit_from(header, 0) {
        None => None,
        Some(d) => {
            let ind = (header[d] as u32 - '0' as u32) as nat;
            if ind == 0 {
                None
            } else {
                let lead = ws_bytes(key_line);
                let col = if starts_with(trim_start(key_line), seq!['-', ' ']) {
                    lead + 2
                } else {
                    lead
                };
                Some(col + ind)
            }
        },
    }
}

/// Reads a block from line `idx` on. With a known indentation, a non-blank
/// line indented less ends the block, and each line loses that many bytes
/// (a blank shorter line gives an empty one); without one, blank lines
/// are skipped until the first non-blank line sets it. Gives the lines
/// read, the index after them, and whether every cut fell on a character
/// boundary.
pub open spec fn block_scan(
    lines: Seq<Seq<char>>,
    idx: int,
    indent: Option<nat>,
    acc: Seq<Seq<char>>,
    ok: bool,
) -> (Seq<Seq<char>>, int, bool)
    decreases lines.len() - idx,
{
    if idx < 0 || idx >= lines.len() {
        (acc, idx, ok)
    } else {
        let line = lines[idx];
        match indent {
            Some(min) => if !is_blank(line) && ws_bytes(line) < min {
                (acc, idx, ok)
            } else if utf8_len(line) >= min {
                block_scan(
                    lines,
                    idx + 1,
                    indent,
                    acc.push(line.skip(boundary_index(line, min))),
                    ok && is_boundary(line, min),
                )
            } else if is_blank(line) {
                block_scan(lines, idx + 1, indent, acc.push(seq![]), ok)
            } else {
                (acc, idx, ok)
            },
            None => if !is_blank(line) {
                block_scan(
                    lines,
                    idx + 1,
                    Some(ws_bytes(line)),
                    acc.push(line.skip(ws_end(line, 0))),
                    ok,
                )
            } else {
                block_scan(lines, idx + 1, None, acc, ok)
            },
        }
    }
}

/// Lines joined with `\n` between them.
pub open spec fn join_nl(ls: Seq<Seq<char>>) -> Seq<char>
    decreases ls.len(),
{
    if ls.len() == 0 {
        seq![]
    } else if ls.len() == 1 {
        ls[0]
    } else {
        join_nl(ls.drop_last()) + seq!['\n'] + ls.last()
    }
}

/// Whether the text after a key opens a block scalar.
pub open spec fn is_block_header(after_key: Seq<char>) -> bool {
    after_key.len() == 0 || after_key[0] == '|'
}

/// The value of a field: a block read after the key's line, or the text
/// after the key. Gives the value, the index after it and whether the
/// block's cuts fell on character boundaries.
pub open spec fn field_value(el: Seq<Seq<char>>, i: int, after_key: Seq<char>) -> (Seq<char>, int, bool) {
    if is_block_header(after_key) {
        let (ls, e, ok) = block_scan(el, i + 1, indent_indicator(after_key, el[i]), seq![], true);
        (spec_replace_markers(join_nl(ls)), e, ok)
    } else {
        (spec_replace_markers(after_key), i + 1, true)
    }
}

/// A block ends no earlier than where it starts.
pub proof fn lemma_block_end(lines: Seq<Seq<char>>, idx: int, indent: Option<nat>, acc: Seq<Seq<char>>, ok: bool)
    requires
        0 <= idx <= lines.len(),
    ensures
        idx <= block_scan(lines, idx, indent, acc, ok).1 <= lines.len(),
    decreases lines.len() - idx,
{
    if idx < lines.len() {
        let line = lines[idx];
        match indent {
            Some(min) => {
                if !(!is_blank(line) && ws_bytes(line) < min) {
                    if utf8_len(line) >= min {
                        lemma_block_end(lines, idx + 1, indent, acc.push(line.skip(boundary_index(line, min))), ok && is_boundary(line, min));
                    } else if is_blank(line) {
                        lemma_block_end(lines, idx + 1, indent, acc.push(seq![]), ok);
                    }
                }
            },
            None => {
                if !is_blank(line) {
                    lemma_block_end(lines, idx + 1, Some(ws_bytes(line)), acc.push(line.skip(ws_end(line, 0))), ok);
                } else {
                    lemma_block_end(lines, idx + 1, None, acc, ok);
                }
            },
        }
    }
}

/// A field value ends after its key line.
pub proof fn lemma_field_end(el: Seq<Seq<char>>, i: int, after_key: Seq<char>)
    requires
        0 <= i < el.len(),
    ensures
        i < field_value(el, i, after_key).1 <= el.len(),
{
    if is_block_header(after_key) {
        lemma_block_end(el, i + 1, indent_indicator(after_key, el[i]), seq![], true);
    }
}

/// Reads an element's lines from `i` on: `fail: true` sets `fail`, and a
/// `yaml:` or `tree:` field sets that field (a later one replaces an
/// earlier one). Gives the fields and whether every block cut fell on a
/// character boundary.
pub open spec fn scan_element(
    el: Seq<Seq<char>>,
    i: int,
    yaml: Option<Seq<char>>,
    tree: Option<Seq<char>>,
    fail: bool,
    ok: bool,
) -> (Option<Seq<char>>, Option<Seq<char>>, bool, bool)
    decreases el.len() - i,
{
    if i < 0 || i >= el.len() {
        (yaml, tree, fail, ok)
    } else {
        let line = el[i];
        if is_fail_line(line) {
            scan_element(el, i + 1, yaml, tree, true, ok)
        } else if key_value(line, "yaml"@) is Some {
            let fv = field_value(el, i, trim(key_value(line, "yaml"@)->0));
            proof {
                lemma_field_end(el, i, trim(key_value(line, "yaml"@)->0));
            }
            scan_element(el, fv.1, Some(fv.0), tree, fail, ok && fv.2)
        } else if key_value(line, "tree"@) is Some {
            let fv = field_value(el, i, trim(key_value(line, "tree"@)->0));
            proof {
                lemma_field_end(el, i, trim(key_value(line, "tree"@)->0));
            }
            scan_element(el, fv.1, yaml, Some(fv.0), fail, ok && fv.2)
        } else {
            scan_element(el, i + 1, yaml, tree, fail, ok)
        }
    }
}

/// The elements read so far and the lines of the current one: an element
/// starts at a line beginning with `- `; a `---` line before everything is
/// skipped.
pub open spec fn element_state(lines: Seq<Seq<char>>) -> (Seq<Seq<Seq<char>>>, Seq<Seq<char>>)
    decreases lines.len(),
{
    if lines.len() == 0 {
        (seq![], seq![])
    } else {
        let (es, cur) = element_state(lines.drop_last());
        let line = lines.last();
        if es.len() == 0 && cur.len() == 0 && trim(line) == "---"@ {
            (es, cur)
        } else if starts_with(line, seq!['-', ' ']) && cur.len() > 0 {
            (es.push(cur), seq![line])
        } else {
            (es, cur.push(line))
        }
    }
}

/// The elements of a file's lines.
pub open spec fn elements_of(lines: Seq<Seq<char>>) -> Seq<Seq<Seq<char>>> {
    let (es, cur) = element_state(lines);
    if cur.len() > 0 {
        es.push(cur)
    } else {
        es
    }
}

/// The fields of an element.
pub open spec fn element_fields(el: Seq<Seq<char>>) -> (Option<Seq<char>>, Option<Seq<char>>, bool, bool) {
    scan_element(el, 0, None, None, false, true)
}

/// The test cases of the first `n` elements: one for each element with a
/// `yaml:` field, as (index, yaml, tree, fail).
pub open spec fn cases_of(els: Seq<Seq<Seq<char>>>, n: int) -> Seq<(nat, Seq<char>, Option<Seq<char>>, bool)>
    decreases n,
{
    if n <= 0 {
        seq![]
    } else {
        let rest = cases_of(els, n - 1);
        let (y, t, f, _ok) = element_fields(els[n - 1]);
        match y {
            Some(yaml) => rest.push(((n - 1) as nat, yaml, t, f)),
            None => rest,
        }
    }
}

/// A test case as plain values.
pub open spec fn case_view(c: TestCase) -> (nat, Seq<char>, Option<Seq<char>>, bool) {
    (c.index as nat, c.yaml@, crate::compare::opt_view(c.tree), c.fail)
}

/// Whether a file's blocks can be cut on character boundaries (the
/// indentation bytes removed never split a character).
pub open spec fn cuts_ok(content: Seq<char>) -> bool {
    let els = elements_of(str_lines(content));
    forall|k: int| 0 <= k < els.len() ==> (#[trigger] element_fields(els[k])).3
}

/// Each line of `str_lines(s)` is no longer in bytes than `s`.
pub proof fn lemma_lines_bytes(s: Seq<char>)
    ensures
        forall|i: int| 0 <= i < str_lines(s).len() ==> utf8_len(#[trigger] str_lines(s)[i]) <= utf8_len(s),
{
    lemma_split_bytes(s);
    let parts = crate::scan_text::split_nl(s);
    assert forall|i: int| 0 <= i < str_lines(s).len() implies utf8_len(#[trigger] str_lines(s)[i]) <= utf8_len(s) by {
        crate::lines::lemma_parts_nonempty(s);
        let p = parts[i];
        assert(str_lines(s)[i] == strip_cr(p) || str_lines(s)[i] == p);
        assert(utf8_len(p) <= utf8_len(s));
        if p.len() > 0 && p.last() == '\r' {
            assert(utf8_len(p) == utf8_len(p.drop_last()) + crate::text::char_width(p.last()));
        }
    }
}

proof fn lemma_split_bytes(s: Seq<char>)
    ensures
        forall|i: int| 0 <= i < crate::scan_text::split_nl(s).len() ==> utf8_len(
            #[trigger] crate::scan_text::split_nl(s)[i],
        ) <= utf8_len(s),
    decreases s.len(),
{
    if s.len() > 0 {
        lemma_split_bytes(s.drop_last());
        let rest = crate::scan_text::split_nl(s.drop_last());
        crate::lines::lemma_parts_nonempty(s.drop_last());
        let l = rest.last();
        assert(l.push(s.last()).drop_last() =~= l);
    }
}

/// Replaces the suite's visible markers: `—`, `↵` and `∎` are removed, `␣`
/// becomes a space and `»` a tab; after `∎`, a final line break is removed
/// too.
pub fn replace_markers(s: String) -> (r: String)
    ensures
        r@ == spec_replace_markers(s@),
{
    let chars = to_chars(s.as_str());
    let mut out: Vec<char> = Vec::new();
    let mut has_end = false;
    let mut i: usize = 0;
    while i < chars.len()
        invariant
            chars@ == s@,
            i <= chars@.len(),
            out@ == map_markers(chars@.take(i as int)),
            has_end == chars@.take(i as int).contains('\u{220E}'),
        decreases chars@.len() - i,
    {
        let c = chars[i];
        proof {
            assert(chars@.take(i + 1).drop_last() =~= chars@.take(i as int));
            assert(chars@.take(i + 1).last() == c);
        }
        let ghost before = out@;
        if c == '\u{2014}' || c == '\u{21B5}' || c == '\u{220E}' {
        } else if c == '\u{2423}' {
            out.push(' ');
        } else if c == '\u{00BB}' {
            out.push('\t');
        } else {
            out.push(c);
        }
        proof {
            assert(out@ =~= before + marker_text(c));
            let t = chars@.take(i + 1);
            if c == '\u{220E}' {
                assert(t[i as int] == c);
            }
            if t.contains('\u{220E}') && c != '\u{220E}' {
                let j = choose|j: int| 0 <= j < t.len() && t[j] == '\u{220E}';
                assert(chars@.take(i as int)[j] == '\u{220E}');
            }
            if chars@.take(i as int).contains('\u{220E}') {
                let j = choose|j: int| 0 <= j < i && chars@.take(i as int)[j] == '\u{220E}';
                assert(t[j] == '\u{220E}');
            }
        }
        if c == '\u{220E}' {
            has_end = true;
        }
        i = i + 1;
    }
    proof {
        assert(chars@.take(i as int) =~= s@);
    }
    let n = out.len();
    if has_end && n > 0 && out[n - 1] == '\n' {
        out.pop();
        proof {
            assert(out@ =~= map_markers(s@).drop_last());
        }
    }
    vec_to_string(&out)
}

/// The byte length of the leading whitespace of `line`.
fn ws_bytes_v(line: &[char]) -> (r: usize)
    requires
        utf8_len(line@) <= usize::MAX,
    ensures
        r == ws_bytes(line@),
{
    let k = skip_ws(line, 0);
    let mut bytes: usize = 0;
    let mut j: usize = 0;
    proof {
        assert(line@.take(0) =~= Seq::<char>::empty());
    }
    while j < k
        invariant
            k == ws_end(line@, 0),
            k <= line@.len(),
            j <= k,
            bytes == utf8_len(line@.take(j as int)),
            utf8_len(line@) <= usize::MAX,
        decreases k - j,
    {
        proof {
            lemma_utf8_len_take_step(line@, j as int);
            crate::text::lemma_utf8_len_take_le(line@, j + 1);
        }
        bytes = bytes + char_len_utf8(line[j]);
        j = j + 1;
    }
    bytes
}

/// The character index where byte `min` of `line` falls, which must be a
/// character boundary.
fn boundary_char_index(line: &[char], min: usize) -> (k: usize)
    requires
        is_boundary(line@, min as nat),
        utf8_len(line@) <= usize::MAX,
    ensures
        k == boundary_index(line@, min as nat),
        k <= line@.len(),
{
    let mut k: usize = 0;
    let mut bytes: usize = 0;
    proof {
        assert(line@.take(0) =~= Seq::<char>::empty());
    }
    while k < line.len() && bytes < min
        invariant
            k <= line@.len(),
            bytes == utf8_len(line@.take(k as int)),
            forall|j: int| 0 <= j < k ==> utf8_len(line@.take(j)) < min,
            utf8_len(line@) <= usize::MAX,
        decreases line@.len() - k,
    {
        proof {
            lemma_utf8_len_take_step(line@, k as int);
            crate::text::lemma_utf8_len_take_le(line@, k + 1);
        }
        bytes = bytes + char_len_utf8(line[k]);
        k = k + 1;
    }
    proof {
        let i = boundary_index(line@, min as nat);
        if bytes != min {
            if i < k {
                assert(utf8_len(line@.take(i)) < min);
            } else if i > k {
                lemma_utf8_len_take_mono(line@, k as int, i);
            }
            assert(false);
        }
        lemma_boundary_unique(line@, k as int, i);
    }
    k
}

/// An optional byte count as a natural number.
pub open spec fn opt_nat(o: Option<usize>) -> Option<nat> {
    match o {
        Some(v) => Some(v as nat),
        None => None,
    }
}

/// A reader that goes on after a cut off a character boundary reports it
/// at the end.
proof fn lemma_block_not_ok(lines: Seq<Seq<char>>, idx: int, indent: Option<nat>, acc: Seq<Seq<char>>)
    ensures
        !block_scan(lines, idx, indent, acc, false).2,
    decreases lines.len() - idx,
{
    if 0 <= idx < lines.len() {
        let line = lines[idx];
        match indent {
            Some(min) => {
                if !(!is_blank(line) && ws_bytes(line) < min) {
                    if utf8_len(line) >= min {
                        lemma_block_not_ok(lines, idx + 1, indent, acc.push(line.skip(boundary_index(line, min))));
                    } else if is_blank(line) {
                        lemma_block_not_ok(lines, idx + 1, indent, acc.push(seq![]));
                    }
                }
            },
            None => {
                if !is_blank(line) {
                    lemma_block_not_ok(lines, idx + 1, Some(ws_bytes(line)), acc.push(line.skip(ws_end(line, 0))));
                } else {
                    lemma_block_not_ok(lines, idx + 1, None, acc);
                }
            },
        }
    }
}

fn push_line(acc: &mut Vec<Vec<char>>, l: Vec<char>)
    ensures
        final(acc).deep_view() == old(acc).deep_view().push(l@),
{
    let ghost before = acc@;
    let ghost lv = l@;
    acc.push(l);
    proof {
        assert forall|j: int| 0 <= j < acc@.len() implies #[trigger] acc.deep_view()[j] == old(acc).deep_view().push(lv)[j] by {
            if j < before.len() {
                assert(acc@[j] == before[j]);
            }
        }
        assert(acc.deep_view() =~= old(acc).deep_view().push(lv));
    }
}

/// The byte length of `line`.
fn utf8_len_v(line: &[char]) -> (r: usize)
    requires
        utf8_len(line@) <= usize::MAX,
    ensures
        r == utf8_len(line@),
{
    let mut bytes: usize = 0;
    let mut j: usize = 0;
    proof {
        assert(line@.take(0) =~= Seq::<char>::empty());
    }
    while j < line.len()
        invariant
            j <= line@.len(),
            bytes == utf8_len(line@.take(j as int)),
            utf8_len(line@) <= usize::MAX,
        decreases line@.len() - j,
    {
        proof {
            lemma_utf8_len_take_step(line@, j as int);
            crate::text::lemma_utf8_len_take_le(line@, j + 1);
        }
        bytes = bytes + char_len_utf8(line[j]);
        j = j + 1;
    }
    proof {
        assert(line@.take(j as int) =~= line@);
    }
    bytes
}

/// Reads a block of `lines` from `start` on; see [`block_scan`].
pub(crate) fn read_block(lines: &Vec<Vec<char>>, start: usize, indent: Option<usize>) -> (r: (Vec<Vec<char>>, usize))
    requires
        start <= lines@.len(),
        block_scan(lines.deep_view(), start as int, opt_nat(indent), seq![], true).2,
        forall|i: int| 0 <= i < lines@.len() ==> utf8_len(#[trigger] lines.deep_view()[i]) <= usize::MAX,
    ensures
        r.0.deep_view() == block_scan(lines.deep_view(), start as int, opt_nat(indent), seq![], true).0,
        r.1 == block_scan(lines.deep_view(), start as int, opt_nat(indent), seq![], true).1,
{
    let ghost dv = lines.deep_view();
    let ghost res = block_scan(dv, start as int, opt_nat(indent), seq![], true);
    let mut acc: Vec<Vec<char>> = Vec::new();
    let mut cur = indent;
    let mut idx = start;
    proof {
        assert(acc.deep_view() =~= Seq::<Seq<char>>::empty());
    }
    while idx < lines.len()
        invariant
            dv == lines.deep_view(),
            start <= idx <= dv.len(),
            res == block_scan(dv, start as int, opt_nat(indent), seq![], true),
            res.2,
            res == block_scan(dv, idx as int, opt_nat(cur), acc.deep_view(), true),
            forall|i: int| 0 <= i < dv.len() ==> utf8_len(#[trigger] dv[i]) <= usize::MAX,
        decreases dv.len() - idx,
    {
        let line = &lines[idx];
        proof {
            assert(line@ == dv[idx as int]);
        }
        let blank = trim_v(line.as_slice()).len() == 0;
        match cur {
            Some(min) => {
                let wsb = ws_bytes_v(line.as_slice());
                if !blank && wsb < min {
                    return (acc, idx);
                }
                let blen = utf8_len_v(line.as_slice());
                if blen >= min {
                    proof {
                        if !is_boundary(dv[idx as int], min as nat) {
                            lemma_block_not_ok(dv, idx + 1, opt_nat(cur), acc.deep_view().push(dv[idx as int].skip(boundary_index(dv[idx as int], min as nat))));
                        }
                    }
                    let k = boundary_char_index(line.as_slice(), min);
                    let rest = copy_range(line.as_slice(), k, line.len());
                    proof {
                        assert(rest@ =~= line@.skip(k as int));
                    }
                    push_line(&mut acc, rest);
                } else if blank {
                    push_line(&mut acc, Vec::new());
                    proof {
                        assert(Seq::<char>::empty() =~= seq![]);
                    }
                } else {
                    return (acc, idx);
                }
            },
            None => {
                if !blank {
                    let wsb = ws_bytes_v(line.as_slice());
                    let k = skip_ws(line.as_slice(), 0);
                    let rest = copy_range(line.as_slice(), k, line.len());
                    proof {
                        assert(rest@ =~= line@.skip(k as int));
                    }
                    push_line(&mut acc, rest);
                    cur = Some(wsb);
                }
            },
        }
        idx = idx + 1;
    }
    (acc, idx)
}

/// Lines joined with `\n` between them.
pub(crate) fn join_lines(ls: &Vec<Vec<char>>) -> (r: Vec<char>)
    ensures
        r@ == join_nl(ls.deep_view()),
{
    let ghost dv = ls.deep_view();
    let mut out: Vec<char> = Vec::new();
    let mut i: usize = 0;
    while i < ls.len()
        invariant
            dv == ls.deep_view(),
            i <= dv.len(),
            out@ == join_nl(dv.take(i as int)),
        decreases dv.len() - i,
    {
        let l = &ls[i];
        proof {
            assert(l@ == dv[i as int]);
            assert(dv.take(i + 1).drop_last() =~= dv.take(i as int));
            assert(dv.take(i + 1).last() == dv[i as int]);
        }
        let ghost before = out@;
        if i > 0 {
            out.push('\n');
        }
        let mut j: usize = 0;
        while j < l.len()
            invariant
                j <= l@.len(),
                out@ == (if i > 0 {
                    before.push('\n')
                } else {
                    before
                }) + l@.take(j as int),
            decreases l@.len() - j,
        {
            out.push(l[j]);
            j = j + 1;
            proof {
                assert(out@ =~= (if i > 0 {
                    before.push('\n')
                } else {
                    before
                }) + l@.take(j as int));
            }
        }
        proof {
            assert(l@.take(j as int) =~= l@);
            if i == 0 {
                assert(dv.take(1) =~= seq![dv[0]]);
                assert(out@ =~= join_nl(dv.take(1)));
            } else {
                assert(out@ =~= join_nl(dv.take(i as int)) + seq!['\n'] + dv[i as int]);
            }
        }
        i = i + 1;
    }
    proof {
        assert(dv.take(i as int) =~= dv);
    }
    out
}

/// Whether the characters of `v` are those of `s`.
pub(crate) fn eq_str(v: &[char], s: &str) -> (r: bool)
    ensures
        r == (v@ == s@),
{
    let sv = to_chars(s);
    if v.len() != sv.len() {
        return false;
    }
    let r = occurs_at_v(v, sv.as_slice(), 0);
    proof {
        if r {
            assert(v@.subrange(0, v@.len() as int) =~= v@);
        } else {
            assert(v@.subrange(0, sv@.len() as int) =~= v@);
        }
    }
    r
}

/// The text after `key:` in a line; see [`key_value`].
pub(crate) fn key_value_v(line: &[char], key: &str) -> (r: Option<Vec<char>>)
    ensures
        (match r {
            Some(x) => Some(x@),
            None => None,
        }) == key_value(line@, key@),
{
    let t = trim_start_v(line);
    let mut k = to_chars(key);
    k.push(':');
    if occurs_at_v(t.as_slice(), k.as_slice(), 0) {
        let v = copy_range(t.as_slice(), k.len(), t.len());
        proof {
            assert(v@ =~= t@.skip(k@.len() as int));
        }
        return Some(v);
    }
    proof {
        reveal_strlit("- ");
        assert("- "@ =~= seq!['-', ' ']);
    }
    if starts_with_v(t.as_slice(), "- ") {
        let after = copy_range(t.as_slice(), 2, t.len());
        let t2 = trim_start_v(after.as_slice());
        proof {
            assert(after@ =~= t@.skip(2));
        }
        if occurs_at_v(t2.as_slice(), k.as_slice(), 0) {
            let v = copy_range(t2.as_slice(), k.len(), t2.len());
            proof {
                assert(v@ =~= t2@.skip(k@.len() as int));
            }
            return Some(v);
        }
    }
    None
}

/// Whether a line says `fail: true`.
fn is_fail_line_v(line: &[char]) -> (r: bool)
    ensures
        r == is_fail_line(line@),
{
    match key_value_v(line, "fail") {
        Some(rest) => {
            let t = trim_v(rest.as_slice());
            eq_str(t.as_slice(), "true")
        },
        None => false,
    }
}

/// The content column given by a block header's indentation indicator;
/// see [`indent_indicator`].
fn indent_indicator_v(header: &[char], key_line: &[char]) -> (r: Option<usize>)
    requires
        utf8_len(key_line@) + 11 <= usize::MAX,
    ensures
        opt_nat(r) == indent_indicator(header@, key_line@),
{
    let mut i: usize = 0;
    while i < header.len() && !('0' <= header[i] && header[i] <= '9')
        invariant
            i <= header@.len(),
            digit_from(header@, 0) == digit_from(header@, i as int),
        decreases header@.len() - i,
    {
        i = i + 1;
    }
    if i == header.len() {
        return None;
    }
    let ind: usize = ((header[i] as u32) - ('0' as u32)) as usize;
    if ind == 0 {
        return None;
    }
    let lead = ws_bytes_v(key_line);
    proof {
        crate::lines::lemma_ws_end_bounds(key_line@, 0);
        crate::text::lemma_utf8_len_take_le(key_line@, ws_end(key_line@, 0));
        reveal_strlit("- ");
        assert("- "@ =~= seq!['-', ' ']);
    }
    let t = trim_start_v(key_line);
    let col = if starts_with_v(t.as_slice(), "- ") {
        lead + 2
    } else {
        lead
    };
    Some(col + ind)
}

/// The value of the field whose key is on line `i`; see [`field_value`].
fn read_field(el: &Vec<Vec<char>>, i: usize, after_key: &[char]) -> (r: (String, usize))
    requires
        i < el@.len(),
        field_value(el.deep_view(), i as int, after_key@).2,
        forall|k: int| 0 <= k < el@.len() ==> utf8_len(#[trigger] el.deep_view()[k]) + 11 <= usize::MAX,
    ensures
        r.0@ == field_value(el.deep_view(), i as int, after_key@).0,
        r.1 == field_value(el.deep_view(), i as int, after_key@).1,
{
    let _n = el.len();
    if after_key.len() == 0 || after_key[0] == '|' {
        proof {
            assert(el@[i as int]@ == el.deep_view()[i as int]);
        }
        let indent = indent_indicator_v(after_key, el[i].as_slice());
        let (ls, e) = read_block(el, i + 1, indent);
        let text = vec_to_string(&join_lines(&ls));
        (replace_markers(text), e)
    } else {
        let text = vec_to_string(&copy_range(after_key, 0, after_key.len()));
        proof {
            assert(after_key@.subrange(0, after_key@.len() as int) =~= after_key@);
        }
        (replace_markers(text), i + 1)
    }
}

/// A reader that goes on after a bad cut reports it at the end.
proof fn lemma_scan_not_ok(
    el: Seq<Seq<char>>,
    i: int,
    yaml: Option<Seq<char>>,
    tree: Option<Seq<char>>,
    fail: bool,
)
    ensures
        !scan_element(el, i, yaml, tree, fail, false).3,
    decreases el.len() - i,
{
    if 0 <= i < el.len() {
        let line = el[i];
        if is_fail_line(line) {
            lemma_scan_not_ok(el, i + 1, yaml, tree, true);
        } else if key_value(line, "yaml"@) is Some {
            let fv = field_value(el, i, trim(key_value(line, "yaml"@)->0));
            lemma_field_end(el, i, trim(key_value(line, "yaml"@)->0));
            lemma_scan_not_ok(el, fv.1, Some(fv.0), tree, fail);
        } else if key_value(line, "tree"@) is Some {
            let fv = field_value(el, i, trim(key_value(line, "tree"@)->0));
            lemma_field_end(el, i, trim(key_value(line, "tree"@)->0));
            lemma_scan_not_ok(el, fv.1, yaml, Some(fv.0), fail);
        } else {
            lemma_scan_not_ok(el, i + 1, yaml, tree, fail);
        }
    }
}

fn opt_vec_view_string(v: &Option<String>) -> (r: Option<String>)
    ensures
        crate::compare::opt_view(r) == crate::compare::opt_view(*v),
{
    match v {
        Some(x) => Some(crate::text::str_to_string(x.as_str())),
        None => None,
    }
}

/// The `yaml:`, `tree:` and `fail:` fields of an element.
fn read_element(el: &Vec<Vec<char>>) -> (r: (Option<String>, Option<String>, bool))
    requires
        element_fields(el.deep_view()).3,
        forall|k: int| 0 <= k < el@.len() ==> utf8_len(#[trigger] el.deep_view()[k]) + 11 <= usize::MAX,
    ensures
        (crate::compare::opt_view(r.0), crate::compare::opt_view(r.1), r.2) == (
            element_fields(el.deep_view()).0,
            element_fields(el.deep_view()).1,
            element_fields(el.deep_view()).2,
        ),
{
    let ghost dv = el.deep_view();
    let ghost res = element_fields(dv);
    let mut yaml: Option<String> = None;
    let mut tree: Option<String> = None;
    let mut fail = false;
    let mut i: usize = 0;
    while i < el.len()
        invariant
            dv == el.deep_view(),
            i <= dv.len(),
            res == element_fields(dv),
            res.3,
            res == scan_element(dv, i as int, crate::compare::opt_view(yaml), crate::compare::opt_view(tree), fail, true),
            forall|k: int| 0 <= k < dv.len() ==> utf8_len(#[trigger] dv[k]) + 11 <= usize::MAX,
        decreases dv.len() - i,
    {
        let line = &el[i];
        proof {
            assert(line@ == dv[i as int]);
        }
        if is_fail_line_v(line.as_slice()) {
            fail = true;
            i = i + 1;
        } else {
            match key_value_v(line.as_slice(), "yaml") {
                Some(ak) => {
                    let ak = trim_v(ak.as_slice());
                    proof {
                        let fv = field_value(dv, i as int, ak@);
                        lemma_field_end(dv, i as int, ak@);
                        if !fv.2 {
                            lemma_scan_not_ok(dv, fv.1, Some(fv.0), crate::compare::opt_view(tree), fail);
                        }
                    }
                    let (v, e) = read_field(el, i, ak.as_slice());
                    yaml = Some(v);
                    i = e;
                },
                None => {
                    match key_value_v(line.as_slice(), "tree") {
                        Some(ak) => {
                            let ak = trim_v(ak.as_slice());
                            proof {
                                let fv = field_value(dv, i as int, ak@);
                                lemma_field_end(dv, i as int, ak@);
                                if !fv.2 {
                                    lemma_scan_not_ok(dv, fv.1, crate::compare::opt_view(yaml), Some(fv.0), fail);
                                }
                            }
                            let (v, e) = read_field(el, i, ak.as_slice());
                            tree = Some(v);
                            i = e;
                        },
                        None => {
                            i = i + 1;
                        },
                    }
                },
            }
        }
    }
    (yaml, tree, fail)
}

fn push_element(els: &mut Vec<Vec<Vec<char>>>, el: Vec<Vec<char>>)
    ensures
        final(els).deep_view() == old(els).deep_view().push(el.deep_view()),
{
    let ghost before = els@;
    let ghost ev = el.deep_view();
    els.push(el);
    proof {
        assert forall|j: int| 0 <= j < els@.len() implies #[trigger] els.deep_view()[j] == old(els).deep_view().push(ev)[j] by {
            if j < before.len() {
                assert(els@[j] == before[j]);
            }
        }
        assert(els.deep_view() =~= old(els).deep_view().push(ev));
    }
}

/// The elements of a file's lines; see [`elements_of`].
pub(crate) fn split_elements(lines: &Vec<Vec<char>>) -> (r: Vec<Vec<Vec<char>>>)
    ensures
        r.deep_view() == elements_of(lines.deep_view()),
{
    let ghost dv = lines.deep_view();
    let mut elements: Vec<Vec<Vec<char>>> = Vec::new();
    let mut current: Vec<Vec<char>> = Vec::new();
    let mut j: usize = 0;
    proof {
        assert(dv.take(0) =~= Seq::<Seq<char>>::empty());
        assert(elements.deep_view() =~= Seq::<Seq<Seq<char>>>::empty());
        assert(current.deep_view() =~= Seq::<Seq<char>>::empty());
        reveal_strlit("- ");
        assert("- "@ =~= seq!['-', ' ']);
    }
    while j < lines.len()
        invariant
            dv == lines.deep_view(),
            j <= dv.len(),
            (elements.deep_view(), current.deep_view()) == element_state(dv.take(j as int)),
        decreases dv.len() - j,
    {
        let line = &lines[j];
        proof {
            assert(line@ == dv[j as int]);
            assert(elements.deep_view().len() == elements@.len());
            reveal_strlit("- ");
            assert("- "@ =~= seq!['-', ' ']);
            assert(current.deep_view().len() == current@.len());
            assert(dv.take(j + 1).drop_last() =~= dv.take(j as int));
            assert(dv.take(j + 1).last() == dv[j as int]);
        }
        let skip = elements.len() == 0 && current.len() == 0 && eq_str(trim_v(line.as_slice()).as_slice(), "---");
        if skip {
        } else if starts_with_v(line.as_slice(), "- ") && current.len() > 0 {
            let done = current;
            push_element(&mut elements, done);
            current = Vec::new();
            proof {
                assert(current.deep_view() =~= Seq::<Seq<char>>::empty());
            }
            let copy = copy_range(line.as_slice(), 0, line.len());
            proof {
                assert(copy@ =~= line@);
            }
            push_line(&mut current, copy);
            proof {
                assert(current.deep_view() =~= seq![dv[j as int]]);
            }
        } else {
            let copy = copy_range(line.as_slice(), 0, line.len());
            proof {
                assert(copy@ =~= line@);
            }
            push_line(&mut current, copy);
        }
        j = j + 1;
    }
    proof {
        assert(dv.take(j as int) =~= dv);
    }
    if current.len() > 0 {
        push_element(&mut elements, current);
    }
    elements
}

/// The test cases of a YAML Test Suite file: one for each element of its
/// top-level sequence that has a `yaml:` field, with the element's index,
/// its `yaml:` and `tree:` texts (markers replaced) and whether it says
/// `fail: true`.
pub fn extract_test_cases(content: &str) -> (r: Vec<TestCase>)
    requires
        cuts_ok(content@),
        utf8_len(content@) + 11 <= usize::MAX,
    ensures
        r@.map_values(|c: TestCase| case_view(c)) == cases_of(
            elements_of(str_lines(content@)),
            elements_of(str_lines(content@)).len() as int,
        ),
{
    let chars = to_chars(content);
    let lines = lines_of(&chars);
    let elements = split_elements(&lines);
    let ghost ls = str_lines(content@);
    let ghost els = elements.deep_view();
    proof {
        lemma_lines_bytes(content@);
        lemma_elements_lines(ls);
    }
    let mut results: Vec<TestCase> = Vec::new();
    let mut k: usize = 0;
    while k < elements.len()
        invariant
            els == elements.deep_view(),
            els == elements_of(ls),
            ls == str_lines(content@),
            k <= els.len(),
            forall|a: int| 0 <= a < els.len() ==> (#[trigger] element_fields(els[a])).3,
            forall|a: int, b: int| 0 <= a < els.len() && 0 <= b < els[a].len() ==> utf8_len(#[trigger] els[a][b]) + 11 <= usize::MAX,
            results@.map_values(|c: TestCase| case_view(c)) == cases_of(els, k as int),
        decreases els.len() - k,
    {
        let el = &elements[k];
        proof {
            assert(el.deep_view() == els[k as int]);
        }
        let (yaml, tree, fail) = read_element(el);
        let ghost before = results@;
        match yaml {
            Some(y) => {
                results.push(TestCase { index: k, yaml: y, tree, fail });
                proof {
                    assert(results@.map_values(|c: TestCase| case_view(c)) =~= before.map_values(|c: TestCase| case_view(c)).push(case_view(results@.last())));
                }
            },
            None => {},
        }
        k = k + 1;
    }
    results
}

/// The lines of the elements are lines of the file.
pub(crate) proof fn lemma_elements_lines(ls: Seq<Seq<char>>)
    ensures
        forall|a: int, b: int| 0 <= a < elements_of(ls).len() && 0 <= b < elements_of(ls)[a].len() ==> exists|c: int| 0 <= c < ls.len() && #[trigger] elements_of(ls)[a][b] == ls[c],
{
    lemma_state_lines(ls);
}

proof fn lemma_state_lines(ls: Seq<Seq<char>>)
    ensures
        forall|a: int, b: int| 0 <= a < element_state(ls).0.len() && 0 <= b < element_state(ls).0[a].len() ==> exists|c: int| 0 <= c < ls.len() && #[trigger] element_state(ls).0[a][b] == ls[c],
        forall|b: int| 0 <= b < element_state(ls).1.len() ==> exists|c: int| 0 <= c < ls.len() && #[trigger] element_state(ls).1[b] == ls[c],
    decreases ls.len(),
{
    if ls.len() > 0 {
        let prev = ls.drop_last();
        lemma_state_lines(prev);
        let (es, cur) = element_state(prev);
        assert forall|a: int, b: int| 0 <= a < element_state(ls).0.len() && 0 <= b < element_state(ls).0[a].len() implies exists|c: int| 0 <= c < ls.len() && #[trigger] element_state(ls).0[a][b] == ls[c] by {
            if a < es.len() {
                let c = choose|c: int| 0 <= c < prev.len() && es[a][b] == prev[c];
                assert(ls[c] == prev[c]);
            } else {
                let c = choose|c: int| 0 <= c < prev.len() && cur[b] == prev[c];
                assert(ls[c] == prev[c]);
            }
        }
        assert forall|b: int| 0 <= b < element_state(ls).1.len() implies exists|c: int| 0 <= c < ls.len() && #[trigger] element_state(ls).1[b] == ls[c] by {
            let st = element_state(ls).1;
            if st == seq![ls.last()] || b == st.len() - 1 {
                assert(st[b] == ls[ls.len() - 1]);
            } else {
                let c = choose|c: int| 0 <= c < prev.len() && cur[b] == prev[c];
                assert(ls[c] == prev[c]);
            }
        }
    }
}

} // verus!
