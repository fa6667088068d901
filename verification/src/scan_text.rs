//! Character classes and text transformations used by the scanner:
//! blanks and breaks, hex digits, tag URI percent-decoding, escape
//! sequences, line folding and chomping of block scalars.
use vstd::prelude::*;
use vstd::utf8::*;

verus! {

/// Space, tab, line break, or end of input.
pub open spec fn spec_blank_or_end(c: Option<char>) -> bool {
    c == None::<char> || c == Some(' ') || c == Some('\t') || c == Some('\n') || c == Some('\r')
}

/// Returns `true` if the character is a blank (space or tab), a line break, or absent.
pub fn is_blank_or_end(c: Option<char>) -> (r: bool)
    ensures
        r == spec_blank_or_end(c),
{
    match c {
        None => true,
        Some(ch) => ch == ' ' || ch == '\t' || ch == '\n' || ch == '\r',
    }
}

/// Space or tab.
pub open spec fn spec_blank(c: Option<char>) -> bool {
    c == Some(' ') || c == Some('\t')
}

/// Returns `true` if the character is a blank (space or tab).
pub fn is_blank(c: Option<char>) -> (r: bool)
    ensures
        r == spec_blank(c),
{
    match c {
        Some(ch) => ch == ' ' || ch == '\t',
        None => false,
    }
}

/// Returns `true` if the character is a YAML line break.
pub fn is_linebreak(c: char) -> (r: bool)
    ensures
        r == (c == '\n' || c == '\r'),
{
    c == '\n' || c == '\r'
}

/// Line break as an optional character.
pub open spec fn spec_break(c: Option<char>) -> bool {
    c == Some('\n') || c == Some('\r')
}

/// Whether `c` is a line break.
pub fn is_break_opt(c: Option<char>) -> (r: bool)
    ensures
        r == spec_break(c),
{
    match c {
        Some(ch) => ch == '\n' || ch == '\r',
        None => false,
    }
}

/// A line break or the end of input.
pub open spec fn spec_break_or_end(c: Option<char>) -> bool {
    c == None::<char> || c == Some('\n') || c == Some('\r')
}

/// Whether `c` is a line break or the end of input.
pub fn is_break_or_end(c: Option<char>) -> (r: bool)
    ensures
        r == spec_break_or_end(c),
{
    match c {
        Some(ch) => ch == '\n' || ch == '\r',
        None => true,
    }
}

/// One of the flow indicators `,` `[` `]` `{` `}`.
pub open spec fn spec_flow_indicator(c: char) -> bool {
    c == ',' || c == '[' || c == ']' || c == '{' || c == '}'
}

/// Whether `c` is a flow indicator.
pub fn is_flow_indicator(c: char) -> (r: bool)
    ensures
        r == spec_flow_indicator(c),
{
    c == ',' || c == '[' || c == ']' || c == '{' || c == '}'
}

/// Whether the optional character is a flow indicator.
pub fn is_flow_indicator_opt(c: Option<char>) -> (r: bool)
    ensures
        r == (c matches Some(ch) && spec_flow_indicator(ch)),
{
    match c {
        Some(ch) => is_flow_indicator(ch),
        None => false,
    }
}

/// ASCII whitespace: space, tab, line feed, form feed, carriage return.
pub open spec fn spec_ascii_ws(c: char) -> bool {
    c == ' ' || c == '\t' || c == '\n' || c == '\x0C' || c == '\r'
}

/// Whether `c` is ASCII whitespace.
pub fn is_ascii_ws(c: char) -> (r: bool)
    ensures
        r == spec_ascii_ws(c),
{
    c == ' ' || c == '\t' || c == '\n' || c == '\x0C' || c == '\r'
}

/// The Unicode `White_Space` property.
pub open spec fn spec_unicode_ws(c: char) -> bool {
    let v = c as u32;
    (0x09 <= v <= 0x0D) || v == 0x20 || v == 0x85 || v == 0xA0 || v == 0x1680 || (0x2000 <= v
        <= 0x200A) || v == 0x2028 || v == 0x2029 || v == 0x202F || v == 0x205F || v == 0x3000
}

/// Whether `c` has the Unicode `White_Space` property.
pub fn is_unicode_ws(c: char) -> (r: bool)
    ensures
        r == spec_unicode_ws(c),
{
    let v = c as u32;
    (0x09 <= v && v <= 0x0D) || v == 0x20 || v == 0x85 || v == 0xA0 || v == 0x1680 || (0x2000
        <= v && v <= 0x200A) || v == 0x2028 || v == 0x2029 || v == 0x202F || v == 0x205F || v
        == 0x3000
}

/// An ASCII decimal digit.
pub open spec fn spec_ascii_digit(c: char) -> bool {
    '0' <= c <= '9'
}

/// Whether `c` is an ASCII decimal digit.
pub fn is_ascii_digit(c: char) -> (r: bool)
    ensures
        r == spec_ascii_digit(c),
{
    '0' <= c && c <= '9'
}

/// The value of a hexadecimal digit character.
pub open spec fn spec_hex_value(c: char) -> Option<u32> {
    if '0' <= c <= '9' {
        Some((c as u32 - '0' as u32) as u32)
    } else if 'a' <= c <= 'f' {
        Some((c as u32 - 'a' as u32 + 10) as u32)
    } else if 'A' <= c <= 'F' {
        Some((c as u32 - 'A' as u32 + 10) as u32)
    } else {
        None
    }
}

/// The value of a hexadecimal digit character, if it is one.
pub fn hex_value(c: char) -> (r: Option<u32>)
    ensures
        r == spec_hex_value(c),
        r matches Some(v) ==> v < 16,
{
    let v = c as u32;
    if '0' <= c && c <= '9' {
        Some(v - 48)
    } else if 'a' <= c && c <= 'f' {
        Some(v - 97 + 10)
    } else if 'A' <= c && c <= 'F' {
        Some(v - 65 + 10)
    } else {
        None
    }
}

/// The value of a hexadecimal digit byte.
pub open spec fn spec_hex_digit(b: u8) -> Option<u8> {
    if 48 <= b <= 57 {
        Some((b - 48) as u8)
    } else if 97 <= b <= 102 {
        Some((b - 97 + 10) as u8)
    } else if 65 <= b <= 70 {
        Some((b - 65 + 10) as u8)
    } else {
        None
    }
}

/// The value of a hexadecimal digit byte, if it is one.
pub fn hex_digit(b: u8) -> (r: Option<u8>)
    ensures
        r == spec_hex_digit(b),
        r matches Some(v) ==> v < 16,
{
    if 48 <= b && b <= 57 {
        Some(b - 48)
    } else if 97 <= b && b <= 102 {
        Some(b - 97 + 10)
    } else if 65 <= b && b <= 70 {
        Some(b - 65 + 10)
    } else {
        None
    }
}

/// Percent-decoding of a byte string: each `%XY` with two hex digits
/// becomes the byte `XY`; everything else is kept.
pub open spec fn pct_decode(b: Seq<u8>) -> Seq<u8>
    decreases b.len(),
{
    if b.len() == 0 {
        seq![]
    } else if b[0] == 37 && 2 < b.len() && spec_hex_digit(b[1]) is Some && spec_hex_digit(
        b[2],
    ) is Some {
        seq![(spec_hex_digit(b[1])->0 * 16 + spec_hex_digit(b[2])->0) as u8] + pct_decode(
            b.skip(3),
        )
    } else {
        seq![b[0]] + pct_decode(b.skip(1))
    }
}

/// `String::from_utf8`: the decoded text exactly when the bytes are valid
/// UTF-8, otherwise the rendering of std's `Utf8Error` (whose wording is
/// std's and not stated here).
#[verifier::external_body]
pub(crate) fn string_from_utf8(bytes: Vec<u8>) -> (r: Result<String, String>)
    ensures
        r is Ok <==> valid_utf8(bytes@),
        r matches Ok(s) ==> s@ == decode_utf8(bytes@),
{
    match String::from_utf8(bytes) {
        Ok(s) => Ok(s),
        Err(e) => Err(format!("{}", e.utf8_error())),
    }
}

/// The decoded form of a tag: its percent-decoded bytes when they are valid
/// UTF-8, otherwise the tag unchanged.
pub open spec fn spec_decode_tag_uri(input: Seq<char>) -> Seq<char> {
    let d = pct_decode(encode_utf8(input));
    if valid_utf8(d) {
        decode_utf8(d)
    } else {
        input
    }
}

/// Decode URI percent-encoding in a tag string (`%XX` to the byte `XX`);
/// if the result is not valid UTF-8 the input is returned unchanged.
pub fn decode_tag_uri(input: &str) -> (r: String)
    ensures
        r@ == spec_decode_tag_uri(input@),
{
    let bytes = input.as_bytes();
    let mut decoded: Vec<u8> = Vec::new();
    let mut i: usize = 0;
    assert(bytes@.skip(0) =~= bytes@);
    assert(decoded@ =~= Seq::<u8>::empty());
    while i < bytes.len()
        invariant
            i <= bytes@.len(),
            decoded@ + pct_decode(bytes@.skip(i as int)) == pct_decode(bytes@),
        decreases bytes@.len() - i,
    {
        let ghost rest = bytes@.skip(i as int);
        if bytes[i] == 37 && bytes.len() - i > 2 {
            let hi = hex_digit(bytes[i + 1]);
            let lo = hex_digit(bytes[i + 2]);
            if let (Some(h), Some(l)) = (hi, lo) {
                decoded.push(h * 16 + l);
                proof {
                    assert(rest[0] == 37 && rest[1] == bytes@[i + 1] && rest[2] == bytes@[i + 2]);
                    assert(rest.skip(3) =~= bytes@.skip(i + 3));
                }
                i = i + 3;
                continue;
            }
        }
        decoded.push(bytes[i]);
        proof {
            assert(rest[0] == bytes@[i as int]);
            assert(rest.skip(1) =~= bytes@.skip(i + 1));
        }
        i = i + 1;
    }
    proof {
        assert(bytes@.skip(i as int) =~= Seq::<u8>::empty());
        assert(decoded@ =~= pct_decode(bytes@));
    }
    match string_from_utf8(decoded) {
        Ok(s) => s,
        Err(_) => crate::text::str_to_string(input),
    }
}

/// The character a simple (single-letter) double-quoted escape stands for.
pub open spec fn spec_simple_escape(c: char) -> Option<char> {
    if c == '\\' {
        Some('\\')
    } else if c == '"' {
        Some('"')
    } else if c == 'n' {
        Some('\n')
    } else if c == 't' {
        Some('\t')
    } else if c == 'r' {
        Some('\r')
    } else if c == '0' {
        Some('\0')
    } else if c == 'a' {
        Some('\x07')
    } else if c == 'b' {
        Some('\x08')
    } else if c == 'e' {
        Some('\x1B')
    } else if c == 'f' {
        Some('\x0C')
    } else if c == 'v' {
        Some('\x0B')
    } else if c == '/' {
        Some('/')
    } else if c == ' ' {
        Some(' ')
    } else if c == '_' {
        Some('\u{A0}')
    } else if c == 'N' {
        Some('\u{85}')
    } else if c == 'L' {
        Some('\u{2028}')
    } else if c == 'P' {
        Some('\u{2029}')
    } else {
        None
    }
}

/// The character a simple double-quoted escape `\c` stands for.
pub fn simple_escape(c: char) -> (r: Option<char>)
    ensures
        r == spec_simple_escape(c),
{
    if c == '\\' {
        Some('\\')
    } else if c == '"' {
        Some('"')
    } else if c == 'n' {
        Some('\n')
    } else if c == 't' {
        Some('\t')
    } else if c == 'r' {
        Some('\r')
    } else if c == '0' {
        Some('\0')
    } else if c == 'a' {
        Some('\x07')
    } else if c == 'b' {
        Some('\x08')
    } else if c == 'e' {
        Some('\x1B')
    } else if c == 'f' {
        Some('\x0C')
    } else if c == 'v' {
        Some('\x0B')
    } else if c == '/' {
        Some('/')
    } else if c == ' ' {
        Some(' ')
    } else if c == '_' {
        Some('\u{A0}')
    } else if c == 'N' {
        Some('\u{85}')
    } else if c == 'L' {
        Some('\u{2028}')
    } else if c == 'P' {
        Some('\u{2029}')
    } else {
        None
    }
}

/// `char::from_u32`: the character with the given scalar value, if any.
#[verifier::external_body]
pub(crate) fn char_from_u32(v: u32) -> (r: Option<char>)
    ensures
        r is Some <==> is_scalar(v),
        r matches Some(c) ==> c as u32 == v,
{
    char::from_u32(v)
}

/// Position just past the last character of `v[from..to]` that is not
/// Unicode whitespace (`from` when all of it is whitespace).
pub fn trim_end_index(v: &Vec<char>, from: usize, to: usize) -> (r: usize)
    requires
        from <= to <= v@.len(),
    ensures
        from <= r <= to,
        forall|k: int| r <= k < to ==> spec_unicode_ws(v@[k]),
        r > from ==> !spec_unicode_ws(v@[r - 1]),
{
    let mut e = to;
    while e > from && is_unicode_ws(v[e - 1])
        invariant
            from <= e <= to <= v@.len(),
            forall|k: int| e <= k < to ==> spec_unicode_ws(v@[k]),
        decreases e,
    {
        e = e - 1;
    }
    e
}

/// Lines of `s` as separated by `\n` (like `str::split('\n')`: there is
/// always at least one, possibly empty, line).
pub open spec fn split_nl(s: Seq<char>) -> Seq<Seq<char>>
    decreases s.len(),
{
    if s.len() == 0 {
        seq![Seq::<char>::empty()]
    } else {
        let rest = split_nl(s.drop_last());
        if s.last() == '\n' {
            rest.push(Seq::<char>::empty())
        } else {
            rest.update(rest.len() - 1, rest.last().push(s.last()))
        }
    }
}

/// A more-indented line: one that starts with a space or tab.
pub open spec fn more_indented(l: Seq<char>) -> bool {
    l.len() > 0 && (l[0] == ' ' || l[0] == '\t')
}

/// Whether the first non-empty line among `lines[from..to]` is more-indented.
pub open spec fn next_nonempty_is_mi(lines: Seq<Seq<char>>, from: int, to: int) -> bool
    decreases to - from,
{
    if from >= to {
        false
    } else if lines[from].len() > 0 {
        more_indented(lines[from])
    } else {
        next_nonempty_is_mi(lines, from + 1, to)
    }
}

/// The separator put before line `i > 0` when folding: a break is kept
/// after an empty or more-indented line, or before a more-indented one;
/// a break before an empty line is dropped unless the next non-empty line
/// is more-indented; two content lines are joined by a space.
pub open spec fn fold_sep(lines: Seq<Seq<char>>, i: int, count: int) -> Seq<char> {
    let prev = lines[i - 1];
    let line = lines[i];
    if prev.len() == 0 || more_indented(prev) {
        seq!['\n']
    } else if line.len() == 0 {
        if next_nonempty_is_mi(lines, i + 1, count) {
            seq!['\n']
        } else {
            seq![]
        }
    } else if more_indented(line) {
        seq!['\n']
    } else {
        seq![' ']
    }
}

/// The first `n` lines folded together.
pub open spec fn fold_prefix(lines: Seq<Seq<char>>, n: int, count: int) -> Seq<char>
    decreases n,
{
    if n <= 0 {
        seq![]
    } else if n == 1 {
        lines[0]
    } else {
        fold_prefix(lines, n - 1, count) + fold_sep(lines, n - 1, count) + lines[n - 1]
    }
}

/// Number of lines that take part in folding: a final empty piece after a
/// trailing `\n` does not.
pub open spec fn fold_line_count(content: Seq<char>) -> int {
    let lines = split_nl(content);
    if lines.last().len() == 0 {
        lines.len() - 1
    } else {
        lines.len() as int
    }
}

/// Folded block scalar content: the lines folded, plus the final break
/// when the content ends with one.
pub open spec fn spec_fold_block_scalar(content: Seq<char>) -> Seq<char> {
    let lines = split_nl(content);
    let count = fold_line_count(content);
    let body = fold_prefix(lines, count, count);
    if content.len() > 0 && content.last() == '\n' {
        body.push('\n')
    } else {
        body
    }
}

proof fn lemma_split_nl_nonempty(s: Seq<char>)
    ensures
        split_nl(s).len() >= 1,
    decreases s.len(),
{
    if s.len() > 0 {
        lemma_split_nl_nonempty(s.drop_last());
    }
}

/// Splits `content` into its `\n`-separated lines.
pub(crate) fn split_lines(content: &Vec<char>) -> (r: Vec<Vec<char>>)
    ensures
        r.deep_view() == split_nl(content@),
{
    let mut lines: Vec<Vec<char>> = Vec::new();
    let first: Vec<char> = Vec::new();
    lines.push(first);
    let mut i: usize = 0;
    proof {
        assert(content@.take(0) =~= Seq::<char>::empty());
        assert(lines.deep_view()[0] == lines@[0]@);
        assert(lines.deep_view() =~= split_nl(content@.take(0)));
    }
    while i < content.len()
        invariant
            i <= content@.len(),
            lines.deep_view() == split_nl(content@.take(i as int)),
            lines@.len() >= 1,
        decreases content@.len() - i,
    {
        let c = content[i];
        proof {
            assert(content@.take(i + 1).drop_last() =~= content@.take(i as int));
            assert(content@.take(i + 1).last() == c);
            lemma_split_nl_nonempty(content@.take(i as int));
        }
        let ghost old_lines = lines@;
        let ghost old_dv = lines.deep_view();
        if c == '\n' {
            let fresh: Vec<char> = Vec::new();
            lines.push(fresh);
            proof {
                assert forall|j: int| 0 <= j < lines@.len() implies #[trigger] lines.deep_view()[j]
                    == old_dv.push(Seq::<char>::empty())[j] by {
                    if j < old_lines.len() {
                        assert(lines@[j] == old_lines[j]);
                    }
                }
                assert(lines.deep_view() =~= split_nl(content@.take(i + 1)));
            }
        } else {
            let mut l = lines.pop().unwrap();
            l.push(c);
            lines.push(l);
            proof {
                let n = old_lines.len() - 1;
                assert forall|j: int| 0 <= j < lines@.len() implies #[trigger] lines.deep_view()[j]
                    == old_dv.update(n, old_dv[n].push(c))[j] by {
                    if j < n {
                        assert(lines@[j] == old_lines[j]);
                    }
                }
                assert(lines.deep_view() =~= split_nl(content@.take(i + 1)));
            }
        }
        i = i + 1;
    }
    proof {
        assert(content@.take(i as int) =~= content@);
    }
    lines
}

fn next_is_mi(lines: &Vec<Vec<char>>, from: usize, to: usize) -> (r: bool)
    requires
        from <= to <= lines@.len(),
    ensures
        r == next_nonempty_is_mi(lines.deep_view(), from as int, to as int),
    decreases to - from,
{
    if from >= to {
        false
    } else if lines[from].len() > 0 {
        let l = &lines[from];
        l[0] == ' ' || l[0] == '\t'
    } else {
        next_is_mi(lines, from + 1, to)
    }
}

fn extend(out: &mut Vec<char>, l: &Vec<char>)
    ensures
        final(out)@ == old(out)@ + l@,
{
    let mut i: usize = 0;
    let ghost start = out@;
    while i < l.len()
        invariant
            i <= l@.len(),
            out@ == start + l@.take(i as int),
        decreases l@.len() - i,
    {
        out.push(l[i]);
        i = i + 1;
        assert(out@ =~= start + l@.take(i as int));
    }
    assert(l@.take(i as int) =~= l@);
}

/// Fold a block scalar per YAML line folding (see `spec_fold_block_scalar`).
pub fn fold_block_scalar(content: &Vec<char>) -> (r: Vec<char>)
    ensures
        r@ == spec_fold_block_scalar(content@),
{
    let lines = split_lines(content);
    proof {
        lemma_split_nl_nonempty(content@);
    }
    let ghost dv = lines.deep_view();
    let line_count = if lines[lines.len() - 1].len() == 0 {
        lines.len() - 1
    } else {
        lines.len()
    };
    let mut result: Vec<char> = Vec::new();
    let mut i: usize = 0;
    while i < line_count
        invariant
            line_count <= lines@.len(),
            dv == lines.deep_view(),
            dv == split_nl(content@),
            line_count == fold_line_count(content@),
            i <= line_count,
            result@ == fold_prefix(dv, i as int, line_count as int),
        decreases line_count - i,
    {
        if i > 0 {
            let prev = &lines[i - 1];
            let line = &lines[i];
            if prev.len() == 0 || prev[0] == ' ' || prev[0] == '\t' {
                result.push('\n');
            } else if line.len() == 0 {
                if next_is_mi(&lines, i + 1, line_count) {
                    result.push('\n');
                }
            } else if line[0] == ' ' || line[0] == '\t' {
                result.push('\n');
            } else {
                result.push(' ');
            }
            proof {
                assert(dv[i - 1] == prev@);
                assert(dv[i as int] == line@);
                assert(result@ =~= fold_prefix(dv, i as int, line_count as int) + fold_sep(
                    dv,
                    i as int,
                    line_count as int,
                ));
            }
        }
        extend(&mut result, &lines[i]);
        proof {
            assert(dv[i as int] == lines@[i as int]@);
            if i == 0 {
                assert(result@ =~= fold_prefix(dv, 1, line_count as int));
            } else {
                assert(result@ =~= fold_prefix(dv, i + 1, line_count as int));
            }
        }
        i = i + 1;
    }
    if content.len() > 0 && content[content.len() - 1] == '\n' {
        result.push('\n');
    }
    result
}

/// Length of `v` without its trailing `\n` characters.
pub open spec fn trimmed_newlines_len(v: Seq<char>) -> int
    decreases v.len(),
{
    if v.len() > 0 && v.last() == '\n' {
        trimmed_newlines_len(v.drop_last())
    } else {
        v.len() as int
    }
}

/// Removes trailing `\n` characters.
pub fn trim_trailing_newlines(v: &mut Vec<char>)
    ensures
        final(v)@ == old(v)@.take(trimmed_newlines_len(old(v)@)),
{
    let ghost orig = v@;
    while v.len() > 0 && v[v.len() - 1] == '\n'
        invariant
            v@ == orig.take(v@.len() as int),
            v@.len() <= orig.len(),
            trimmed_newlines_len(v@) == trimmed_newlines_len(orig),
        decreases v@.len(),
    {
        let ghost before = v@;
        v.pop();
        proof {
            assert(before.drop_last() =~= v@);
            assert(v@ =~= orig.take(v@.len() as int));
        }
    }
    proof {
        assert(orig.take(orig.len() as int) =~= orig);
    }
}

} // verus!
