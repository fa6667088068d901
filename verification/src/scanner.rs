//! YAML scanner state machine: decoded text in, tokens out.
//!
//! The scanner yields `Result<Token, ScanError>` values through [`Scanner::next`].
//! It handles stream and document markers, directives, flow and block
//! indicators (with indentation-driven `BlockSequenceStart`,
//! `BlockMappingStart` and `BlockEnd`), simple-key resolution, and plain,
//! quoted and block scalars, tags, anchors and aliases.
use vstd::prelude::*;
use vstd::utf8::is_scalar;

use crate::diagnostic::{Mark, Span};
use crate::loader::{limit_outcome, limits_are, LoaderConfig, ResourceLimits};
use crate::reader::{advance_step, max_input_chars, Reader};
use crate::scan_text::{
    fold_block_scalar, trim_trailing_newlines, spec_ascii_digit, spec_fold_block_scalar, trimmed_newlines_len,
    char_from_u32, decode_tag_uri, hex_value, is_ascii_digit, is_ascii_ws, is_blank, is_blank_or_end, is_break_opt, is_break_or_end, is_flow_indicator,
    is_flow_indicator_opt, is_linebreak, simple_escape, spec_blank, spec_blank_or_end, spec_break, trim_end_index, spec_ascii_ws, spec_flow_indicator, spec_hex_value, spec_simple_escape, spec_unicode_ws,
};
use crate::text::{concat2, concat_char, push_str, str_to_string, string_len, utf8_len, vec_to_string};
use crate::token::{Atom, AtomFlags, Chomp, ScalarStyle, Token, TokenKind};

verus! {

/// Families of scanner errors, for matching without reading messages.
#[derive(Debug, Clone, Copy, PartialEq, Eq, Hash, Structural)]
pub enum ScanErrorKind {
    /// A tab used where indentation is required.
    InvalidTab,
    /// Content indented at the wrong level.
    InvalidIndentation,
    /// Content where none may appear (after a root node, after a flow
    /// collection, on a document start line, ...).
    UnexpectedContent,
    /// A malformed, duplicated or misplaced directive.
    InvalidDirective,
    /// A malformed tag or one with an undeclared handle.
    InvalidTag,
    /// A character that cannot start any token here.
    UnexpectedCharacter,
    /// A simple key that spans lines.
    InvalidSimpleKey,
    /// A block scalar header with extra characters.
    InvalidBlockScalarHeader,
    /// A quoted scalar without its closing quote.
    UnterminatedScalar,
    /// An unknown escape sequence in a double-quoted scalar.
    InvalidEscape,
    /// A document marker inside a quoted scalar.
    DocumentMarkerInScalar,
    /// A resource limit was exceeded.
    LimitExceeded,
}

/// Error type for scanner failures.
#[derive(Debug, Clone, PartialEq, Eq)]
pub struct ScanError {
    /// The family of this error.
    pub kind: ScanErrorKind,
    /// Human-readable error message.
    pub message: String,
}

impl ScanError {
    /// Renders the error for humans: `scan error: <message>`.
    pub fn display(&self) -> (r: String)
        ensures
            r@ == seq!['s', 'c', 'a', 'n', ' ', 'e', 'r', 'r', 'o', 'r', ':', ' '] + self.message@,
    {
        let r = concat2("scan error: ", self.message.as_str());
        proof {
            reveal_strlit("scan error: ");
            assert("scan error: "@ =~= seq![
                's',
                'c',
                'a',
                'n',
                ' ',
                'e',
                'r',
                'r',
                'o',
                'r',
                ':',
                ' ',
            ]);
        }
        r
    }
}

fn scan_error(kind: ScanErrorKind, message: &str) -> (e: ScanError)
    ensures
        e.kind == kind,
        e.message@ == message@,
{
    ScanError { kind, message: str_to_string(message) }
}

/// Scanner state machine phases.
#[derive(Debug, Clone, Copy, PartialEq, Eq, Structural)]
pub enum ScanState {
    /// Initial state — will emit `StreamStart`.
    Start,
    /// Inside the stream — fetching tokens.
    Stream,
    /// Past `StreamEnd` (or a fatal error) — no more tokens are produced.
    Done,
}

/// A potential simple key: where a token that may turn out to be a mapping
/// key started, so `Key` (and `BlockMappingStart`) can be inserted before it
/// when `:` follows.
#[derive(Debug, Clone, Copy)]
struct SimpleKey {
    mark: Mark,
    end_line: u32,
    token_id: u64,
    flow_level: u32,
    required: bool,
    json_key: bool,
}

/// A span that runs forward and stays within `n` bytes.
pub open spec fn span_ok(s: Span, n: nat) -> bool {
    s.start.offset <= s.end.offset <= n
}

/// A character of a tag name: neither ASCII whitespace nor a flow indicator.
pub open spec fn name_char(c: char) -> bool {
    !spec_ascii_ws(c) && !spec_flow_indicator(c)
}

/// The first index at or after `j` that does not hold a space or tab.
pub open spec fn blank_end(s: Seq<char>, j: int) -> int
    decreases s.len() - j,
{
    if j < 0 || j >= s.len() || !(s[j] == ' ' || s[j] == '\t') {
        j
    } else {
        blank_end(s, j + 1)
    }
}

/// The first index at or after `j` that does not hold a tag-name character.
pub open spec fn name_end(s: Seq<char>, j: int) -> int
    decreases s.len() - j,
{
    if j < 0 || j >= s.len() || !name_char(s[j]) {
        j
    } else {
        name_end(s, j + 1)
    }
}

/// The index just past the first `>` at or after `j`, or the end.
pub open spec fn verbatim_end(s: Seq<char>, j: int) -> int
    decreases s.len() - j,
{
    if j < 0 || j >= s.len() {
        j
    } else if s[j] == '>' {
        j + 1
    } else {
        verbatim_end(s, j + 1)
    }
}

/// The index just past the first line break (`\r\n` counting as one) at or
/// after `j`, or the end.
pub open spec fn line_end(s: Seq<char>, j: int) -> int
    decreases s.len() - j,
{
    if j < 0 || j >= s.len() {
        j
    } else if s[j] == '\n' {
        j + 1
    } else if s[j] == '\r' {
        if j + 1 < s.len() && s[j + 1] == '\n' {
            j + 2
        } else {
            j + 1
        }
    } else {
        line_end(s, j + 1)
    }
}

/// The first index in `j..end` that holds `!`, or `end`.
pub open spec fn bang_from(s: Seq<char>, j: int, end: int) -> int
    decreases end - j,
{
    if j >= end {
        end
    } else if s[j] == '!' {
        j
    } else {
        bang_from(s, j + 1, end)
    }
}

/// The named handle (`!name!`) that starts the tag at `s[start..end]`, when
/// the tag has one and no `%TAG` directive in `handles` declared it.
pub open spec fn undeclared_handle_spec(s: Seq<char>, start: int, end: int, handles: Seq<Vec<char>>) -> Option<
    Seq<char>,
> {
    if end - start <= 1 || s[start + 1] == '<' {
        None
    } else {
        let j = bang_from(s, start + 1, end);
        if j >= end || j == start + 1 {
            None
        } else {
            let h = s.subrange(start, j + 1);
            if exists|i: int| 0 <= i < handles.len() && #[trigger] handles[i]@ == h {
                None
            } else {
                Some(h)
            }
        }
    }
}

/// Whether the text from index `p` (at column `col` of its line) goes on
/// with a content line indented at least `min_indent`: blank and empty
/// lines are skipped; a document marker at column 0, a flow indicator in
/// flow context, or the end of the input end the scalar.
pub open spec fn continues_at(s: Seq<char>, p: int, col: int, min_indent: int, in_flow: bool) -> bool
    decreases s.len() - p,
{
    if p < 0 || p >= s.len() {
        false
    } else {
        let c = s[p];
        if c == ' ' || c == '\t' {
            continues_at(s, p + 1, col + 1, min_indent, in_flow)
        } else if c == '\n' || c == '\r' {
            continues_at(s, p + 1, 0, min_indent, in_flow)
        } else if col == 0 && (c == '-' || c == '.') && p + 2 < s.len() && s[p + 1] == c && s[p + 2] == c {
            false
        } else if in_flow && spec_flow_indicator(c) {
            false
        } else {
            col >= min_indent
        }
    }
}

/// Lookahead over the leading empty lines of a block scalar from index `q`:
/// `sp` spaces counted on the current line so far and `widest` the most
/// spaces on an empty line so far; the result is the spaces before the
/// first content character (or the end) and the widest empty line.
pub open spec fn indent_scan(s: Seq<char>, q: int, sp: nat, widest: nat) -> (nat, nat)
    decreases s.len() - q,
{
    if q < 0 || q >= s.len() {
        (sp, widest)
    } else if s[q] == ' ' {
        indent_scan(s, q + 1, sp + 1, widest)
    } else if s[q] == '\n' || s[q] == '\r' {
        let w = if sp > widest {
            sp
        } else {
            widest
        };
        let q2 = if s[q] == '\r' && q + 1 < s.len() && s[q + 1] == '\n' {
            q + 2
        } else {
            q + 1
        };
        indent_scan(s, q2, 0, w)
    } else {
        (sp, widest)
    }
}

/// After blanks, the line ends at index `p` of `s`: at the end of the input,
/// a line break, or a comment that follows at least one blank.
pub open spec fn tail_ok_at(s: Seq<char>, p: int) -> bool {
    let e = blank_end(s, p);
    e >= s.len() || s[e] == '\n' || s[e] == '\r' || (s[e] == '#' && e > p)
}

/// After blanks, the line ends at the reader.
pub open spec fn line_tail_ok(r: Reader) -> bool {
    tail_ok_at(r.input(), r.spec_pos() as int)
}

/// The index reached from `p` by reading `n` characters (a `\r\n` counting
/// as one), stopping at the end.
pub open spec fn adv_n(s: Seq<char>, p: int, n: nat) -> int
    decreases n,
{
    if n == 0 || p < 0 || p >= s.len() {
        p
    } else {
        adv_n(s, advance_step(s, p as nat, 0, 0).0 as int, (n - 1) as nat)
    }
}

/// The first index at or after `j` that holds neither an ASCII digit nor
/// a dot.
pub open spec fn version_end(s: Seq<char>, j: int) -> int
    decreases s.len() - j,
{
    if j < 0 || j >= s.len() || !(('0' <= s[j] && s[j] <= '9') || s[j] == '.') {
        j
    } else {
        version_end(s, j + 1)
    }
}

/// Whether a plain scalar line can start at the reader: its first character
/// is not whitespace, a line break, a comment, a `:` that ends a key, a flow
/// indicator in flow context, or (on the first line) an indicator `-`, `?`
/// or `:` followed by a blank.
pub open spec fn plain_line_starts(r: Reader, in_flow: bool, first_line: bool) -> bool {
    r.spec_peek_at(0) matches Some(c) && {
        let ends = spec_blank_or_end(r.spec_peek_at(1)) || (in_flow && (r.spec_peek_at(1) matches Some(d)
            && spec_flow_indicator(d)));
        &&& c != '#'
        &&& c != '\n'
        &&& c != '\r'
        &&& !spec_unicode_ws(c)
        &&& !(c == ':' && ends)
        &&& !(in_flow && spec_flow_indicator(c))
        &&& !(first_line && (c == '-' || c == '?' || c == ':') && ends)
    }
}

/// Where the handle of a `%TAG` directive starts, the reader being at `TAG`.
pub open spec fn tag_directive_start(s: Seq<char>, p: int) -> int {
    blank_end(s, adv_n(s, p, 3))
}

/// Where the version of a `%YAML` directive starts, the reader being at
/// `YAML`.
pub open spec fn version_start(s: Seq<char>, p: int) -> int {
    blank_end(s, adv_n(s, p, 4))
}

/// The version text of a `%YAML` directive, the reader being at `YAML`.
pub open spec fn version_text(s: Seq<char>, p: int) -> Seq<char> {
    s.subrange(version_start(s, p), version_end(s, version_start(s, p)))
}

/// Whether the `%YAML` directive at `p` has a supported version and nothing
/// but blanks or a comment after it.
pub open spec fn version_ok(s: Seq<char>, p: int) -> bool {
    let q = version_start(s, p);
    let e = version_end(s, q);
    e > q && spec_valid_version(s.subrange(q, e)) && tail_ok_at(s, e)
}

/// Where one step of the reader from `p` lands: past one character, or
/// past a `\r\n` pair.
pub open spec fn next_pos(s: Seq<char>, p: int) -> int {
    advance_step(s, p as nat, 0, 0).0 as int
}

/// A space or a tab.
pub open spec fn blank_char(c: char) -> bool {
    c == ' ' || c == '\t'
}

/// A line feed or a carriage return.
pub open spec fn break_char(c: char) -> bool {
    c == '\n' || c == '\r'
}

/// From `p`, just past a line break inside a quoted scalar, skip blanks and
/// further line breaks: where the next content starts, and the number of
/// empty lines crossed (added to `k`).
pub open spec fn fold_scan(s: Seq<char>, p: int, k: nat) -> (int, nat)
    decreases s.len() - p,
{
    if 0 <= p < s.len() && blank_char(s[p]) {
        fold_scan(s, p + 1, k)
    } else if 0 <= p < s.len() && break_char(s[p]) {
        fold_scan(s, next_pos(s, p), k + 1)
    } else {
        (p, k)
    }
}

/// The scan never moves back, nor past the end.
pub proof fn lemma_fold_scan_ge(s: Seq<char>, p: int, k: nat)
    ensures
        fold_scan(s, p, k).0 >= p,
        p <= s.len() ==> fold_scan(s, p, k).0 <= s.len(),
    decreases s.len() - p,
{
    if 0 <= p < s.len() && blank_char(s[p]) {
        lemma_fold_scan_ge(s, p + 1, k);
    } else if 0 <= p < s.len() && break_char(s[p]) {
        lemma_fold_scan_ge(s, next_pos(s, p), k + 1);
    }
}

/// `acc` without its trailing blanks, keeping the first `fence` characters.
pub open spec fn trim_blanks(acc: Seq<char>, fence: int) -> Seq<char>
    decreases acc.len(),
{
    if acc.len() > fence && acc.len() > 0 && blank_char(acc.last()) {
        trim_blanks(acc.drop_last(), fence)
    } else {
        acc
    }
}

/// What a folded line break inside a quoted scalar becomes: one space, or
/// one line feed per empty line.
pub open spec fn quoted_fold_sep(k: nat) -> Seq<char> {
    if k > 0 {
        Seq::new(k, |i: int| '\n')
    } else {
        seq![' ']
    }
}

/// The column reached from `p`, at column `c`, after the blanks and line
/// breaks that [`fold_scan`] skips.
pub open spec fn fold_col(s: Seq<char>, p: int, c: nat) -> nat
    decreases s.len() - p,
{
    if 0 <= p < s.len() && blank_char(s[p]) {
        fold_col(s, p + 1, c + 1)
    } else if 0 <= p < s.len() && break_char(s[p]) {
        fold_col(s, next_pos(s, p), 0)
    } else {
        c
    }
}

/// The error that the line break at `p` inside a quoted scalar (closed by
/// `quote`) causes, if any: a document marker starting the next line, a tab
/// starting it (double quotes only), or, in block context, continuation
/// text below the block indentation `indent`.
pub open spec fn quoted_fold_error(s: Seq<char>, p: int, quote: char, double: bool, indent: int, flow: int) -> Option<
    ScanErrorKind,
> {
    let q0 = next_pos(s, p);
    let f = fold_scan(s, q0, 0);
    let min: int = if indent + 1 > 0 {
        indent + 1
    } else {
        0
    };
    if triple_at(s, q0, '-') || triple_at(s, q0, '.') {
        Some(ScanErrorKind::DocumentMarkerInScalar)
    } else if double && 0 <= q0 < s.len() && s[q0] == '\t' {
        Some(ScanErrorKind::InvalidTab)
    } else if flow == 0 && fold_col(s, q0, 0) < min && !(0 <= f.0 < s.len() && s[f.0] == quote) {
        Some(ScanErrorKind::InvalidIndentation)
    } else {
        None
    }
}

/// A single-quoted scalar's body from `p` (just past the opening quote),
/// with `acc` the text so far, in a context with block indentation
/// `indent` and flow depth `flow`: its text, the position just past the
/// closing quote, and the error it causes (none when it is closed and well
/// formed). `''` stands for `'`, and line breaks fold.
pub open spec fn single_quoted_scan(s: Seq<char>, p: int, acc: Seq<char>, indent: int, flow: int) -> (Seq<char>, int, Option<ScanErrorKind>)
    decreases s.len() - p,
{
    if p < 0 || p >= s.len() {
        (acc, p, Some(ScanErrorKind::UnterminatedScalar))
    } else if s[p] == '\'' {
        if p + 1 < s.len() && s[p + 1] == '\'' {
            single_quoted_scan(s, p + 2, acc.push('\''), indent, flow)
        } else {
            (acc, p + 1, None)
        }
    } else if break_char(s[p]) {
        match quoted_fold_error(s, p, '\'', false, indent, flow) {
            Some(k) => (acc, p, Some(k)),
            None => {
                let f = fold_scan(s, next_pos(s, p), 0);
                proof {
                    assert(p < next_pos(s, p) <= s.len());
                    lemma_fold_scan_ge(s, next_pos(s, p), 0);
                }
                single_quoted_scan(s, f.0, trim_blanks(acc, 0) + quoted_fold_sep(f.1), indent, flow)
            },
        }
    } else {
        single_quoted_scan(s, p + 1, acc.push(s[p]), indent, flow)
    }
}

/// The number of hexadecimal digits that `s[p..p + n]` starts with.
pub open spec fn hex_run(s: Seq<char>, p: int, n: nat) -> nat
    decreases n,
{
    if n == 0 || !(0 <= p < s.len()) || spec_hex_value(s[p]) is None {
        0
    } else {
        1 + hex_run(s, p + 1, (n - 1) as nat)
    }
}

/// A run of hexadecimal digits stays within its bound and the input.
pub proof fn lemma_hex_run_le(s: Seq<char>, p: int, n: nat)
    ensures
        hex_run(s, p, n) <= n,
        hex_run(s, p, n) > 0 ==> 0 <= p && p + hex_run(s, p, n) <= s.len(),
    decreases n,
{
    if !(n == 0 || !(0 <= p < s.len()) || spec_hex_value(s[p]) is None) {
        lemma_hex_run_le(s, p + 1, (n - 1) as nat);
    }
}

/// The position after the blanks that start at `p`.
pub open spec fn skip_blanks(s: Seq<char>, p: int) -> int
    decreases s.len() - p,
{
    if 0 <= p < s.len() && blank_char(s[p]) {
        skip_blanks(s, p + 1)
    } else {
        p
    }
}

/// Skipping blanks never moves back, nor past the end.
pub proof fn lemma_skip_blanks_ge(s: Seq<char>, p: int)
    ensures
        skip_blanks(s, p) >= p,
        p <= s.len() ==> skip_blanks(s, p) <= s.len(),
    decreases s.len() - p,
{
    if 0 <= p < s.len() && blank_char(s[p]) {
        lemma_skip_blanks_ge(s, p + 1);
    }
}

/// What a `\x`, `\u` or `\U` escape whose `n` digits start at `p` stands
/// for: the character of that code, or nothing when the digits are short
/// or the code is not a Unicode scalar value.
pub open spec fn hex_escape_text(s: Seq<char>, p: int, n: nat) -> Seq<char> {
    match hex_code(s, p, n) {
        Some(v) => if is_scalar(v as u32) {
            seq![((v as u32) as nat) as char]
        } else {
            Seq::empty()
        },
        None => Seq::empty(),
    }
}

/// A character is the character of its own code.
proof fn lemma_char_of_code(ch: char, v: nat)
    requires
        ch as u32 == v,
    ensures
        ((v as u32) as nat) as char == ch,
{
}

/// A double-quoted scalar's body from `p` (just past the opening quote),
/// with `acc` the text so far and `fence` the length of its part that
/// escapes produced (never trimmed), in a context with block indentation
/// `indent` and flow depth `flow`: its text, the position just past the
/// closing quote, and the error it causes (none when it is closed and well
/// formed). Escapes are decoded, an escaped line break joins the lines,
/// other line breaks fold, and an unknown escape is an error.
pub open spec fn double_quoted_scan(s: Seq<char>, p: int, acc: Seq<char>, fence: int, indent: int, flow: int) -> (Seq<char>, int, Option<ScanErrorKind>)
    decreases s.len() - p,
{
    if p < 0 || p >= s.len() {
        (acc, p, Some(ScanErrorKind::UnterminatedScalar))
    } else if s[p] == '"' {
        (acc, p + 1, None)
    } else if s[p] == '\\' {
        if p + 1 >= s.len() {
            (acc, p + 1, Some(ScanErrorKind::UnterminatedScalar))
        } else {
            let e = s[p + 1];
            match spec_simple_escape(e) {
                Some(c) => double_quoted_scan(s, p + 2, acc.push(c), acc.len() + 1int, indent, flow),
                None => if e == 'x' || e == 'u' || e == 'U' {
                    let n = escape_len(e);
                    let acc2 = acc + hex_escape_text(s, p + 2, n);
                    proof {
                        lemma_hex_run_le(s, p + 2, n);
                    }
                    double_quoted_scan(s, p + 2 + hex_run(s, p + 2, n), acc2, acc2.len() as int, indent, flow)
                } else if break_char(e) {
                    proof {
                        assert(p + 1 < next_pos(s, p + 1) <= s.len());
                        lemma_skip_blanks_ge(s, next_pos(s, p + 1));
                    }
                    double_quoted_scan(s, skip_blanks(s, next_pos(s, p + 1)), acc, acc.len() as int, indent, flow)
                } else {
                    (acc, p + 2, Some(ScanErrorKind::InvalidEscape))
                },
            }
        }
    } else if break_char(s[p]) {
        match quoted_fold_error(s, p, '"', true, indent, flow) {
            Some(k) => (acc, p, Some(k)),
            None => {
                let f = fold_scan(s, next_pos(s, p), 0);
                proof {
                    assert(p < next_pos(s, p) <= s.len());
                    lemma_fold_scan_ge(s, next_pos(s, p), 0);
                }
                double_quoted_scan(s, f.0, trim_blanks(acc, fence) + quoted_fold_sep(f.1), fence, indent, flow)
            },
        }
    } else {
        double_quoted_scan(s, p + 1, acc.push(s[p]), fence, indent, flow)
    }
}

/// A single-quoted scalar whose body holds no quote and no line break reads
/// as its body, and ends just past the closing quote.
pub proof fn lemma_single_quoted_verbatim(s: Seq<char>, p: int, q: int, acc: Seq<char>, indent: int, flow: int)
    requires
        0 <= p <= q < s.len(),
        s[q] == '\'',
        q + 1 >= s.len() || s[q + 1] != '\'',
        forall|k: int| p <= k < q ==> s[k] != '\'' && !break_char(#[trigger] s[k]),
    ensures
        single_quoted_scan(s, p, acc, indent, flow) == (acc + s.subrange(p, q), q + 1, None::<ScanErrorKind>),
    decreases q - p,
{
    if p < q {
        assert(s[p] != '\'' && !break_char(s[p]));
        lemma_single_quoted_verbatim(s, p + 1, q, acc.push(s[p]), indent, flow);
        assert(acc.push(s[p]) + s.subrange(p + 1, q) =~= acc + s.subrange(p, q));
    } else {
        assert(acc + s.subrange(p, q) =~= acc);
    }
}

/// A double-quoted scalar whose body holds no quote, no backslash and no
/// line break reads as its body, and ends just past the closing quote.
pub proof fn lemma_double_quoted_verbatim(s: Seq<char>, p: int, q: int, acc: Seq<char>, fence: int, indent: int, flow: int)
    requires
        0 <= p <= q < s.len(),
        s[q] == '"',
        forall|k: int| p <= k < q ==> s[k] != '"' && s[k] != '\\' && !break_char(#[trigger] s[k]),
    ensures
        double_quoted_scan(s, p, acc, fence, indent, flow) == (acc + s.subrange(p, q), q + 1, None::<ScanErrorKind>),
    decreases q - p,
{
    if p < q {
        assert(s[p] != '"' && s[p] != '\\' && !break_char(s[p]));
        lemma_double_quoted_verbatim(s, p + 1, q, acc.push(s[p]), fence, indent, flow);
        assert(acc.push(s[p]) + s.subrange(p + 1, q) =~= acc + s.subrange(p, q));
    } else {
        assert(acc + s.subrange(p, q) =~= acc);
    }
}

/// Whether `s[k]` ends a line: a `\n`, or a `\r` not followed by `\n`.
pub open spec fn ends_line(s: Seq<char>, k: int) -> bool {
    s[k] == '\n' || (s[k] == '\r' && !(k + 1 < s.len() && s[k + 1] == '\n'))
}

/// The number of line breaks in `s[a..b]` (a `\r\n` pair counts once).
pub open spec fn line_breaks(s: Seq<char>, a: int, b: int) -> nat
    decreases b - a,
{
    if b <= a {
        0
    } else {
        line_breaks(s, a, b - 1) + if ends_line(s, b - 1) {
            1nat
        } else {
            0nat
        }
    }
}

/// A range without line-break characters holds no line break.
pub proof fn lemma_line_breaks_none(s: Seq<char>, a: int, b: int)
    requires
        forall|k: int| a <= k < b ==> !break_char(#[trigger] s[k]),
    ensures
        line_breaks(s, a, b) == 0,
    decreases b - a,
{
    if b > a {
        assert(!break_char(s[b - 1]));
        lemma_line_breaks_none(s, a, b - 1);
    }
}

/// Stepping the reader over a line break adds one line break to the range.
pub proof fn lemma_line_breaks_step(s: Seq<char>, a: int, p: int)
    requires
        0 <= a <= p < s.len(),
        break_char(s[p]),
    ensures
        line_breaks(s, a, next_pos(s, p)) == line_breaks(s, a, p) + 1,
{
    if s[p] == '\r' && p + 1 < s.len() && s[p + 1] == '\n' {
        assert(next_pos(s, p) == p + 2);
        assert(!ends_line(s, p));
        assert(ends_line(s, p + 1));
        assert(line_breaks(s, a, p + 1) == line_breaks(s, a, p));
    } else {
        assert(next_pos(s, p) == p + 1);
        assert(ends_line(s, p));
    }
}

/// Stepping over a character that is no line break leaves the count.
pub proof fn lemma_line_breaks_other(s: Seq<char>, a: int, p: int)
    requires
        0 <= a <= p < s.len(),
        !break_char(s[p]),
    ensures
        line_breaks(s, a, p + 1) == line_breaks(s, a, p),
{
}

/// The text that the content segments `segs` (ranges of `s`, in order) of
/// a plain scalar fold to: the segments joined, where a gap holding one
/// line break becomes a space and a gap holding `n + 1` line breaks (`n`
/// empty lines) becomes `n` line feeds.
pub open spec fn plain_fold(s: Seq<char>, segs: Seq<(int, int)>) -> Seq<char>
    decreases segs.len(),
{
    if segs.len() == 0 {
        Seq::empty()
    } else if segs.len() == 1 {
        s.subrange(segs[0].0, segs[0].1)
    } else {
        let prev = segs[segs.len() - 2];
        let last = segs.last();
        plain_fold(s, segs.drop_last()) + quoted_fold_sep((line_breaks(s, prev.1, last.0) - 1) as nat)
            + s.subrange(last.0, last.1)
    }
}

/// `segs` are the content lines of a plain scalar that starts at `start`
/// and was read up to `end`: ranges in order, the first at `start`, none
/// holding a line break, and consecutive ones separated only by whitespace
/// that holds at least one line break. A content line ends with a character
/// that is no whitespace (trailing whitespace is dropped), and each one
/// after the first is non-empty and starts with a character that is no
/// space or tab (indentation is dropped).
pub open spec fn plain_segments(s: Seq<char>, start: int, end: int, segs: Seq<(int, int)>) -> bool {
    &&& segs.len() > 0
    &&& forall|i: int| 0 <= i < segs.len() && (#[trigger] segs[i]).0 < segs[i].1 ==> !spec_unicode_ws(s[segs[i].1 - 1])
    &&& forall|i: int| 0 < i < segs.len() ==> (#[trigger] segs[i]).0 < segs[i].1 && s[segs[i].0] != ' ' && s[segs[i].0] != '\t'
    &&& segs[0].0 == start
    &&& end <= s.len()
    &&& forall|i: int| 0 <= i < segs.len() ==> start <= (#[trigger] segs[i]).0 <= segs[i].1 <= end
    &&& forall|i: int, k: int| 0 <= i < segs.len() && (#[trigger] segs[i]).0 <= k < segs[i].1 ==> !break_char(
        #[trigger] s[k],
    )
    &&& forall|i: int| 0 < i < segs.len() ==> segs[i - 1].1 <= (#[trigger] segs[i]).0 && line_breaks(s, segs[i - 1].1, segs[i].0) >= 1
    &&& forall|i: int, k: int| 0 < i < segs.len() && segs[i - 1].1 <= k < (#[trigger] segs[i]).0 ==> spec_unicode_ws(
        #[trigger] s[k],
    )
}

/// The chomping indicator and explicit indentation of a block scalar
/// header whose indicators start at `p` (at most two of them, in either
/// order), and where they end; `chomp` and `ind` are what was read so far.
pub open spec fn block_header(s: Seq<char>, p: int, k: nat, chomp: Chomp, ind: Option<nat>) -> (Chomp, Option<nat>, int)
    decreases 2 - k,
{
    if k >= 2 || !(0 <= p < s.len()) {
        (chomp, ind, p)
    } else if s[p] == '+' {
        block_header(s, p + 1, k + 1, Chomp::Keep, ind)
    } else if s[p] == '-' {
        block_header(s, p + 1, k + 1, Chomp::Strip, ind)
    } else if spec_ascii_digit(s[p]) && s[p] != '0' {
        block_header(s, p + 1, k + 1, chomp, Some((s[p] as u32 - 48) as nat))
    } else {
        (chomp, ind, p)
    }
}

/// The number of spaces that start at `p`.
pub open spec fn space_count(s: Seq<char>, p: int) -> nat
    decreases s.len() - p,
{
    if 0 <= p < s.len() && s[p] == ' ' {
        1 + space_count(s, p + 1)
    } else {
        0
    }
}

/// A run of spaces stays within the input, and is made of spaces.
pub proof fn lemma_space_count(s: Seq<char>, p: int)
    ensures
        0 <= p ==> p + space_count(s, p) <= s.len() || space_count(s, p) == 0,
        forall|j: int| p <= j < p + space_count(s, p) ==> s[j] == ' ',
        0 <= p + space_count(s, p) < s.len() ==> s[p + space_count(s, p)] != ' ',
    decreases s.len() - p,
{
    if 0 <= p < s.len() && s[p] == ' ' {
        lemma_space_count(s, p + 1);
    }
}

/// The first line break (or the end) at or after `p`.
pub open spec fn break_at(s: Seq<char>, p: int) -> int
    decreases s.len() - p,
{
    if 0 <= p < s.len() && !break_char(s[p]) {
        break_at(s, p + 1)
    } else {
        p
    }
}

/// Finding the next line break never moves back, nor past the end.
pub proof fn lemma_break_at(s: Seq<char>, p: int)
    ensures
        break_at(s, p) >= p,
        p <= s.len() ==> break_at(s, p) <= s.len(),
        0 <= p && break_at(s, p) < s.len() ==> break_char(s[break_at(s, p)]),
    decreases s.len() - p,
{
    if 0 <= p < s.len() && !break_char(s[p]) {
        lemma_break_at(s, p + 1);
    }
}

/// Stepping over `n` spaces moves `n` characters.
pub proof fn lemma_adv_n_spaces(s: Seq<char>, p: int, n: nat)
    requires
        0 <= p,
        n <= space_count(s, p),
    ensures
        adv_n(s, p, n) == p + n,
    decreases n,
{
    if n > 0 {
        assert(s[p] == ' ');
        lemma_adv_n_spaces(s, p + 1, (n - 1) as nat);
    }
}

/// Three `c` at `p`, followed by a blank, a line break or the end.
pub open spec fn triple_at(s: Seq<char>, p: int, c: char) -> bool {
    &&& 0 <= p
    &&& p + 2 < s.len()
    &&& s[p] == c && s[p + 1] == c && s[p + 2] == c
    &&& (p + 3 >= s.len() || blank_char(s[p + 3]) || break_char(s[p + 3]))
}

/// The content lines of a block scalar from `p` (a line start) at content
/// indentation `ci`: the text gathered (each content line without its
/// indentation, followed by a line feed, earlier empty lines becoming line
/// feeds), and the number of empty lines after the last content line. The
/// scalar ends at a less indented line, at a document marker, or at the end.
pub open spec fn block_body(s: Seq<char>, p: int, ci: nat, content: Seq<char>, te: nat) -> (Seq<char>, nat)
    decreases s.len() - p,
{
    if p < 0 || p >= s.len() {
        (content, te)
    } else {
        let sp = space_count(s, p);
        let nx = p + sp;
        proof {
            lemma_space_count(s, p);
        }
        if nx < s.len() && break_char(s[nx]) && sp <= ci {
            proof {
                assert(nx < next_pos(s, nx) <= s.len());
            }
            block_body(s, next_pos(s, nx), ci, content, te + 1)
        } else if nx >= s.len() && sp <= ci {
            (content, te)
        } else if sp == 0 && (triple_at(s, p, '-') || triple_at(s, p, '.')) {
            (content, te)
        } else if sp < ci {
            (content, te)
        } else {
            let le = break_at(s, p + ci);
            let c2 = content + Seq::new(te, |i: int| '\n') + s.subrange(p + ci, le) + seq!['\n'];
            proof {
                lemma_break_at(s, p + ci);
                if le < s.len() {
                    assert(le < next_pos(s, le) <= s.len());
                }
            }
            block_body(
                s,
                if le < s.len() {
                    next_pos(s, le)
                } else {
                    le
                },
                ci,
                c2,
                0,
            )
        }
    }
}

/// A block scalar's value from its gathered lines `content` and the `te`
/// empty lines after them: folded unless literal, then chomped.
pub open spec fn block_scalar_text(content: Seq<char>, te: nat, literal: bool, chomp: Chomp) -> Seq<char> {
    let c = if literal {
        content
    } else {
        spec_fold_block_scalar(content)
    };
    let t = c.take(trimmed_newlines_len(c));
    match chomp {
        Chomp::Strip => t,
        Chomp::Clip => if t.len() > 0 {
            t.push('\n')
        } else {
            t
        },
        Chomp::Keep => c + Seq::new(te, |i: int| '\n'),
    }
}

/// The value of the `n` hexadecimal digits at `s[p..p + n]`, if they all
/// are hexadecimal digits.
pub open spec fn hex_code(s: Seq<char>, p: int, n: nat) -> Option<nat>
    decreases n,
{
    if n == 0 {
        Some(0)
    } else {
        match hex_code(s, p, (n - 1) as nat) {
            Some(v) => if 0 <= p + n - 1 < s.len() {
                match spec_hex_value(s[p + n - 1]) {
                    Some(d) => Some(v * 16 + d as nat),
                    None => None,
                }
            } else {
                None
            },
            None => None,
        }
    }
}

proof fn lemma_hex_code_none(s: Seq<char>, p: int, k: nat, m: nat)
    requires
        k <= m,
        hex_code(s, p, k) is None,
    ensures
        hex_code(s, p, m) is None,
    decreases m - k,
{
    if k < m {
        lemma_hex_code_none(s, p, k, (m - 1) as nat);
    }
}

/// The number of hexadecimal digits after an `x`, `u` or `U` escape.
pub open spec fn escape_len(e: char) -> nat {
    if e == 'x' {
        2
    } else if e == 'u' {
        4
    } else {
        8
    }
}

/// A required simple key that has gone stale while its token is an anchor
/// or a tag still in the queue: purging it is an indentation error.
spec fn key_blocked(s: Scanner, sk: SimpleKey) -> bool {
    &&& sk.required
    &&& !key_kept(s, sk)
    &&& sk.token_id >= s.tokens_consumed
    &&& sk.token_id - s.tokens_consumed < s.queue@.len()
    &&& (s.queue@[sk.token_id - s.tokens_consumed].kind == TokenKind::Anchor || s.queue@[sk.token_id
        - s.tokens_consumed].kind == TokenKind::Tag)
}

/// A required simple key whose token is an anchor or a tag still in the
/// queue: the kind of key that going stale makes an error.
spec fn property_key(s: Scanner, sk: SimpleKey) -> bool {
    &&& sk.required
    &&& sk.token_id >= s.tokens_consumed
    &&& sk.token_id - s.tokens_consumed < s.queue@.len()
    &&& (s.queue@[sk.token_id - s.tokens_consumed].kind == TokenKind::Anchor || s.queue@[sk.token_id
        - s.tokens_consumed].kind == TokenKind::Tag)
}

/// What may follow a quoted scalar ending at `e` in block context: blanks,
/// then the end, a line break, a `:`, or a comment.
pub open spec fn quoted_tail_ok(s: Seq<char>, e: int) -> bool {
    let b = blank_end(s, e);
    b >= s.len() || break_char(s[b]) || s[b] == ':' || (s[b] == '#' && b > e)
}

/// A simple key that is still possible: in block context one that ends on
/// the current line or later, in flow context one at this flow level or
/// an outer one.
spec fn key_kept(s: Scanner, sk: SimpleKey) -> bool {
    if s.flow_level == 0 {
        s.reader.spec_mark().line <= sk.end_line
    } else {
        sk.flow_level <= s.flow_level
    }
}

/// Whether a simple key saved as `sk` is refused at a `:` found at `mark`:
/// in block context, a key over several lines or (unless it is a quoted or
/// flow key) one on another line than the `:`; in flow context, a key whose
/// `:` is on a later line outside a flow mapping, or (unless quoted or flow)
/// one whose end is on another line than the `:`.
spec fn simple_key_refused(flow_level: u32, flow_is_mapping: Seq<bool>, sk: SimpleKey, mark: Mark) -> bool {
    if flow_level == 0 {
        sk.end_line > sk.mark.line || (sk.mark.line != mark.line && !sk.json_key)
    } else {
        let in_mapping = flow_is_mapping.len() > 0 && flow_is_mapping.last();
        if sk.end_line < mark.line && !in_mapping {
            true
        } else {
            sk.end_line != mark.line && !sk.json_key
        }
    }
}

/// The reader is at the start of the input or of a line, or just after a
/// space, tab or line break.
pub open spec fn ws_before(r: Reader) -> bool {
    r.spec_mark().offset == 0 || r.spec_mark().column == 0 || r.spec_pos() == 0 || ({
        let c = r.input()[r.spec_pos() - 1];
        c == ' ' || c == '\t' || c == '\n' || c == '\r'
    })
}

/// Where scanning to the next token stops: not at a blank, a line break or
/// a comment.
pub open spec fn at_token_start(r: Reader) -> bool {
    &&& !spec_blank(r.spec_peek_at(0))
    &&& !spec_break(r.spec_peek_at(0))
    &&& (r.spec_peek_at(0) == Some('#') ==> !ws_before(r))
}

/// The three characters at the reader are `c`, followed by a blank or the
/// end.
pub open spec fn at_triple_spec(r: Reader, c: char) -> bool {
    &&& r.spec_peek_at(0) == Some(c)
    &&& r.spec_peek_at(1) == Some(c)
    &&& r.spec_peek_at(2) == Some(c)
    &&& spec_blank_or_end(r.spec_peek_at(3))
}

spec fn key_ok(k: SimpleKey, next_id: u64, n: nat) -> bool {
    &&& k.token_id < next_id
    &&& k.mark.offset <= n
    &&& k.mark.column <= max_input_chars()
}

/// YAML token scanner over decoded input.
pub struct Scanner {
    reader: Reader,
    state: ScanState,
    flow_level: u32,
    indent: i32,
    indent_stack: Vec<i32>,
    queue: std::collections::VecDeque<Token>,
    simple_keys: Vec<SimpleKey>,
    simple_key_allowed: bool,
    pending_complex_key_column: i32,
    adjacent_value_offset: Option<usize>,
    next_token_id: u64,
    tokens_consumed: u64,
    error: Option<ScanError>,
    config: ResourceLimits,
    last_block_token_line: Option<u32>,
    flow_indent: i32,
    flow_is_mapping: Vec<bool>,
    in_directive_prologue: bool,
    seen_directive: bool,
    seen_yaml_directive: bool,
    document_start_line: Option<u32>,
    root_token_emitted: bool,
    tag_handles: Vec<Vec<char>>,
    tab_in_preceding_whitespace: bool,
}

/// A column-derived indentation value: `-1` or a column of the input.
pub open spec fn col_ok(v: i32) -> bool {
    -1 <= v <= max_input_chars()
}

impl Scanner {
    /// The input characters being scanned.
    pub closed spec fn input(&self) -> Seq<char> {
        self.reader.input()
    }

    /// Total byte length of the input.
    pub closed spec fn byte_len(&self) -> nat {
        self.reader.byte_len()
    }

    /// The scanner's phase.
    pub closed spec fn spec_state(&self) -> ScanState {
        self.state
    }

    /// Tokens produced but not yet handed out.
    pub closed spec fn spec_queue(&self) -> Seq<Token> {
        self.queue@
    }

    /// No token is left: the stream has ended (or failed) and the queue is drained.
    pub open spec fn finished(&self) -> bool {
        self.spec_state() is Done && self.spec_queue().len() == 0
    }

    /// A bound on the number of further results: every result that `next`
    /// hands out makes it smaller.
    pub closed spec fn remaining(&self) -> nat {
        let len = self.reader.input().len() as int;
        let phase: int = match self.state {
            ScanState::Start => 4,
            ScanState::Stream => 2,
            ScanState::Done => 0,
        };
        let pending: int = if self.error is None {
            1
        } else {
            0
        };
        (4 * len + 6 - self.tokens_consumed + (len - self.reader.spec_pos()) + phase + pending) as nat
    }

    /// A scanner that has not produced anything yet.
    pub open spec fn fresh(&self) -> bool {
        self.spec_state() is Start && self.spec_queue().len() == 0
    }

    spec fn slack_flow(&self) -> int {
        if self.state is Done || self.error is Some {
            1
        } else {
            0
        }
    }

    spec fn slack_ids(&self) -> int {
        if self.state is Done {
            5
        } else if self.error is Some {
            4
        } else {
            0
        }
    }

    /// Consistency of the scanner, with counting bounds loosened by
    /// `ef` (flow/indent nesting) and `ei` (token ids).
    spec fn inv_with(&self, ef: int, ei: int) -> bool {
        let pos = self.reader.spec_pos() as int;
        let n = self.reader.byte_len();
        &&& self.reader.wf()
        &&& self.reader.spec_pos() <= self.reader.input().len()
        &&& self.tokens_consumed + self.queue@.len() == self.next_token_id
        &&& forall|i: int|
            0 <= i < self.queue@.len() ==> span_ok(#[trigger] self.queue@[i].atom.span, n)
        &&& forall|i: int|
            0 <= i < self.queue@.len() && (#[trigger] self.queue@[i]).kind == TokenKind::StreamEnd
                ==> i == self.queue@.len() - 1 && self.state is Done
        &&& forall|k: int|
            0 <= k < self.simple_keys@.len() ==> key_ok(
                #[trigger] self.simple_keys@[k],
                self.next_token_id,
                n,
            )
        &&& self.flow_level + self.indent_stack@.len() <= pos + self.slack_flow() + ef
        &&& self.next_token_id + self.indent_stack@.len() <= 4 * pos + self.slack_ids() + ei
        &&& (self.indent_stack@.len() == 0 ==> self.indent == -1)
        &&& (self.indent_stack@.len() > 0 ==> self.indent_stack@[0] == -1)
        &&& col_ok(self.indent)
        &&& forall|j: int| 0 <= j < self.indent_stack@.len() ==> col_ok(#[trigger] self.indent_stack@[j])
        &&& col_ok(self.pending_complex_key_column)
        &&& col_ok(self.flow_indent)
        &&& (self.state is Start ==> pos == 0 && self.queue@.len() == 0)
    }

    /// No pending simple key can go stale into an error: none is a
    /// required key on an anchor or a tag still in the queue.
    spec fn keys_clear(&self) -> bool {
        forall|j: int| 0 <= j < self.simple_keys@.len() ==> !property_key(*self, #[trigger] self.simple_keys@[j])
    }

    /// Internal consistency of the scanner.
    pub closed spec fn inv(&self) -> bool {
        self.inv_with(0, 0)
    }

    /// Post-state of a fetch step: consistent, same input and phase, reader
    /// not moved back.
    spec fn step_post(&self, old: &Scanner, ef: int, ei: int) -> bool {
        &&& self.inv_with(ef, ei)
        &&& self.reader.input() == old.reader.input()
        &&& self.state == old.state
        &&& self.reader.spec_pos() >= old.reader.spec_pos()
        &&& self.reader.spec_mark().offset >= old.reader.spec_mark().offset
        &&& self.reader.byte_len() == old.reader.byte_len()
        &&& self.tokens_consumed == old.tokens_consumed
        &&& (old.error is Some ==> self.error is Some)
    }

    /// A fetch step made progress: it consumed input or recorded an error.
    spec fn progressed(&self, old: &Scanner) -> bool {
        self.reader.spec_pos() > old.reader.spec_pos() || self.error is Some
    }

    /// The counting bounds without the slack an error allows: what holds at
    /// the start of a fetch, since no token has been added since the last
    /// error-free point.
    spec fn tight(&self) -> bool {
        let pos = self.reader.spec_pos() as int;
        &&& self.flow_level + self.indent_stack@.len() <= pos
        &&& self.next_token_id + self.indent_stack@.len() <= 4 * pos
    }

    /// Post-state of a token fetch: consistent, same input, still in the
    /// stream, and progress was made.
    spec fn fetched(&self, old: &Scanner) -> bool {
        &&& self.inv()
        &&& self.reader.input() == old.reader.input()
        &&& self.reader.byte_len() == old.reader.byte_len()
        &&& self.state is Stream
        &&& self.reader.spec_pos() >= old.reader.spec_pos()
        &&& self.tokens_consumed == old.tokens_consumed
        &&& self.progressed(old)
    }

    /// Tokens handed out are bounded by the input length.
    proof fn lemma_consumed_bound(&self)
        requires
            self.inv(),
        ensures
            self.tokens_consumed <= 4 * self.reader.input().len() + 5,
            self.reader.spec_pos() <= self.reader.input().len(),
    {
    }

    /// Create a new scanner over decoded input, with no resource limits.
    pub fn new(input: &str) -> (r: Self)
        requires
            input@.len() <= max_input_chars(),
        ensures
            r.inv(),
            r.fresh(),
            r.input() == input@,
            limits_are(r.limits(), None, None, None, None, None, None, None),
    {
        let reader = Reader::new(input);
        let r = Scanner {
            reader,
            state: ScanState::Start,
            flow_level: 0,
            indent: -1,
            indent_stack: Vec::new(),
            queue: std::collections::VecDeque::new(),
            simple_keys: Vec::new(),
            simple_key_allowed: true,
            pending_complex_key_column: -1,
            error: None,
            config: ResourceLimits::none(),
            adjacent_value_offset: None,
            last_block_token_line: None,
            flow_indent: -1,
            flow_is_mapping: Vec::new(),
            in_directive_prologue: true,
            seen_directive: false,
            seen_yaml_directive: false,
            document_start_line: None,
            root_token_emitted: false,
            tag_handles: Vec::new(),
            tab_in_preceding_whitespace: false,
            next_token_id: 0,
            tokens_consumed: 0,
        };
        proof {
            r.reader.lemma_wf();
        }
        r
    }

    /// Create a new scanner that enforces the resource limits of `config`.
    pub fn with_config(input: &str, config: &LoaderConfig) -> (r: Self)
        requires
            input@.len() <= max_input_chars(),
        ensures
            r.inv(),
            r.fresh(),
            r.input() == input@,
            r.limits() == config.limits,
    {
        let mut scanner = Self::new(input);
        scanner.config = config.limits;
        scanner
    }

    /// The resource limits in force.
    pub closed spec fn limits(&self) -> ResourceLimits {
        self.config
    }
}

/// Build a token with an empty atom spanning from `start` to `end`.
fn marker_token(kind: TokenKind, start: Mark, end: Mark) -> (t: Token)
    ensures
        t.kind == kind,
        t.atom.span == (Span { start, end }),
        t.atom.data@.len() == 0,
        t.atom.style == ScalarStyle::Plain,
{
    Token {
        kind,
        atom: Atom {
            data: String::new(),
            span: Span { start, end },
            style: ScalarStyle::Plain,
            chomp: Chomp::Clip,
            flags: AtomFlags::empty(),
        },
    }
}

/// Build a token carrying `data`, spanning from `start` to `end`.
fn data_token(kind: TokenKind, data: String, start: Mark, end: Mark) -> (t: Token)
    ensures
        t.kind == kind,
        t.atom.span == (Span { start, end }),
        t.atom.data == data,
        t.atom.style == ScalarStyle::Plain,
{
    Token {
        kind,
        atom: Atom {
            data,
            span: Span { start, end },
            style: ScalarStyle::Plain,
            chomp: Chomp::Clip,
            flags: AtomFlags::empty(),
        },
    }
}

/// Build a scalar token with the given data and style.
fn scalar_token(data: String, style: ScalarStyle, start: Mark, end: Mark) -> (t: Token)
    ensures
        t.kind == TokenKind::Scalar,
        t.atom.span == (Span { start, end }),
        t.atom.data == data,
        t.atom.style == style,
{
    Token {
        kind: TokenKind::Scalar,
        atom: Atom {
            data,
            span: Span { start, end },
            style,
            chomp: Chomp::Clip,
            flags: AtomFlags::empty(),
        },
    }
}

impl Scanner {
    /// Whether the current position is at the start of the input or of a
    /// line, or just after a space, tab or line break.
    fn preceded_by_whitespace(&self) -> (r: bool)
        requires
            self.reader.wf(),
        ensures
            r == ws_before(self.reader),
    {
        let m = self.mark();
        if m.offset == 0 || m.column == 0 {
            return true;
        }
        self.reader.prev_is_break_or_blank()
    }

    /// Consume one character (or `\r\n`), keeping every other field.
    fn adv(&mut self) -> (r: Option<char>)
        requires
            old(self).reader.wf(),
            !(old(self).state is Start),
        ensures
            final(self).reader.wf(),
            final(self).reader.spec_pos() <= final(self).reader.input().len(),
            r == old(self).reader.spec_peek_at(0),
            final(self).reader.input() == old(self).reader.input(),
            final(self).reader.byte_len() == old(self).reader.byte_len(),
            final(self).reader.spec_pos() >= old(self).reader.spec_pos(),
            !old(self).reader.spec_is_eof() ==> final(self).reader.spec_pos() > old(self).reader.spec_pos(),
            final(self).reader.spec_pos() == advance_step(
                old(self).reader.input(),
                old(self).reader.spec_pos(),
                old(self).reader.spec_mark().line as nat,
                old(self).reader.spec_mark().column as nat,
            ).0,
            old(self).reader.spec_is_eof() ==> final(self).reader == old(self).reader,
            final(self).reader.spec_mark().offset >= old(self).reader.spec_mark().offset,
            *final(self) == (Scanner { reader: final(self).reader, ..*old(self) }),
            forall|ef: int, ei: int| old(self).inv_with(ef, ei) ==> final(self).inv_with(ef, ei),
            !old(self).reader.spec_is_eof() ==> final(self).reader.spec_mark().offset > old(self).reader.spec_mark().offset,
            final(self).reader.spec_mark().column == advance_step(
                old(self).reader.input(),
                old(self).reader.spec_pos(),
                old(self).reader.spec_mark().line as nat,
                old(self).reader.spec_mark().column as nat,
            ).2,
    {
        let r = self.reader.advance();
        proof {
            self.reader.lemma_wf();
            assert forall|ef: int, ei: int| old(self).inv_with(ef, ei) implies self.inv_with(ef, ei) by {
                assert forall|i: int| 0 <= i < self.queue@.len() implies span_ok(
                    #[trigger] self.queue@[i].atom.span,
                    self.reader.byte_len(),
                ) by {
                    assert(span_ok(old(self).queue@[i].atom.span, old(self).reader.byte_len()));
                }
                assert forall|k: int| 0 <= k < self.simple_keys@.len() implies key_ok(
                    #[trigger] self.simple_keys@[k],
                    self.next_token_id,
                    self.reader.byte_len(),
                ) by {
                    assert(key_ok(old(self).simple_keys@[k], old(self).next_token_id, old(self).reader.byte_len()));
                }
            }
        }
        r
    }

    /// Consume up to `n` characters, keeping every other field.
    fn adv_by(&mut self, n: usize)
        requires
            old(self).reader.wf(),
            !(old(self).state is Start),
        ensures
            final(self).reader.wf(),
            final(self).reader.input() == old(self).reader.input(),
            final(self).reader.byte_len() == old(self).reader.byte_len(),
            final(self).reader.spec_pos() >= old(self).reader.spec_pos(),
            n > 0 && !old(self).reader.spec_is_eof() ==> final(self).reader.spec_pos() > old(self).reader.spec_pos(),
            final(self).reader.spec_mark().offset >= old(self).reader.spec_mark().offset,
            *final(self) == (Scanner { reader: final(self).reader, ..*old(self) }),
            forall|ef: int, ei: int| old(self).inv_with(ef, ei) ==> final(self).inv_with(ef, ei),
            final(self).reader.spec_pos() == adv_n(old(self).reader.input(), old(self).reader.spec_pos() as int, n as nat),
    {
        let mut i: usize = 0;
        while i < n && !self.reader.is_eof()
            invariant
                !(self.state is Start),
                self.reader.wf(),
                self.reader.input() == old(self).reader.input(),
                self.reader.byte_len() == old(self).reader.byte_len(),
                self.reader.spec_pos() >= old(self).reader.spec_pos(),
                i > 0 && !old(self).reader.spec_is_eof() ==> self.reader.spec_pos() > old(self).reader.spec_pos(),
                self.reader.spec_mark().offset >= old(self).reader.spec_mark().offset,
                i == 0 ==> self.reader == old(self).reader,
                *self == (Scanner { reader: self.reader, ..*old(self) }),
                forall|ef: int, ei: int| old(self).inv_with(ef, ei) ==> self.inv_with(ef, ei),
                i <= n,
                adv_n(self.reader.input(), self.reader.spec_pos() as int, (n - i) as nat) == adv_n(
                    old(self).reader.input(),
                    old(self).reader.spec_pos() as int,
                    n as nat,
                ),
            decreases n - i,
        {
            self.adv();
            i = i + 1;
        }
    }

    fn peek(&self) -> (r: Option<char>)
        requires
            self.reader.wf(),
        ensures
            r == self.reader.spec_peek_at(0),
    {
        self.reader.peek()
    }

    fn peek_at(&self, n: usize) -> (r: Option<char>)
        requires
            self.reader.wf(),
        ensures
            r == self.reader.spec_peek_at(n as int),
    {
        self.reader.peek_at(n)
    }

    fn mark(&self) -> (r: Mark)
        requires
            self.reader.wf(),
        ensures
            r == self.reader.spec_mark(),
            r.offset <= self.reader.byte_len(),
            r.column <= max_input_chars(),
            r.line <= max_input_chars(),
    {
        proof {
            self.reader.lemma_wf();
        }
        self.reader.mark()
    }

    fn set_error(&mut self, kind: ScanErrorKind, message: &str)
        ensures
            final(self).error matches Some(e) && e.kind == kind,
            *final(self) == (Scanner { error: final(self).error, ..*old(self) }),
            forall|ef: int, ei: int| old(self).inv_with(ef, ei) ==> final(self).inv_with(ef, ei),
    {
        self.error = Some(scan_error(kind, message));
    }

    fn set_error_msg(&mut self, kind: ScanErrorKind, message: String)
        ensures
            final(self).error matches Some(e) && e.kind == kind,
            *final(self) == (Scanner { error: final(self).error, ..*old(self) }),
            forall|ef: int, ei: int| old(self).inv_with(ef, ei) ==> final(self).inv_with(ef, ei),
    {
        self.error = Some(ScanError { kind, message });
    }

    /// Emit `StreamStart` and move to the `Stream` phase.
    fn fetch_stream_start(&mut self) -> (t: Token)
        requires
            old(self).inv(),
            old(self).state is Start,
        ensures
            final(self).inv(),
            final(self).state is Stream,
            final(self).reader == old(self).reader,
            final(self).queue == old(self).queue,
            final(self).tokens_consumed == old(self).tokens_consumed,
            final(self).error == old(self).error,
            t.kind == TokenKind::StreamStart,
            t.atom.span == crate::diagnostic::span_zero(),
    {
        proof {
            self.reader.lemma_start();
        }
        let mark = self.mark();
        self.state = ScanState::Stream;
        marker_token(TokenKind::StreamStart, mark, mark)
    }

    /// Emit `StreamEnd` and move to the `Done` phase.
    fn fetch_stream_end(&mut self) -> (t: Token)
        requires
            old(self).inv_with(0, 0),
            old(self).state is Stream,
        ensures
            final(self).inv_with(0, 0),
            final(self).state is Done,
            final(self).reader == old(self).reader,
            final(self).queue == old(self).queue,
            final(self).next_token_id == old(self).next_token_id,
            final(self).indent_stack == old(self).indent_stack,
            final(self).error == old(self).error,
            t.kind == TokenKind::StreamEnd,
            span_ok(t.atom.span, old(self).reader.byte_len()),
    {
        let mark = self.mark();
        self.state = ScanState::Done;
        marker_token(TokenKind::StreamEnd, mark, mark)
    }

    /// Push a token to the queue and return its monotonic id.
    fn enqueue(&mut self, token: Token, Ghost(ef): Ghost<int>, Ghost(ei): Ghost<int>) -> (id: u64)
        requires
            old(self).inv_with(ef, ei),
            ei <= 16,
            span_ok(token.atom.span, old(self).reader.byte_len()),
            token.kind != TokenKind::StreamEnd ==> old(self).state is Stream,
            token.kind == TokenKind::StreamEnd ==> old(self).state is Done && forall|i: int|
                0 <= i < old(self).queue@.len() ==> old(self).queue@[i].kind != TokenKind::StreamEnd,
        ensures
            final(self).inv_with(ef, ei + 1),
            id == old(self).next_token_id,
            final(self).queue@ == old(self).queue@.push(token),
            final(self).next_token_id == old(self).next_token_id + 1,
            *final(self) == (Scanner { queue: final(self).queue, next_token_id: final(self).next_token_id, ..*old(self) }),
    {
        proof {
            self.reader.lemma_wf();
        }
        let id = self.next_token_id;
        self.next_token_id = self.next_token_id + 1;
        self.queue.push_back(token);
        proof {
            assert forall|k: int| 0 <= k < self.simple_keys@.len() implies key_ok(
                #[trigger] self.simple_keys@[k],
                self.next_token_id,
                self.reader.byte_len(),
            ) by {
                assert(key_ok(old(self).simple_keys@[k], old(self).next_token_id, self.reader.byte_len()));
            }
        }
        id
    }

    /// Insert a marker token at queue position `pos`.
    fn insert_marker(&mut self, pos: usize, token: Token, Ghost(ef): Ghost<int>, Ghost(ei): Ghost<int>)
        requires
            old(self).inv_with(ef, ei),
            ei <= 16,
            pos <= old(self).queue@.len(),
            span_ok(token.atom.span, old(self).reader.byte_len()),
            token.kind != TokenKind::StreamEnd,
            old(self).state is Stream,
        ensures
            final(self).inv_with(ef, ei + 1),
            final(self).queue@ == old(self).queue@.insert(pos as int, token),
            final(self).next_token_id == old(self).next_token_id + 1,
            *final(self) == (Scanner { queue: final(self).queue, next_token_id: final(self).next_token_id, ..*old(self) }),
    {
        proof {
            self.reader.lemma_wf();
        }
        self.queue.insert(pos, token);
        self.next_token_id = self.next_token_id + 1;
        proof {
            assert forall|k: int| 0 <= k < self.simple_keys@.len() implies key_ok(
                #[trigger] self.simple_keys@[k],
                self.next_token_id,
                self.reader.byte_len(),
            ) by {
                assert(key_ok(old(self).simple_keys@[k], old(self).next_token_id, self.reader.byte_len()));
            }
            assert forall|i: int| 0 <= i < self.queue@.len() implies span_ok(
                #[trigger] self.queue@[i].atom.span,
                self.reader.byte_len(),
            ) by {
                if i < pos {
                    assert(self.queue@[i] == old(self).queue@[i]);
                } else if i > pos {
                    assert(self.queue@[i] == old(self).queue@[i - 1]);
                }
            }
            assert forall|i: int|
                0 <= i < self.queue@.len() && (#[trigger] self.queue@[i]).kind
                    == TokenKind::StreamEnd implies i == self.queue@.len() - 1 && self.state is Done by {
                if i < pos {
                    assert(self.queue@[i] == old(self).queue@[i]);
                } else if i > pos {
                    assert(self.queue@[i] == old(self).queue@[i - 1]);
                }
            }
        }
    }

    /// Skip whitespace, comments, and newlines between tokens.
    ///
    /// In block context, crossing a newline re-enables simple keys.
    fn scan_to_next_token(&mut self)
        requires
            old(self).inv(),
            old(self).state is Stream,
        ensures
            final(self).step_post(old(self), 0, 0),
            final(self).queue == old(self).queue,
            final(self).next_token_id == old(self).next_token_id,
            final(self).simple_keys == old(self).simple_keys,
            *final(self) == (Scanner { reader: final(self).reader, error: final(self).error, tab_in_preceding_whitespace: final(self).tab_in_preceding_whitespace, simple_key_allowed: final(self).simple_key_allowed, ..*old(self) }),
            final(self).error is None ==> at_token_start(final(self).reader),
            old(self).error is None && final(self).error is Some ==> (final(self).error matches Some(e) && (e.kind
                == ScanErrorKind::InvalidTab || e.kind == ScanErrorKind::InvalidIndentation)),
    {
        self.tab_in_preceding_whitespace = false;
        let mut at_line_start = self.mark().column == 0;
        let mut tab_at_flow_line_start = false;
        loop
            invariant_except_break
                self.step_post(old(self), 0, 0),
                self.queue == old(self).queue,
                self.next_token_id == old(self).next_token_id,
                self.simple_keys == old(self).simple_keys,
                *self == (Scanner { reader: self.reader, error: self.error, tab_in_preceding_whitespace: self.tab_in_preceding_whitespace, simple_key_allowed: self.simple_key_allowed, ..*old(self) }),
                self.error == old(self).error,
                self.state is Stream,
            ensures
                self.error is None ==> at_token_start(self.reader),
                self.error == old(self).error,
                self.step_post(old(self), 0, 0),
                self.queue == old(self).queue,
                self.next_token_id == old(self).next_token_id,
                self.simple_keys == old(self).simple_keys,
                *self == (Scanner { reader: self.reader, error: self.error, tab_in_preceding_whitespace: self.tab_in_preceding_whitespace, simple_key_allowed: self.simple_key_allowed, ..*old(self) }),
            decreases self.reader.input().len() - self.reader.spec_pos(),
        {
            let ghost iter_start = self.reader.spec_pos();
            // Blanks.
            while is_blank(self.peek())
                invariant
                    self.reader.spec_pos() >= iter_start,
                    self.step_post(old(self), 0, 0),
                    self.queue == old(self).queue,
                    self.next_token_id == old(self).next_token_id,
                    self.simple_keys == old(self).simple_keys,
                    *self == (Scanner { reader: self.reader, error: self.error, tab_in_preceding_whitespace: self.tab_in_preceding_whitespace, simple_key_allowed: self.simple_key_allowed, ..*old(self) }),
                *self == (Scanner { reader: self.reader, error: self.error, tab_in_preceding_whitespace: self.tab_in_preceding_whitespace, simple_key_allowed: self.simple_key_allowed, ..*old(self) }),
                    self.error == old(self).error,
                    self.state is Stream,
                decreases self.reader.input().len() - self.reader.spec_pos(),
            {
                let c = self.peek();
                assert(!self.reader.spec_is_eof());
                if c == Some('\t') {
                    if at_line_start && self.flow_level == 0 && self.indent >= 0 {
                        self.set_error(ScanErrorKind::InvalidTab, "tab character used for indentation");
                        return;
                    }
                    if at_line_start && self.flow_level > 0 {
                        tab_at_flow_line_start = true;
                    }
                    self.tab_in_preceding_whitespace = true;
                }
                self.adv();
            }
            if tab_at_flow_line_start && !is_break_or_end(self.peek()) {
                self.set_error(
                    ScanErrorKind::InvalidTab,
                    "tab character used for indentation in flow context",
                );
                return;
            }
            at_line_start = false;
            if self.flow_level > 0 && self.flow_indent >= 0 && !is_break_or_end(self.peek())
                && (self.mark().column as i32) <= self.flow_indent {
                self.set_error(
                    ScanErrorKind::InvalidIndentation,
                    "flow content indented at or below block indent",
                );
                return;
            }
            if self.peek() == Some('#') && self.preceded_by_whitespace() {
                while self.peek().is_some() && !is_break_opt(self.peek())
                    invariant
                        self.reader.spec_pos() >= iter_start,
                        self.step_post(old(self), 0, 0),
                        self.queue == old(self).queue,
                        self.next_token_id == old(self).next_token_id,
                        self.simple_keys == old(self).simple_keys,
                        *self == (Scanner { reader: self.reader, error: self.error, tab_in_preceding_whitespace: self.tab_in_preceding_whitespace, simple_key_allowed: self.simple_key_allowed, ..*old(self) }),
                    *self == (Scanner { reader: self.reader, error: self.error, tab_in_preceding_whitespace: self.tab_in_preceding_whitespace, simple_key_allowed: self.simple_key_allowed, ..*old(self) }),
                *self == (Scanner { reader: self.reader, error: self.error, tab_in_preceding_whitespace: self.tab_in_preceding_whitespace, simple_key_allowed: self.simple_key_allowed, ..*old(self) }),
                        self.error == old(self).error,
                        self.state is Stream,
                    decreases self.reader.input().len() - self.reader.spec_pos(),
                {
                    self.adv();
                }
            }
            if is_break_opt(self.peek()) {
                self.adv();
                at_line_start = true;
                self.tab_in_preceding_whitespace = false;
                tab_at_flow_line_start = false;
                if self.flow_level == 0 {
                    self.simple_key_allowed = true;
                }
            } else {
                break;
            }
        }
    }
}

/// Fields that the indentation and simple-key bookkeeping leave alone.
spec fn same_stream(a: &Scanner, b: &Scanner) -> bool {
    &&& a.reader == b.reader
    &&& a.state == b.state
    &&& a.config == b.config
}

impl Scanner {
    /// Push the current indent level and emit a block collection start
    /// token when `column` is deeper than the current indent.
    fn roll_indent(&mut self, column: i32, is_mapping: bool, Ghost(ef): Ghost<int>, Ghost(ei): Ghost<int>)
        requires
            old(self).inv_with(ef, ei),
            ei <= 12,
            col_ok(column),
            old(self).state is Stream,
        ensures
            final(self).inv_with(ef + 1, ei + 2),
            same_stream(final(self), old(self)),
            old(self).error is Some ==> final(self).error is Some,
            final(self).next_token_id <= old(self).next_token_id + 1,
            final(self).indent_stack@.len() <= old(self).indent_stack@.len() + 1,
            final(self).next_token_id + final(self).indent_stack@.len() <= old(self).next_token_id
                + old(self).indent_stack@.len() + 2,
            final(self).flow_level == old(self).flow_level,
            final(self).simple_keys == old(self).simple_keys,
            final(self).tokens_consumed == old(self).tokens_consumed,
            final(self).pending_complex_key_column == old(self).pending_complex_key_column,
            final(self).flow_indent == old(self).flow_indent,
            old(self).flow_level > 0 || column <= old(self).indent ==> *final(self) == *old(self),
            old(self).flow_level == 0 && column > old(self).indent && old(self).document_start_line == Some(
                old(self).reader.spec_mark().line,
            ) ==> (final(self).error matches Some(e) && e.kind == ScanErrorKind::UnexpectedContent)
                && final(self).queue == old(self).queue && final(self).indent == old(self).indent,
            old(self).flow_level == 0 && column > old(self).indent && old(self).document_start_line != Some(
                old(self).reader.spec_mark().line,
            ) ==> {
                &&& final(self).indent_stack@ == old(self).indent_stack@.push(old(self).indent)
                &&& limit_outcome((old(self).indent_stack@.len() + 1) as usize, old(self).config.max_depth, seq!['d', 'e', 'p', 't', 'h']) is Err
                    ==> (final(self).error matches Some(e) && e.kind == ScanErrorKind::LimitExceeded)
                    && final(self).queue == old(self).queue
                &&& limit_outcome((old(self).indent_stack@.len() + 1) as usize, old(self).config.max_depth, seq!['d', 'e', 'p', 't', 'h']) is Ok
                    ==> final(self).indent == column && final(self).queue@.len() == old(self).queue@.len() + 1
                    && final(self).queue@.drop_last() == old(self).queue@
                    && final(self).queue@.last().kind == (if is_mapping {
                    TokenKind::BlockMappingStart
                } else {
                    TokenKind::BlockSequenceStart
                }) && final(self).queue@.last().atom.span == (Span {
                    start: old(self).reader.spec_mark(),
                    end: old(self).reader.spec_mark(),
                })
            },
    {
        if self.flow_level > 0 || column <= self.indent {
            return;
        }
        let mark = self.mark();
        if self.document_start_line == Some(mark.line) {
            self.set_error(
                ScanErrorKind::UnexpectedContent,
                "block collection cannot start on the document start line",
            );
            return;
        }
        if self.indent == -1 {
            self.root_token_emitted = false;
        }
        self.indent_stack.push(self.indent);
        let depth = self.indent_stack.len() + self.flow_level as usize;
        match self.config.check_depth(depth) {
            Err(msg) => {
                self.set_error_msg(ScanErrorKind::LimitExceeded, msg);
                return;
            },
            Ok(()) => {},
        }
        self.indent = column;
        let kind = if is_mapping {
            TokenKind::BlockMappingStart
        } else {
            TokenKind::BlockSequenceStart
        };
        self.enqueue(marker_token(kind, mark, mark), Ghost(ef + 1), Ghost(ei + 1));
    }

    /// Emit `BlockEnd` tokens for each indent level deeper than `column`.
    fn unroll_indent(&mut self, column: i32, Ghost(ef): Ghost<int>, Ghost(ei): Ghost<int>)
        requires
            old(self).inv_with(ef, ei),
            ei <= 12,
            col_ok(column),
            old(self).state is Stream,
        ensures
            final(self).inv_with(ef, ei),
            same_stream(final(self), old(self)),
            final(self).error == old(self).error,
            final(self).next_token_id + final(self).indent_stack@.len() == old(self).next_token_id
                + old(self).indent_stack@.len(),
            final(self).flow_level == old(self).flow_level,
            final(self).simple_keys == old(self).simple_keys,
            final(self).tokens_consumed == old(self).tokens_consumed,
            final(self).pending_complex_key_column == old(self).pending_complex_key_column,
            final(self).flow_indent == old(self).flow_indent,
            final(self).indent_stack@.len() <= old(self).indent_stack@.len(),
            old(self).flow_level == 0 ==> final(self).indent <= column,
    {
        if self.flow_level > 0 {
            return;
        }
        while self.indent > column
            invariant
                self.inv_with(ef, ei),
                ei <= 12,
                col_ok(column),
                self.state is Stream,
                same_stream(self, old(self)),
                self.error == old(self).error,
                self.next_token_id + self.indent_stack@.len() == old(self).next_token_id
                    + old(self).indent_stack@.len(),
                self.flow_level == old(self).flow_level,
                self.simple_keys == old(self).simple_keys,
                self.tokens_consumed == old(self).tokens_consumed,
                self.pending_complex_key_column == old(self).pending_complex_key_column,
                self.indent_stack@.len() <= old(self).indent_stack@.len(),
                self.flow_indent == old(self).flow_indent,
            decreases self.indent_stack@.len(),
        {
            let mark = self.mark();
            self.enqueue(marker_token(TokenKind::BlockEnd, mark, mark), Ghost(ef), Ghost(ei));
            let ghost before = self.indent_stack@;
            self.indent = match self.indent_stack.pop() {
                Some(v) => v,
                None => -1,
            };
            proof {
                assert(before.len() > 0);
                assert forall|j: int| 0 <= j < self.indent_stack@.len() implies col_ok(
                    #[trigger] self.indent_stack@[j],
                ) by {
                    assert(self.indent_stack@[j] == before[j]);
                }
                if self.indent_stack@.len() > 0 {
                    assert(self.indent_stack@[0] == before[0]);
                }
            }
        }
    }

    /// Find the queue index for the token with the given monotonic id.
    fn queue_position(&self, token_id: u64) -> (r: Option<usize>)
        requires
            self.tokens_consumed + self.queue@.len() == self.next_token_id,
        ensures
            r matches Some(p) ==> p < self.queue@.len(),
            r matches Some(p) ==> p as int == token_id - self.tokens_consumed,
            r == (if token_id >= self.tokens_consumed && token_id - self.tokens_consumed
                < self.queue@.len() {
                Some((token_id - self.tokens_consumed) as usize)
            } else {
                None::<usize>
            }),
    {
        if token_id < self.tokens_consumed {
            return None;
        }
        let d = token_id - self.tokens_consumed;
        if d < self.queue.len() as u64 {
            Some(d as usize)
        } else {
            None
        }
    }

    /// Remove stale simple keys: in block context those that ended on an
    /// earlier line, in flow context those of a deeper flow level. A required
    /// key whose token is an anchor or tag is reported instead.
    fn purge_stale_simple_keys(&mut self, Ghost(ef): Ghost<int>, Ghost(ei): Ghost<int>)
        requires
            old(self).inv_with(ef, ei),
        ensures
            final(self).inv_with(ef, ei),
            same_stream(final(self), old(self)),
            old(self).error is Some ==> final(self).error is Some,
            final(self).queue == old(self).queue,
            final(self).next_token_id == old(self).next_token_id,
            final(self).tokens_consumed == old(self).tokens_consumed,
            final(self).indent_stack == old(self).indent_stack,
            final(self).indent == old(self).indent,
            final(self).flow_level == old(self).flow_level,
            final(self).pending_complex_key_column == old(self).pending_complex_key_column,
            final(self).flow_indent == old(self).flow_indent,
            final(self).flow_is_mapping@ == old(self).flow_is_mapping@,
            final(self).document_start_line == old(self).document_start_line,
            final(self).simple_key_allowed == old(self).simple_key_allowed,
            (exists|j: int| 0 <= j < old(self).simple_keys@.len() && key_blocked(*old(self), #[trigger] old(self).simple_keys@[j]))
                ==> (final(self).error matches Some(e) && e.kind == ScanErrorKind::InvalidIndentation),
            !(exists|j: int| 0 <= j < old(self).simple_keys@.len() && key_blocked(*old(self), #[trigger] old(self).simple_keys@[j]))
                ==> final(self).error == old(self).error && final(self).simple_keys@ == old(self).simple_keys@.filter(
                |sk: SimpleKey| key_kept(*old(self), sk),
            ),
    {
        let current_line = self.mark().line;
        let mut k: usize = 0;
        while k < self.simple_keys.len()
            invariant
                self == old(self),
                self.inv_with(ef, ei),
                k <= self.simple_keys@.len(),
                current_line == self.reader.spec_mark().line,
                forall|j: int| 0 <= j < k ==> !key_blocked(*old(self), #[trigger] old(self).simple_keys@[j]),
            decreases self.simple_keys@.len() - k,
        {
            let sk = self.simple_keys[k];
            proof {
                assert(sk == old(self).simple_keys@[k as int]);
            }
            if sk.required {
                let would_purge = if self.flow_level == 0 {
                    current_line > sk.end_line
                } else {
                    sk.flow_level > self.flow_level
                };
                if would_purge {
                    match self.queue_position(sk.token_id) {
                        Some(pos) => {
                            let kind = self.queue[pos].kind;
                            if kind == TokenKind::Anchor {
                                self.set_error(ScanErrorKind::InvalidIndentation, "invalid anchor indent");
                                return;
                            }
                            if kind == TokenKind::Tag {
                                self.set_error(ScanErrorKind::InvalidIndentation, "invalid tag indent");
                                return;
                            }
                        },
                        None => {},
                    }
                }
            }
            k = k + 1;
        }
        let indent = self.indent;
        let flow_level = self.flow_level;
        let mut kept: Vec<SimpleKey> = Vec::new();
        let mut purged_root_ids: Vec<u64> = Vec::new();
        let mut k: usize = 0;
        while k < self.simple_keys.len()
            invariant
                self == old(self),
                k <= self.simple_keys@.len(),
                indent == self.indent,
                flow_level == self.flow_level,
                current_line == self.reader.spec_mark().line,
                kept@ == self.simple_keys@.take(k as int).filter(|x: SimpleKey| key_kept(*old(self), x)),
                forall|j: int| 0 <= j < kept@.len() ==> key_ok(
                    #[trigger] kept@[j],
                    self.next_token_id,
                    self.reader.byte_len(),
                ),
                self.inv_with(ef, ei),
            decreases self.simple_keys@.len() - k,
        {
            let sk = self.simple_keys[k];
            proof {
                assert(key_ok(self.simple_keys@[k as int], self.next_token_id, self.reader.byte_len()));
            }
            let keep = if flow_level == 0 {
                current_line <= sk.end_line
            } else {
                sk.flow_level <= flow_level
            };
            if flow_level == 0 && !keep && !sk.required && sk.flow_level == 0 && indent == -1 {
                purged_root_ids.push(sk.token_id);
            }
            proof {
                reveal(Seq::filter);
                assert(self.simple_keys@.take(k + 1).drop_last() =~= self.simple_keys@.take(k as int));
            }
            if keep {
                kept.push(sk);
            }
            k = k + 1;
        }
        proof {
            assert(self.simple_keys@.take(k as int) =~= self.simple_keys@);
        }
        self.simple_keys = kept;
        let mut k: usize = 0;
        while k < purged_root_ids.len()
            invariant
                self.inv_with(ef, ei),
                same_stream(self, old(self)),
                old(self).error is Some ==> self.error is Some,
                self.queue == old(self).queue,
                self.next_token_id == old(self).next_token_id,
                self.tokens_consumed == old(self).tokens_consumed,
                self.indent_stack == old(self).indent_stack,
                self.indent == old(self).indent,
                self.flow_level == old(self).flow_level,
                self.pending_complex_key_column == old(self).pending_complex_key_column,
                self.flow_indent == old(self).flow_indent,
                self.simple_key_allowed == old(self).simple_key_allowed,
                k <= purged_root_ids@.len(),
                self.error == old(self).error,
                self.simple_keys@ == old(self).simple_keys@.filter(|x: SimpleKey| key_kept(*old(self), x)),
                self.flow_is_mapping@ == old(self).flow_is_mapping@,
                self.document_start_line == old(self).document_start_line,
            decreases purged_root_ids@.len() - k,
        {
            match self.queue_position(purged_root_ids[k]) {
                Some(pos) => {
                    let kind = self.queue[pos].kind;
                    if kind == TokenKind::Scalar || kind == TokenKind::Alias {
                        self.root_token_emitted = true;
                    }
                },
                None => {},
            }
            k = k + 1;
        }
    }

    /// Remove all simple keys at or above the current flow level.
    fn remove_simple_key(&mut self, Ghost(ef): Ghost<int>, Ghost(ei): Ghost<int>)
        requires
            old(self).inv_with(ef, ei),
        ensures
            final(self).inv_with(ef, ei),
            same_stream(final(self), old(self)),
            final(self).error == old(self).error,
            final(self).queue == old(self).queue,
            final(self).next_token_id == old(self).next_token_id,
            final(self).tokens_consumed == old(self).tokens_consumed,
            final(self).indent_stack == old(self).indent_stack,
            final(self).indent == old(self).indent,
            final(self).flow_level == old(self).flow_level,
            final(self).pending_complex_key_column == old(self).pending_complex_key_column,
            final(self).flow_indent == old(self).flow_indent,
            final(self).simple_key_allowed == old(self).simple_key_allowed,
            final(self).simple_keys@ == old(self).simple_keys@.filter(
                |k: SimpleKey| k.flow_level < old(self).flow_level,
            ),
    {
        let mut kept: Vec<SimpleKey> = Vec::new();
        let mut k: usize = 0;
        while k < self.simple_keys.len()
            invariant
                self == old(self),
                k <= self.simple_keys@.len(),
                kept@ == self.simple_keys@.take(k as int).filter(|x: SimpleKey| x.flow_level < self.flow_level),
                forall|j: int| 0 <= j < kept@.len() ==> key_ok(
                    #[trigger] kept@[j],
                    self.next_token_id,
                    self.reader.byte_len(),
                ),
                self.inv_with(ef, ei),
            decreases self.simple_keys@.len() - k,
        {
            let sk = self.simple_keys[k];
            proof {
                assert(key_ok(self.simple_keys@[k as int], self.next_token_id, self.reader.byte_len()));
            }
            proof {
                reveal(Seq::filter);
                assert(self.simple_keys@.take(k + 1).drop_last() =~= self.simple_keys@.take(k as int));
            }
            if sk.flow_level < self.flow_level {
                kept.push(sk);
            }
            k = k + 1;
        }
        proof {
            assert(self.simple_keys@.take(k as int) =~= self.simple_keys@);
        }
        self.simple_keys = kept;
    }

    /// Save a potential simple key for the token `token_id` starting at `mark`.
    fn save_simple_key_full(
        &mut self,
        token_id: u64,
        mark: Mark,
        end_line: u32,
        json_key: bool,
        Ghost(ef): Ghost<int>,
        Ghost(ei): Ghost<int>,
    )
        requires
            old(self).inv_with(ef, ei),
            token_id < old(self).next_token_id,
            mark.offset <= old(self).reader.byte_len(),
            mark.column <= max_input_chars(),
        ensures
            final(self).inv_with(ef, ei),
            same_stream(final(self), old(self)),
            old(self).error is Some ==> final(self).error is Some,
            final(self).queue == old(self).queue,
            final(self).next_token_id == old(self).next_token_id,
            final(self).tokens_consumed == old(self).tokens_consumed,
            final(self).indent_stack == old(self).indent_stack,
            final(self).indent == old(self).indent,
            final(self).flow_level == old(self).flow_level,
            final(self).pending_complex_key_column == old(self).pending_complex_key_column,
            final(self).flow_indent == old(self).flow_indent,
            final(self).simple_key_allowed == old(self).simple_key_allowed,
            !old(self).simple_key_allowed ==> *final(self) == *old(self),
            old(self).keys_clear() ==> final(self).error == old(self).error,
            old(self).simple_key_allowed ==> final(self).simple_keys@.len() > 0
                && final(self).simple_keys@.last() == (SimpleKey {
                mark,
                end_line,
                token_id,
                flow_level: old(self).flow_level,
                required: old(self).flow_level == 0 && old(self).indent == mark.column as i32,
                json_key,
            }),
    {
        if !self.simple_key_allowed {
            return;
        }
        proof {
            if self.keys_clear() {
                assert forall|j: int| 0 <= j < self.simple_keys@.len() implies !key_blocked(*self, #[trigger] self.simple_keys@[j]) by {
                    assert(!property_key(*self, self.simple_keys@[j]));
                }
            }
        }
        self.purge_stale_simple_keys(Ghost(ef), Ghost(ei));
        let required = self.flow_level == 0 && self.indent == mark.column as i32;
        let sk = SimpleKey {
            mark,
            end_line,
            token_id,
            flow_level: self.flow_level,
            required,
            json_key,
        };
        let n = self.simple_keys.len();
        if n > 0 && self.simple_keys[n - 1].flow_level == self.flow_level {
            self.simple_keys.pop();
        }
        let ghost before = self.simple_keys@;
        self.simple_keys.push(sk);
        proof {
            assert forall|k: int| 0 <= k < self.simple_keys@.len() implies key_ok(
                #[trigger] self.simple_keys@[k],
                self.next_token_id,
                self.reader.byte_len(),
            ) by {
                if k < before.len() {
                    assert(self.simple_keys@[k] == before[k]);
                }
            }
        }
    }

    /// Save a simple key that ends on the line where it starts.
    fn save_simple_key(&mut self, token_id: u64, mark: Mark, Ghost(ef): Ghost<int>, Ghost(ei): Ghost<int>)
        requires
            old(self).inv_with(ef, ei),
            token_id < old(self).next_token_id,
            mark.offset <= old(self).reader.byte_len(),
            mark.column <= max_input_chars(),
        ensures
            final(self).inv_with(ef, ei),
            same_stream(final(self), old(self)),
            old(self).error is Some ==> final(self).error is Some,
            final(self).queue == old(self).queue,
            final(self).next_token_id == old(self).next_token_id,
            final(self).tokens_consumed == old(self).tokens_consumed,
            final(self).indent_stack == old(self).indent_stack,
            final(self).indent == old(self).indent,
            final(self).flow_level == old(self).flow_level,
            final(self).pending_complex_key_column == old(self).pending_complex_key_column,
            final(self).flow_indent == old(self).flow_indent,
            final(self).simple_key_allowed == old(self).simple_key_allowed,
            !old(self).simple_key_allowed ==> *final(self) == *old(self),
            old(self).simple_key_allowed ==> final(self).simple_keys@.len() > 0
                && final(self).simple_keys@.last() == (SimpleKey {
                mark,
                end_line: mark.line,
                token_id,
                flow_level: old(self).flow_level,
                required: old(self).flow_level == 0 && old(self).indent == mark.column as i32,
                json_key: false,
            }),
    {
        self.save_simple_key_full(token_id, mark, mark.line, false, Ghost(ef), Ghost(ei));
    }

    /// Save a simple key that ends at the current line; `json_key` marks
    /// quoted scalars and flow collections.
    fn save_simple_key_ext(&mut self, token_id: u64, mark: Mark, json_key: bool, Ghost(ef): Ghost<int>, Ghost(ei): Ghost<int>)
        requires
            old(self).inv_with(ef, ei),
            token_id < old(self).next_token_id,
            mark.offset <= old(self).reader.byte_len(),
            mark.column <= max_input_chars(),
        ensures
            final(self).inv_with(ef, ei),
            same_stream(final(self), old(self)),
            old(self).error is Some ==> final(self).error is Some,
            final(self).queue == old(self).queue,
            final(self).next_token_id == old(self).next_token_id,
            final(self).tokens_consumed == old(self).tokens_consumed,
            final(self).indent_stack == old(self).indent_stack,
            final(self).indent == old(self).indent,
            final(self).flow_level == old(self).flow_level,
            final(self).pending_complex_key_column == old(self).pending_complex_key_column,
            final(self).flow_indent == old(self).flow_indent,
            final(self).simple_key_allowed == old(self).simple_key_allowed,
            !old(self).simple_key_allowed ==> *final(self) == *old(self),
            old(self).keys_clear() ==> final(self).error == old(self).error,
            old(self).simple_key_allowed ==> final(self).simple_keys@.len() > 0
                && final(self).simple_keys@.last() == (SimpleKey {
                mark,
                end_line: old(self).reader.spec_mark().line,
                token_id,
                flow_level: old(self).flow_level,
                required: old(self).flow_level == 0 && old(self).indent == mark.column as i32,
                json_key: json_key,
            }),
    {
        let end_line = self.mark().line;
        self.save_simple_key_full(token_id, mark, end_line, json_key, Ghost(ef), Ghost(ei));
    }

    /// Whether the reader is at `ccc` followed by a blank or the end.
    fn at_triple(&self, c: char) -> (r: bool)
        requires
            self.reader.wf(),
        ensures
            r == at_triple_spec(self.reader, c),
    {
        self.peek() == Some(c) && self.peek_at(1) == Some(c) && self.peek_at(2) == Some(c)
            && is_blank_or_end(self.peek_at(3))
    }

    /// Whether the reader is positioned at `---` followed by blank/EOF.
    fn is_document_start(&self) -> (r: bool)
        requires
            self.reader.wf(),
        ensures
            r == at_triple_spec(self.reader, '-'),
    {
        self.at_triple('-')
    }

    /// Whether the reader is positioned at `...` followed by blank/EOF.
    fn is_document_end(&self) -> (r: bool)
        requires
            self.reader.wf(),
        ensures
            r == at_triple_spec(self.reader, '.'),
    {
        self.at_triple('.')
    }

    /// Consume `---` or `...` and build the document indicator token.
    fn fetch_document_indicator(&mut self, kind: TokenKind) -> (t: Token)
        requires
            old(self).inv(),
            old(self).state is Stream,
            old(self).reader.spec_peek_at(0) is Some,
        ensures
            final(self).step_post(old(self), 0, 0),
            final(self).reader.spec_pos() > old(self).reader.spec_pos(),
            final(self).queue == old(self).queue,
            final(self).next_token_id == old(self).next_token_id,
            final(self).indent_stack == old(self).indent_stack,
            final(self).flow_level == old(self).flow_level,
            final(self).simple_keys == old(self).simple_keys,
            final(self).error == old(self).error,
            t.kind == kind,
            span_ok(t.atom.span, old(self).reader.byte_len()),
    {
        let start = self.mark();
        self.adv_by(3);
        let end = self.mark();
        if kind == TokenKind::DocumentStart {
            if !self.in_directive_prologue {
                self.tag_handles = Vec::new();
            }
            self.in_directive_prologue = false;
            self.seen_directive = false;
            self.seen_yaml_directive = false;
            self.document_start_line = Some(start.line);
            self.root_token_emitted = false;
        } else if kind == TokenKind::DocumentEnd {
            self.in_directive_prologue = true;
            self.seen_directive = false;
            self.seen_yaml_directive = false;
            self.document_start_line = None;
            self.root_token_emitted = false;
            self.tag_handles = Vec::new();
        }
        marker_token(kind, start, end)
    }

    /// Skip spaces and tabs.
    fn skip_blanks(&mut self)
        requires
            old(self).inv(),
            old(self).state is Stream,
        ensures
            final(self).step_post(old(self), 0, 0),
            final(self).queue == old(self).queue,
            final(self).next_token_id == old(self).next_token_id,
            final(self).indent_stack == old(self).indent_stack,
            final(self).flow_level == old(self).flow_level,
            final(self).simple_keys == old(self).simple_keys,
            final(self).error == old(self).error,
            final(self).seen_yaml_directive == old(self).seen_yaml_directive,
            *final(self) == (Scanner { reader: final(self).reader, ..*old(self) }),
            final(self).tag_handles == old(self).tag_handles,
            final(self).reader.spec_pos() == blank_end(old(self).reader.input(), old(self).reader.spec_pos() as int),
    {
        while is_blank(self.peek())
            invariant
                self.step_post(old(self), 0, 0),
                self.state is Stream,
                self.queue == old(self).queue,
                self.next_token_id == old(self).next_token_id,
                self.indent_stack == old(self).indent_stack,
                self.flow_level == old(self).flow_level,
                self.simple_keys == old(self).simple_keys,
                self.error == old(self).error,
                self.seen_yaml_directive == old(self).seen_yaml_directive,
                *self == (Scanner { reader: self.reader, ..*old(self) }),
                self.tag_handles == old(self).tag_handles,
                blank_end(self.reader.input(), self.reader.spec_pos() as int) == blank_end(
                    old(self).reader.input(),
                    old(self).reader.spec_pos() as int,
                ),
            decreases self.reader.input().len() - self.reader.spec_pos(),
        {
            self.adv();
        }
    }

    /// Advance past the next line break, or to the end of input.
    fn skip_to_next_line(&mut self)
        requires
            old(self).inv(),
            old(self).state is Stream,
        ensures
            final(self).step_post(old(self), 0, 0),
            final(self).queue == old(self).queue,
            final(self).next_token_id == old(self).next_token_id,
            final(self).indent_stack == old(self).indent_stack,
            final(self).flow_level == old(self).flow_level,
            final(self).simple_keys == old(self).simple_keys,
            final(self).error == old(self).error,
            final(self).seen_yaml_directive == old(self).seen_yaml_directive,
            *final(self) == (Scanner { reader: final(self).reader, ..*old(self) }),
            final(self).tag_handles == old(self).tag_handles,
            final(self).reader.spec_pos() == line_end(old(self).reader.input(), old(self).reader.spec_pos() as int),
    {
        while self.peek().is_some()
            invariant_except_break
                line_end(self.reader.input(), self.reader.spec_pos() as int) == line_end(
                    old(self).reader.input(),
                    old(self).reader.spec_pos() as int,
                ),
            invariant
                self.step_post(old(self), 0, 0),
                self.state is Stream,
                self.queue == old(self).queue,
                self.next_token_id == old(self).next_token_id,
                self.indent_stack == old(self).indent_stack,
                self.flow_level == old(self).flow_level,
                self.simple_keys == old(self).simple_keys,
                self.error == old(self).error,
                self.seen_yaml_directive == old(self).seen_yaml_directive,
                *self == (Scanner { reader: self.reader, ..*old(self) }),
                self.tag_handles == old(self).tag_handles,
            ensures
                self.step_post(old(self), 0, 0),
                self.state is Stream,
                self.queue == old(self).queue,
                self.next_token_id == old(self).next_token_id,
                self.indent_stack == old(self).indent_stack,
                self.flow_level == old(self).flow_level,
                self.simple_keys == old(self).simple_keys,
                self.error == old(self).error,
                self.seen_yaml_directive == old(self).seen_yaml_directive,
                *self == (Scanner { reader: self.reader, ..*old(self) }),
                self.tag_handles == old(self).tag_handles,
                self.reader.spec_pos() == line_end(old(self).reader.input(), old(self).reader.spec_pos() as int),
            decreases self.reader.input().len() - self.reader.spec_pos(),
        {
            let c = self.adv();
            if c == Some('\n') || c == Some('\r') {
                break;
            }
        }
    }

    /// Number of spaces and tabs starting at the current position.
    fn blank_run(&self) -> (r: usize)
        requires
            self.reader.wf(),
            self.reader.spec_pos() <= self.reader.input().len(),
        ensures
            forall|j: int| 0 <= j < r ==> spec_blank(#[trigger] self.reader.spec_peek_at(j)),
            !spec_blank(self.reader.spec_peek_at(r as int)),
            self.reader.spec_pos() + r == blank_end(self.reader.input(), self.reader.spec_pos() as int),
    {
        proof {
            self.reader.lemma_wf();
        }
        let mut la: usize = 0;
        while is_blank(self.peek_at(la))
            invariant
                self.reader.wf(),
                self.reader.spec_pos() <= self.reader.input().len(),
                forall|j: int| 0 <= j < la ==> spec_blank(#[trigger] self.reader.spec_peek_at(j)),
                la <= self.reader.input().len() - self.reader.spec_pos(),
                blank_end(self.reader.input(), self.reader.spec_pos() + la) == blank_end(
                    self.reader.input(),
                    self.reader.spec_pos() as int,
                ),
                self.reader.input().len() <= max_input_chars(),
            decreases self.reader.input().len() - self.reader.spec_pos() - la,
        {
            la = la + 1;
        }
        la
    }
}

impl Scanner {
    /// Scan a `%YAML` or `%TAG` directive; `Ok(None)` for an unknown
    /// directive, which is skipped to the end of its line.
    fn fetch_directive(&mut self) -> (r: Result<Option<Token>, ScanError>)
        requires
            old(self).inv(),
            old(self).state is Stream,
            old(self).reader.spec_peek_at(0) == Some('%'),
        ensures
            final(self).step_post(old(self), 0, 0),
            final(self).reader.spec_pos() > old(self).reader.spec_pos(),
            final(self).queue == old(self).queue,
            final(self).next_token_id == old(self).next_token_id,
            final(self).indent_stack == old(self).indent_stack,
            final(self).flow_level == old(self).flow_level,
            final(self).simple_keys == old(self).simple_keys,
            final(self).error == old(self).error,
            r matches Ok(Some(t)) ==> span_ok(t.atom.span, old(self).reader.byte_len()) && (t.kind
                == TokenKind::VersionDirective || t.kind == TokenKind::TagDirective),
    {
        self.adv();
        if self.peek() == Some('Y') && self.peek_at(1) == Some('A') && self.peek_at(2) == Some('M')
            && self.peek_at(3) == Some('L') && is_blank(self.peek_at(4)) {
            match self.fetch_version_directive() {
                Ok(t) => Ok(Some(t)),
                Err(e) => Err(e),
            }
        } else if self.peek() == Some('T') && self.peek_at(1) == Some('A') && self.peek_at(2) == Some(
            'G',
        ) && is_blank(self.peek_at(3)) {
            match self.fetch_tag_directive() {
                Ok(t) => Ok(Some(t)),
                Err(e) => Err(e),
            }
        } else {
            self.skip_to_next_line();
            Ok(None)
        }
    }

    /// Scan `%YAML x.y` (after the `%`).
    fn fetch_version_directive(&mut self) -> (r: Result<Token, ScanError>)
        requires
            old(self).inv(),
            old(self).state is Stream,
        ensures
            final(self).step_post(old(self), 0, 0),
            final(self).queue == old(self).queue,
            final(self).next_token_id == old(self).next_token_id,
            final(self).indent_stack == old(self).indent_stack,
            final(self).flow_level == old(self).flow_level,
            final(self).simple_keys == old(self).simple_keys,
            final(self).error == old(self).error,
            r matches Ok(t) ==> span_ok(t.atom.span, old(self).reader.byte_len()) && t.kind
                == TokenKind::VersionDirective,
            old(self).seen_yaml_directive ==> (r matches Err(e) && e.kind == ScanErrorKind::InvalidDirective),
            !old(self).seen_yaml_directive ==> (r is Ok <==> version_ok(old(self).reader.input(), old(self).reader.spec_pos() as int)),
            r matches Ok(t) ==> t.atom.data@ == version_text(old(self).reader.input(), old(self).reader.spec_pos() as int),
    {
        if self.seen_yaml_directive {
            return Err(scan_error(ScanErrorKind::InvalidDirective, "duplicate %YAML directive"));
        }
        self.seen_yaml_directive = true;
        self.seen_directive = true;
        self.adv_by(4);
        self.skip_blanks();
        let ver_start = self.mark();
        let ver_start_pos = self.reader.pos();
        while self.peek().is_some() && (is_ascii_digit(self.peek().unwrap()) || self.peek() == Some('.'))
            invariant
                self.step_post(old(self), 0, 0),
                self.state is Stream,
                self.queue == old(self).queue,
                self.next_token_id == old(self).next_token_id,
                self.indent_stack == old(self).indent_stack,
                self.flow_level == old(self).flow_level,
                self.simple_keys == old(self).simple_keys,
                self.error == old(self).error,
                ver_start_pos <= self.reader.spec_pos(),
                ver_start.offset <= self.reader.spec_mark().offset,
                ver_start.offset <= self.reader.byte_len(),
                ver_start_pos as int == version_start(old(self).reader.input(), old(self).reader.spec_pos() as int),
                version_end(self.reader.input(), self.reader.spec_pos() as int) == version_end(
                    self.reader.input(),
                    ver_start_pos as int,
                ),
                self.reader.spec_pos() > ver_start_pos ==> self.reader.spec_mark().offset > ver_start.offset,
                !old(self).seen_yaml_directive,
            decreases self.reader.input().len() - self.reader.spec_pos(),
        {
            self.adv();
        }
        let ver_end = self.mark();
        let ver_end_pos = self.reader.pos();
        if ver_start.offset == ver_end.offset {
            return Err(scan_error(ScanErrorKind::InvalidDirective, "expected version after %YAML"));
        }
        let version = self.reader.slice_chars(ver_start_pos, ver_end_pos);
        if !valid_version_chars(&self.reader, ver_start_pos, ver_end_pos) {
            let mut msg = concat2("unsupported version number '", version.as_str());
            msg.push('\'');
            return Err(ScanError { kind: ScanErrorKind::InvalidDirective, message: msg });
        }
        let la = self.blank_run();
        let next = self.peek_at(la);
        match next {
            None => {},
            Some(c) => {
                if !(c == '\n' || c == '\r' || (c == '#' && la > 0)) {
                    return Err(
                        ScanError {
                            kind: ScanErrorKind::InvalidDirective,
                            message: concat_char("invalid character '", c, "' after YAML version"),
                        },
                    );
                }
            },
        }
        self.skip_to_next_line();
        Ok(data_token(TokenKind::VersionDirective, version, ver_start, ver_end))
    }

    /// Scan `%TAG handle prefix` (after the `%`).
    fn fetch_tag_directive(&mut self) -> (r: Result<Token, ScanError>)
        requires
            old(self).inv(),
            old(self).state is Stream,
        ensures
            final(self).step_post(old(self), 0, 0),
            final(self).queue == old(self).queue,
            final(self).next_token_id == old(self).next_token_id,
            final(self).indent_stack == old(self).indent_stack,
            final(self).flow_level == old(self).flow_level,
            final(self).simple_keys == old(self).simple_keys,
            final(self).error == old(self).error,
            r matches Ok(t) ==> span_ok(t.atom.span, old(self).reader.byte_len()) && t.kind
                == TokenKind::TagDirective,
            r is Ok <==> ({
                let q = tag_directive_start(old(self).reader.input(), old(self).reader.spec_pos() as int);
                q < old(self).reader.input().len() && old(self).reader.input()[q] == '!'
            }),
            r matches Ok(t) ==> t.atom.data@.len() > 0 && t.atom.data@[0] == '!' && t.atom.data@ == old(self).reader.input().subrange(
                tag_directive_start(old(self).reader.input(), old(self).reader.spec_pos() as int),
                tag_directive_start(old(self).reader.input(), old(self).reader.spec_pos() as int)
                    + t.atom.data@.len(),
            ),
    {
        self.seen_directive = true;
        self.adv_by(3);
        self.skip_blanks();
        let data_start = self.mark();
        let data_start_pos = self.reader.pos();
        if self.peek() != Some('!') {
            return Err(scan_error(ScanErrorKind::InvalidDirective, "expected '!' at start of tag handle"));
        }
        self.adv();
        loop
            invariant_except_break
                self.step_post(old(self), 0, 0),
                self.state is Stream,
                self.queue == old(self).queue,
                self.next_token_id == old(self).next_token_id,
                self.indent_stack == old(self).indent_stack,
                self.flow_level == old(self).flow_level,
                self.simple_keys == old(self).simple_keys,
                self.error == old(self).error,
                data_start_pos < self.reader.spec_pos(),
                data_start_pos as int == tag_directive_start(old(self).reader.input(), old(self).reader.spec_pos() as int),
                self.reader.input()[data_start_pos as int] == '!',
                data_start.offset <= self.reader.spec_mark().offset,
                data_start.offset <= self.reader.byte_len(),
            ensures
                self.step_post(old(self), 0, 0),
                self.state is Stream,
                self.queue == old(self).queue,
                self.next_token_id == old(self).next_token_id,
                self.indent_stack == old(self).indent_stack,
                self.flow_level == old(self).flow_level,
                self.simple_keys == old(self).simple_keys,
                self.error == old(self).error,
                data_start_pos < self.reader.spec_pos(),
                data_start_pos as int == tag_directive_start(old(self).reader.input(), old(self).reader.spec_pos() as int),
                self.reader.input()[data_start_pos as int] == '!',
                data_start.offset <= self.reader.spec_mark().offset,
            decreases self.reader.input().len() - self.reader.spec_pos(),
        {
            let c = self.peek();
            match c {
                None => break,
                Some(ch) => {
                    if ch == '!' {
                        self.adv();
                        break;
                    }
                    if is_blank(c) || is_linebreak(ch) {
                        break;
                    }
                    self.adv();
                },
            }
        }
        let handle_end_pos = self.reader.pos();
        let mut handle: Vec<char> = Vec::new();
        push_range(&mut handle, &self.reader, data_start_pos, handle_end_pos);
        self.tag_handles.push(handle);
        self.skip_blanks();
        while self.peek().is_some() && !is_blank(self.peek()) && !is_break_opt(self.peek())
            invariant
                self.step_post(old(self), 0, 0),
                self.state is Stream,
                self.queue == old(self).queue,
                self.next_token_id == old(self).next_token_id,
                self.indent_stack == old(self).indent_stack,
                self.flow_level == old(self).flow_level,
                self.simple_keys == old(self).simple_keys,
                self.error == old(self).error,
                data_start_pos < self.reader.spec_pos(),
                data_start_pos as int == tag_directive_start(old(self).reader.input(), old(self).reader.spec_pos() as int),
                self.reader.input()[data_start_pos as int] == '!',
                data_start.offset <= self.reader.spec_mark().offset,
            decreases self.reader.input().len() - self.reader.spec_pos(),
        {
            self.adv();
        }
        let data_end = self.mark();
        let data_end_pos = self.reader.pos();
        let tag_data = self.reader.slice_chars(data_start_pos, data_end_pos);
        self.skip_to_next_line();
        Ok(data_token(TokenKind::TagDirective, tag_data, data_start, data_end))
    }
}

impl Scanner {
    /// Consume `[` or `{` and emit a flow collection start token. The
    /// collection may itself be a simple key, saved at the outer flow level.
    fn fetch_flow_collection_start(&mut self, c: char)
        requires
            old(self).inv(),
            old(self).tight(),
            old(self).state is Stream,
            !old(self).reader.spec_is_eof(),
        ensures
            final(self).fetched(old(self)),
    {
        let start = self.mark();
        let kind = if c == '[' {
            TokenKind::FlowSequenceStart
        } else {
            TokenKind::FlowMappingStart
        };
        self.adv();
        let end = self.mark();
        let id = self.enqueue(marker_token(kind, start, end), Ghost(-1), Ghost(-4));
        self.save_simple_key_ext(id, start, true, Ghost(-1), Ghost(-3));
        if self.flow_level == 0 {
            self.flow_indent = self.indent;
        }
        proof {
            self.reader.lemma_wf();
        }
        self.flow_level = self.flow_level + 1;
        let depth = self.indent_stack.len() + self.flow_level as usize;
        match self.config.check_depth(depth) {
            Err(msg) => {
                self.set_error_msg(ScanErrorKind::LimitExceeded, msg);
                return;
            },
            Ok(()) => {},
        }
        self.flow_is_mapping.push(c == '{');
        self.simple_key_allowed = true;
    }

    /// Consume `]` or `}` and emit a flow collection end token.
    fn fetch_flow_collection_end(&mut self, c: char)
        requires
            old(self).inv(),
            old(self).tight(),
            old(self).state is Stream,
            !old(self).reader.spec_is_eof(),
        ensures
            final(self).fetched(old(self)),
    {
        if self.flow_level == 0 {
            self.adv();
            self.set_error_msg(
                ScanErrorKind::UnexpectedCharacter,
                concat_char("unexpected '", c, "' outside of flow collection"),
            );
            return;
        }
        self.remove_simple_key(Ghost(0), Ghost(0));
        let kind = if c == ']' {
            TokenKind::FlowSequenceEnd
        } else {
            TokenKind::FlowMappingEnd
        };
        let start = self.mark();
        self.adv();
        let end = self.mark();
        self.flow_level = self.flow_level - 1;
        self.flow_is_mapping.pop();
        self.enqueue(marker_token(kind, start, end), Ghost(-2), Ghost(-4));
        self.simple_key_allowed = false;
        if self.flow_level > 0 {
            self.adjacent_value_offset = Some(self.mark().offset);
            return;
        }
        let n = self.simple_keys.len();
        if n > 0 && self.simple_keys[n - 1].flow_level == 0 {
            let mut sk = self.simple_keys[n - 1];
            sk.end_line = end.line;
            let ghost before = self.simple_keys@;
            self.simple_keys.set(n - 1, sk);
            proof {
                assert forall|k: int| 0 <= k < self.simple_keys@.len() implies key_ok(
                    #[trigger] self.simple_keys@[k],
                    self.next_token_id,
                    self.reader.byte_len(),
                ) by {
                    assert(key_ok(before[k], self.next_token_id, self.reader.byte_len()));
                }
            }
        }
        let la = self.blank_run();
        match self.peek_at(la) {
            None => {
                if self.indent == -1 {
                    self.root_token_emitted = true;
                }
            },
            Some(ch) => {
                if ch == '\n' || ch == '\r' || (ch == '#' && la > 0) {
                    if self.indent == -1 {
                        self.root_token_emitted = true;
                    }
                } else if ch != ':' {
                    self.set_error_msg(
                        ScanErrorKind::UnexpectedContent,
                        concat_char("invalid character '", ch, "' after flow collection close"),
                    );
                }
            },
        }
    }

    /// Consume `,` and emit a flow entry token.
    fn fetch_flow_entry(&mut self)
        requires
            old(self).inv(),
            old(self).tight(),
            old(self).state is Stream,
            !old(self).reader.spec_is_eof(),
        ensures
            final(self).fetched(old(self)),
    {
        self.remove_simple_key(Ghost(0), Ghost(0));
        let start = self.mark();
        self.adv();
        let end = self.mark();
        self.enqueue(marker_token(TokenKind::FlowEntry, start, end), Ghost(-1), Ghost(-4));
        self.simple_key_allowed = true;
    }

    /// Fetch a block entry (`- `), opening a block sequence when the entry
    /// is deeper than the current indent.
    fn fetch_block_entry(&mut self)
        requires
            old(self).inv(),
            old(self).tight(),
            old(self).state is Stream,
            !old(self).reader.spec_is_eof(),
        ensures
            final(self).fetched(old(self)),
    {
        if self.tab_in_preceding_whitespace {
            self.set_error(ScanErrorKind::InvalidTab, "tab character used for indentation of block entry");
            return;
        }
        let mark = self.mark();
        let col = mark.column as i32;
        if col > self.indent && self.last_block_token_line == Some(mark.line) {
            self.set_error(ScanErrorKind::UnexpectedContent, "block sequence entries not allowed in this context");
            return;
        }
        self.remove_simple_key(Ghost(0), Ghost(0));
        self.roll_indent(col, false, Ghost(0), Ghost(0));
        let start = self.mark();
        self.adv();
        let end = self.mark();
        self.enqueue(marker_token(TokenKind::BlockEntry, start, end), Ghost(0), Ghost(-2));
        self.simple_key_allowed = true;
    }

    /// Fetch an explicit key (`? `), opening a block mapping when deeper
    /// than the current indent.
    fn fetch_key(&mut self)
        requires
            old(self).inv(),
            old(self).tight(),
            old(self).state is Stream,
            !old(self).reader.spec_is_eof(),
        ensures
            final(self).fetched(old(self)),
    {
        self.remove_simple_key(Ghost(0), Ghost(0));
        let col = self.mark().column as i32;
        self.roll_indent(col, true, Ghost(0), Ghost(0));
        let start = self.mark();
        self.adv();
        let end = self.mark();
        self.enqueue(marker_token(TokenKind::Key, start, end), Ghost(0), Ghost(-2));
        self.simple_key_allowed = true;
        self.pending_complex_key_column = col;
        if self.peek() == Some('\t') {
            self.set_error(ScanErrorKind::InvalidTab, "tab character used for indentation");
        }
    }
}

impl Scanner {
    /// Fetch a value indicator (`:`). A pending simple key at this flow
    /// level gets `Key` (and, when it opens a block mapping,
    /// `BlockMappingStart`) inserted before its token; without one, this is
    /// an empty key.
    #[verifier::rlimit(60)]
    fn resolve_simple_key(&mut self, sk: SimpleKey, mark: Mark) -> (ok: bool)
        requires
            old(self).inv(),
            old(self).state is Stream,
            key_ok(sk, old(self).next_token_id, old(self).reader.byte_len()),
        ensures
            final(self).inv_with(1, 3),
            same_stream(final(self), old(self)),
            old(self).error is Some ==> final(self).error is Some,
            !ok ==> final(self).error is Some,
            ok ==> final(self).error == old(self).error,
            final(self).next_token_id + final(self).indent_stack@.len() <= old(self).next_token_id
                + old(self).indent_stack@.len() + 3,
            final(self).indent_stack@.len() <= old(self).indent_stack@.len() + 1,
            final(self).flow_level == old(self).flow_level,
            final(self).tokens_consumed == old(self).tokens_consumed,
            final(self).pending_complex_key_column == old(self).pending_complex_key_column,
            final(self).flow_indent == old(self).flow_indent,
            simple_key_refused(old(self).flow_level, old(self).flow_is_mapping@, sk, mark) ==> !ok && (final(self).error matches Some(e) && e.kind == ScanErrorKind::InvalidSimpleKey),
            !simple_key_refused(old(self).flow_level, old(self).flow_is_mapping@, sk, mark) && !(sk.token_id
                >= old(self).tokens_consumed && sk.token_id - old(self).tokens_consumed < old(self).queue@.len())
                ==> ok && *final(self) == *old(self),
            ({
                let pos = sk.token_id - old(self).tokens_consumed;
                (!simple_key_refused(old(self).flow_level, old(self).flow_is_mapping@, sk, mark) && sk.token_id
                    >= old(self).tokens_consumed && pos < old(self).queue@.len() && limit_outcome(
                    utf8_len(old(self).queue@[pos].atom.data@) as usize,
                    old(self).config.max_key_bytes,
                    seq!['k', 'e', 'y', ' ', 's', 'i', 'z', 'e'],
                ) is Ok && !(old(self).flow_level == 0 && (sk.mark.column as i32) > old(self).indent)) ==> ok
                    && final(self).queue@.len() == old(self).queue@.len() + 1 && final(self).queue@.remove(pos)
                    == old(self).queue@ && final(self).queue@[pos].kind == TokenKind::Key && final(self).queue@[pos].atom.span == (Span {
                    start: sk.mark,
                    end: sk.mark,
                })
            }),
            ({
                let pos = sk.token_id - old(self).tokens_consumed;
                (!simple_key_refused(old(self).flow_level, old(self).flow_is_mapping@, sk, mark) && sk.token_id
                    >= old(self).tokens_consumed && pos < old(self).queue@.len() && limit_outcome(
                    utf8_len(old(self).queue@[pos].atom.data@) as usize,
                    old(self).config.max_key_bytes,
                    seq!['k', 'e', 'y', ' ', 's', 'i', 'z', 'e'],
                ) is Ok && old(self).flow_level == 0 && (sk.mark.column as i32) > old(self).indent) ==> {
                    &&& ok <==> (old(self).document_start_line != Some(sk.mark.line) && limit_outcome(
                        (old(self).indent_stack@.len() + 1) as usize,
                        old(self).config.max_depth,
                        seq!['d', 'e', 'p', 't', 'h'],
                    ) is Ok)
                    &&& ok ==> final(self).queue@.len() == old(self).queue@.len() + 2 && final(self).queue@.remove(
                        pos + 1,
                    ).remove(pos) == old(self).queue@ && final(self).queue@[pos].kind == TokenKind::BlockMappingStart
                        && final(self).queue@[pos + 1].kind == TokenKind::Key && final(self).queue@[pos].atom.span
                        == (Span { start: sk.mark, end: sk.mark }) && final(self).queue@[pos + 1].atom.span == (Span {
                        start: sk.mark,
                        end: sk.mark,
                    })
                }
            }),
    {
        let key_is_multiline = sk.end_line > sk.mark.line;
        let colon_on_different_line = sk.end_line < mark.line;
        let reject = if self.flow_level == 0 {
            key_is_multiline || (sk.mark.line != mark.line && !sk.json_key)
        } else {
            let in_mapping = match self.flow_is_mapping.last() {
                Some(b) => *b,
                None => false,
            };
            if colon_on_different_line && !in_mapping {
                true
            } else {
                sk.end_line != mark.line && !sk.json_key
            }
        };
        if reject {
            self.set_error(ScanErrorKind::InvalidSimpleKey, "multiline simple key is not allowed");
            return false;
        }
        match self.queue_position(sk.token_id) {
            Some(pos) => {
                let size = string_len(&self.queue[pos].atom.data);
                proof {
                    assert(pos as int == sk.token_id - self.tokens_consumed);
                    assert(size == utf8_len(old(self).queue@[sk.token_id - old(self).tokens_consumed].atom.data@));
                }
                match self.config.check_key_size(size) {
                    Err(msg) => {
                        self.set_error_msg(ScanErrorKind::LimitExceeded, msg);
                        return false;
                    },
                    Ok(()) => {},
                }
                if self.flow_level == 0 && (sk.mark.column as i32) > self.indent {
                    if self.document_start_line == Some(sk.mark.line) {
                        self.set_error(
                            ScanErrorKind::UnexpectedContent,
                            "block collection cannot start on the document start line",
                        );
                        return false;
                    }
                    self.insert_marker(
                        pos,
                        marker_token(TokenKind::BlockMappingStart, sk.mark, sk.mark),
                        Ghost(0),
                        Ghost(0),
                    );
                    if self.indent == -1 {
                        self.root_token_emitted = false;
                    }
                    self.indent_stack.push(self.indent);
                    let depth = self.indent_stack.len() + self.flow_level as usize;
                    match self.config.check_depth(depth) {
                        Err(msg) => {
                            self.set_error_msg(ScanErrorKind::LimitExceeded, msg);
                            return false;
                        },
                        Ok(()) => {},
                    }
                    self.indent = sk.mark.column as i32;
                    let qlen = self.queue.len();
                    assert(pos < qlen);
                    let ghost qb = self.queue@;
                    proof {
                        assert(qb.remove(pos as int) =~= old(self).queue@);
                    }
                    self.insert_marker(
                        pos + 1,
                        marker_token(TokenKind::Key, sk.mark, sk.mark),
                        Ghost(1),
                        Ghost(2),
                    );
                    proof {
                        assert(self.queue@.remove(pos + 1) =~= qb);
                    }
                } else {
                    self.insert_marker(
                        pos,
                        marker_token(TokenKind::Key, sk.mark, sk.mark),
                        Ghost(0),
                        Ghost(0),
                    );
                    proof {
                        assert(self.queue@.remove(pos as int) =~= old(self).queue@);
                    }
                }
            },
            None => {},
        }
        true
    }

    /// What fetching a `:` value indicator did, from `old` to `self`, when no
    /// error was recorded: the reader moved past the `:` and a `Value` token
    /// at it was queued last. For an explicit key (`?`) nothing else was
    /// queued; otherwise the simple key pending at this flow level (the last
    /// one kept) got a `Key` token inserted where its token stands (after a
    /// `BlockMappingStart` there when the key opens a block mapping), or, in a
    /// flow collection with no such key, an empty `Key` was queued first.
    /// Success is owed on the paths that cannot fail (no refused key, no
    /// limit or document-start-line violation, no tab after a block `:`).
    #[verifier::opaque]
    spec fn value_fetched(&self, old: &Scanner) -> bool {
        let m = old.reader.spec_mark();
        let col = m.column as i32;
        let explicit = old.pending_complex_key_column >= 0 && (old.flow_level > 0 || col
            <= old.pending_complex_key_column);
        let ks = old.simple_keys@.filter(|sk: SimpleKey| key_kept(*old, sk));
        let has_key = ks.len() > 0 && ks.last().flow_level == old.flow_level;
        let sk = ks.last();
        let pos = sk.token_id - old.tokens_consumed;
        let s = old.reader.input();
        let np = next_pos(s, old.reader.spec_pos() as int);
        let tab_after = 0 <= np < s.len() && s[np] == '\t';
        let inq = sk.token_id >= old.tokens_consumed && pos < old.queue@.len();
        let refused = simple_key_refused(old.flow_level, old.flow_is_mapping@, sk, m);
        let size_ok = limit_outcome(
            utf8_len(old.queue@[pos].atom.data@) as usize,
            old.config.max_key_bytes,
            seq!['k', 'e', 'y', ' ', 's', 'i', 'z', 'e'],
        ) is Ok;
        let opens = old.flow_level == 0 && (sk.mark.column as i32) > old.indent;
        let bms = !explicit && has_key && !refused && inq && size_ok && opens;
        let depth_ok = old.document_start_line != Some(sk.mark.line) && limit_outcome(
            (old.indent_stack@.len() + 1) as usize,
            old.config.max_depth,
            seq!['d', 'e', 'p', 't', 'h'],
        ) is Ok;
        let good = explicit || (!has_key && (old.flow_level > 0 || col <= old.indent)) || (has_key && !refused && (
        !inq || (size_ok && (!opens || depth_ok))));
        &&& (old.error is None && old.keys_clear() && good && (old.flow_level > 0 || !tab_after)) ==> self.error is None
        &&& (old.keys_clear() && good && old.flow_level == 0 && tab_after) ==> (self.error matches Some(e) && e.kind
            == ScanErrorKind::InvalidTab)
        &&& (old.keys_clear() && !explicit && has_key && refused) ==> (self.error matches Some(e) && e.kind
            == ScanErrorKind::InvalidSimpleKey)
        &&& self.error is None ==> {
            &&& self.queue@.len() > 0
            &&& self.queue@.last().kind == TokenKind::Value
            &&& self.queue@.last().atom.span.start == m
            &&& self.reader.spec_pos() == next_pos(old.reader.input(), old.reader.spec_pos() as int)
            &&& explicit ==> self.queue@.drop_last() == old.queue@
            &&& (!explicit && !has_key && old.flow_level > 0) ==> {
                &&& self.queue@.len() == old.queue@.len() + 2
                &&& self.queue@.take(old.queue@.len() as int) == old.queue@
                &&& self.queue@[old.queue@.len() as int].kind == TokenKind::Key
                &&& self.queue@[old.queue@.len() as int].atom.span == (Span { start: m, end: m })
            }
            &&& (!explicit && has_key && sk.token_id >= old.tokens_consumed && pos < old.queue@.len()
                && !(old.flow_level == 0 && (sk.mark.column as i32) > old.indent) && limit_outcome(
                utf8_len(old.queue@[pos].atom.data@) as usize,
                old.config.max_key_bytes,
                seq!['k', 'e', 'y', ' ', 's', 'i', 'z', 'e'],
            ) is Ok) ==> {
                &&& self.queue@.len() == old.queue@.len() + 2
                &&& self.queue@.drop_last().remove(pos) == old.queue@
                &&& self.queue@[pos].kind == TokenKind::Key
                &&& self.queue@[pos].atom.span == (Span { start: sk.mark, end: sk.mark })
            }
            &&& bms ==> {
                &&& self.queue@.len() == old.queue@.len() + 3
                &&& self.queue@.drop_last().remove(pos + 1).remove(pos) == old.queue@
                &&& self.queue@[pos].kind == TokenKind::BlockMappingStart
                &&& self.queue@[pos + 1].kind == TokenKind::Key
                &&& self.queue@[pos + 1].atom.span == (Span { start: sk.mark, end: sk.mark })
            }
        }
    }

    /// The key half of a `:` value indicator at `mark` (the reader's mark,
    /// stale simple keys already purged): nothing for an explicit key, a
    /// `Key` inserted for the pending simple key at this flow level, or an
    /// empty `Key` (after opening a block mapping if the column calls for
    /// it). Returns `false` when the simple key is refused.
    #[verifier::rlimit(60)]
    fn value_key(&mut self, mark: Mark) -> (ok: bool)
        requires
            old(self).inv(),
            old(self).tight(),
            old(self).state is Stream,
            mark == old(self).reader.spec_mark(),
            !old(self).reader.spec_is_eof(),
        ensures
            final(self).inv_with(1, 3),
            same_stream(final(self), old(self)),
            final(self).tokens_consumed == old(self).tokens_consumed,
            final(self).flow_level == old(self).flow_level,
            final(self).next_token_id + final(self).indent_stack@.len() <= 4 * old(self).reader.spec_pos() + 3,
            final(self).flow_level + final(self).indent_stack@.len() <= old(self).reader.spec_pos() + 1,
            old(self).error is Some ==> final(self).error is Some,
            !ok ==> final(self).error is Some,
            ({
                let col = mark.column as i32;
                let explicit = old(self).pending_complex_key_column >= 0 && (old(self).flow_level > 0 || col
                    <= old(self).pending_complex_key_column);
                let ks = old(self).simple_keys@;
                let has_key = ks.len() > 0 && ks.last().flow_level == old(self).flow_level;
                let sk = ks.last();
                let pos = sk.token_id - old(self).tokens_consumed;
                let inq = sk.token_id >= old(self).tokens_consumed && pos < old(self).queue@.len();
                let refused = simple_key_refused(old(self).flow_level, old(self).flow_is_mapping@, sk, mark);
                let size_ok = limit_outcome(
                    utf8_len(old(self).queue@[pos].atom.data@) as usize,
                    old(self).config.max_key_bytes,
                    seq!['k', 'e', 'y', ' ', 's', 'i', 'z', 'e'],
                ) is Ok;
                &&& explicit ==> ok && final(self).queue == old(self).queue && final(self).error == old(self).error
                &&& (!explicit && has_key && refused) ==> !ok && (final(self).error matches Some(e) && e.kind
                    == ScanErrorKind::InvalidSimpleKey)
                &&& (!explicit && has_key && !refused && !inq) ==> ok && final(self).queue == old(self).queue
                    && final(self).error == old(self).error
                &&& (!explicit && has_key && !refused && inq && size_ok && !(old(self).flow_level == 0
                    && (sk.mark.column as i32) > old(self).indent)) ==> ok && final(self).error == old(self).error
                    && final(self).queue@.len() == old(self).queue@.len() + 1 && final(self).queue@.remove(pos)
                    == old(self).queue@ && final(self).queue@[pos].kind == TokenKind::Key
                    && final(self).queue@[pos].atom.span == (Span { start: sk.mark, end: sk.mark })
                &&& (!explicit && has_key && !refused && inq && size_ok && old(self).flow_level == 0
                    && (sk.mark.column as i32) > old(self).indent) ==> {
                    &&& ok <==> (old(self).document_start_line != Some(sk.mark.line) && limit_outcome(
                        (old(self).indent_stack@.len() + 1) as usize,
                        old(self).config.max_depth,
                        seq!['d', 'e', 'p', 't', 'h'],
                    ) is Ok)
                    &&& ok ==> final(self).error == old(self).error && final(self).queue@.len()
                        == old(self).queue@.len() + 2 && final(self).queue@.remove(pos + 1).remove(pos)
                        == old(self).queue@ && final(self).queue@[pos].kind == TokenKind::BlockMappingStart
                        && final(self).queue@[pos + 1].kind == TokenKind::Key && final(self).queue@[pos
                        + 1].atom.span == (Span { start: sk.mark, end: sk.mark })
                }
                &&& (ok && final(self).error is None && !explicit && has_key) ==> old(self).error is None
                &&& (!explicit && !has_key && (old(self).flow_level > 0 || col <= old(self).indent)) ==> ok
                    && final(self).error == old(self).error && final(self).queue@ == old(self).queue@.push(
                    final(self).queue@.last(),
                ) && final(self).queue@.last().kind == TokenKind::Key && final(self).queue@.last().atom.span
                    == (Span { start: mark, end: mark })
            }),
    {
        proof {
            self.reader.lemma_wf();
        }
        let ghost p0 = self.reader.spec_pos() as int;
        let col = mark.column as i32;
        let is_explicit_key_value = self.pending_complex_key_column >= 0 && (self.flow_level > 0 || col
            <= self.pending_complex_key_column);
        if is_explicit_key_value {
            self.pending_complex_key_column = -1;
            let n = self.simple_keys.len();
            if n > 0 && self.simple_keys[n - 1].flow_level == self.flow_level {
                self.simple_keys.pop();
            }
            self.simple_key_allowed = self.flow_level == 0;
        } else {
            let n = self.simple_keys.len();
            if n > 0 && self.simple_keys[n - 1].flow_level == self.flow_level {
                let sk = self.simple_keys[n - 1];
                proof {
                    assert(key_ok(self.simple_keys@[n - 1], self.next_token_id, self.reader.byte_len()));
                }
                self.simple_keys.pop();
                if !self.resolve_simple_key(sk, mark) {
                    return false;
                }
                self.simple_key_allowed = false;
            } else {
                if self.flow_level == 0 {
                    self.roll_indent(col, true, Ghost(0), Ghost(0));
                }
                self.enqueue(marker_token(TokenKind::Key, mark, mark), Ghost(1), Ghost(2));
                self.simple_key_allowed = self.flow_level == 0;
            }
        }
        assert(self.next_token_id + self.indent_stack@.len() <= 4 * p0 + 3);
        assert(self.flow_level + self.indent_stack@.len() <= p0 + 1);
        true
    }

    /// Fetch a value indicator (`:`). A pending simple key at this flow
    /// level gets `Key` inserted before its token; without one, this is an
    /// empty key.
    #[verifier::rlimit(100)]
    fn fetch_value(&mut self)
        requires
            old(self).inv(),
            old(self).tight(),
            old(self).state is Stream,
            !old(self).reader.spec_is_eof(),
        ensures
            final(self).fetched(old(self)),
            final(self).value_fetched(old(self)),
    {
        reveal(Scanner::value_fetched);
        let ghost p0 = self.reader.spec_pos() as int;
        proof {
            if self.keys_clear() {
                assert forall|j: int| 0 <= j < self.simple_keys@.len() implies !key_blocked(*self, #[trigger] self.simple_keys@[j]) by {
                    assert(!property_key(*self, self.simple_keys@[j]));
                }
            }
        }
        self.purge_stale_simple_keys(Ghost(0), Ghost(0));
        let ghost kept = self.error is None || old(self).keys_clear();
        assert(kept ==> self.simple_keys@ == old(self).simple_keys@.filter(|sk: SimpleKey| key_kept(*old(self), sk)));
        assert(self.queue@ == old(self).queue@);
        let mark = self.mark();
        assert(mark == old(self).reader.spec_mark());
        let ghost pre = *self;
        let is_explicit_key_value = self.pending_complex_key_column >= 0 && (self.flow_level > 0 || (mark.column
            as i32) <= self.pending_complex_key_column);
        if !self.value_key(mark) {
            return;
        }
        let ghost qk = self.queue@;
        let ghost ek = self.error;
        let start = self.mark();
        self.adv();
        let end = self.mark();
        self.enqueue(marker_token(TokenKind::Value, start, end), Ghost(0), Ghost(-1));
        assert(self.queue@.drop_last() =~= qk);
        assert(self.error == ek);
        proof {
            if old(self).flow_level > 0 && qk == pre.queue@.push(qk.last()) {
                assert(self.queue@.take(old(self).queue@.len() as int) =~= old(self).queue@);
            }
        }
        if !is_explicit_key_value && self.flow_level == 0 {
            self.last_block_token_line = Some(start.line);
        }
        if self.flow_level == 0 && self.peek() == Some('\t') {
            self.set_error(ScanErrorKind::InvalidTab, "tab character used for indentation");
        }
    }
}

/// Append the reader's characters `from..to` to `out`.
fn push_range(out: &mut Vec<char>, reader: &Reader, from: usize, to: usize)
    requires
        reader.wf(),
        from <= to <= reader.input().len(),
    ensures
        final(out)@ == old(out)@ + reader.input().subrange(from as int, to as int),
{
    let ghost start = out@;
    let mut i = from;
    while i < to
        invariant
            reader.wf(),
            from <= i <= to <= reader.input().len(),
            out@ == start + reader.input().subrange(from as int, i as int),
        decreases to - i,
    {
        out.push(reader.peek_char_at_index(i));
        i = i + 1;
        assert(out@ =~= start + reader.input().subrange(from as int, i as int));
    }
}

/// Append `n` copies of `c` to `out`.
fn push_repeat(out: &mut Vec<char>, c: char, n: usize)
    ensures
        final(out)@.len() == old(out)@.len() + n,
        final(out)@ == old(out)@ + Seq::new(n as nat, |k: int| c),
{
    let mut i: usize = 0;
    while i < n
        invariant
            i <= n,
            out@.len() == old(out)@.len() + i,
            out@ == old(out)@ + Seq::new(i as nat, |k: int| c),
        decreases n - i,
    {
        out.push(c);
        i = i + 1;
    }
}

impl Scanner {
    /// Scan one line of plain scalar text, stopping at a line break, the
    /// end of input, a value indicator, a comment, or (in flow context) a
    /// flow indicator. Returns the character range of the line with
    /// trailing whitespace trimmed; the reader stays at the terminator.
    fn scan_plain_scalar_line(&mut self, is_first_line: bool) -> (r: (usize, usize))
        requires
            old(self).reader.wf(),
            old(self).reader.spec_pos() <= old(self).reader.input().len(),
            !(old(self).state is Start),
        ensures
            final(self).reader.wf(),
            final(self).reader.spec_pos() <= final(self).reader.input().len(),
            final(self).reader.input() == old(self).reader.input(),
            final(self).reader.byte_len() == old(self).reader.byte_len(),
            final(self).reader.spec_pos() >= old(self).reader.spec_pos(),
            final(self).reader.spec_mark().offset >= old(self).reader.spec_mark().offset,
            *final(self) == (Scanner { reader: final(self).reader, ..*old(self) }),
            forall|ef: int, ei: int| old(self).inv_with(ef, ei) ==> final(self).inv_with(ef, ei),
            r.0 == old(self).reader.spec_pos(),
            r.0 <= r.1 <= final(self).reader.spec_pos(),
            plain_line_starts(old(self).reader, old(self).flow_level > 0, is_first_line) ==> r.1 > r.0,
            forall|k: int| r.0 <= k < final(self).reader.spec_pos() ==> !break_char(#[trigger] old(self).reader.input()[k]),
            forall|k: int| r.1 <= k < final(self).reader.spec_pos() ==> spec_unicode_ws(#[trigger] old(self).reader.input()[k]),
            r.1 > r.0 ==> !spec_unicode_ws(old(self).reader.input()[r.1 - 1]),
    {
        let start = self.reader.pos();
        if self.peek() == Some('#') {
            return (start, start);
        }
        if is_first_line {
            let c = self.peek();
            if (c == Some('-') || c == Some('?') || c == Some(':')) && (is_blank_or_end(self.peek_at(1))
                || (self.flow_level > 0 && is_flow_indicator_opt(self.peek_at(1)))) {
                return (start, start);
            }
        }
        let mut prev_was_space = false;
        loop
            invariant
                self.reader.wf(),
                self.reader.spec_pos() <= self.reader.input().len(),
                self.reader.input() == old(self).reader.input(),
                self.reader.byte_len() == old(self).reader.byte_len(),
                self.reader.spec_pos() >= old(self).reader.spec_pos(),
                self.reader.spec_mark().offset >= old(self).reader.spec_mark().offset,
                *self == (Scanner { reader: self.reader, ..*old(self) }),
                forall|ef: int, ei: int| old(self).inv_with(ef, ei) ==> self.inv_with(ef, ei),
                start == old(self).reader.spec_pos(),
                !(self.state is Start),
                plain_line_starts(old(self).reader, old(self).flow_level > 0, is_first_line) ==> (self.reader.spec_pos() > start || !prev_was_space),
                forall|k: int| start <= k < self.reader.spec_pos() ==> !break_char(#[trigger] old(self).reader.input()[k]),
            ensures
                forall|k: int| start <= k < self.reader.spec_pos() ==> !break_char(#[trigger] old(self).reader.input()[k]),
                self.reader.wf(),
                self.reader.spec_pos() <= self.reader.input().len(),
                self.reader.input() == old(self).reader.input(),
                self.reader.byte_len() == old(self).reader.byte_len(),
                self.reader.spec_pos() >= old(self).reader.spec_pos(),
                self.reader.spec_mark().offset >= old(self).reader.spec_mark().offset,
                *self == (Scanner { reader: self.reader, ..*old(self) }),
                forall|ef: int, ei: int| old(self).inv_with(ef, ei) ==> self.inv_with(ef, ei),
                start == old(self).reader.spec_pos(),
                !(self.state is Start),
                plain_line_starts(old(self).reader, old(self).flow_level > 0, is_first_line) ==> self.reader.spec_pos() > start,
            decreases self.reader.input().len() - self.reader.spec_pos(),
        {
            let c = self.peek();
            match c {
                None => break,
                Some(ch) => {
                    if ch == '\n' || ch == '\r' {
                        break;
                    }
                    if ch == ':' && (is_blank_or_end(self.peek_at(1)) || (self.flow_level > 0
                        && is_flow_indicator_opt(self.peek_at(1)))) {
                        break;
                    }
                    if ch == '#' && prev_was_space {
                        break;
                    }
                    if self.flow_level > 0 && is_flow_indicator(ch) {
                        break;
                    }
                    prev_was_space = ch == ' ' || ch == '\t';
                    self.adv();
                },
            }
        }
        let end = self.reader.pos();
        let t = trim_end_index(self.reader.chars(), start, end);
        proof {
            if plain_line_starts(old(self).reader, old(self).flow_level > 0, is_first_line) {
                assert(self.reader.input()[start as int] == old(self).reader.spec_peek_at(0)->Some_0);
            }
        }
        (start, t)
    }

    /// Whether a continuation line follows: the reader is at a line break
    /// and the next line with content is indented at least `min_indent`,
    /// is not a document marker, and (in flow context) does not start with
    /// a flow indicator.
    fn peek_continuation(&self, min_indent: i32) -> (r: bool)
        requires
            self.reader.wf(),
            self.reader.spec_pos() <= self.reader.input().len(),
        ensures
            r == (spec_break(self.reader.spec_peek_at(0)) && continues_at(
                self.reader.input(),
                self.reader.spec_pos() + (if self.reader.spec_peek_at(0) == Some('\r')
                    && self.reader.spec_peek_at(1) == Some('\n') {
                    2int
                } else {
                    1int
                }),
                0,
                min_indent as int,
                self.flow_level > 0,
            )),
    {
        proof {
            self.reader.lemma_wf();
        }
        if !is_break_opt(self.peek()) {
            return false;
        }
        let mut i: usize = if self.peek() == Some('\r') && self.peek_at(1) == Some('\n') {
            2
        } else {
            1
        };
        let mut col: i32 = 0;
        loop
            invariant
                self.reader.wf(),
                self.reader.spec_pos() <= self.reader.input().len(),
                self.reader.input().len() <= max_input_chars(),
                1 <= i <= self.reader.input().len() - self.reader.spec_pos() + 1,
                0 <= col <= i,
                spec_break(self.reader.spec_peek_at(0)),
                continues_at(self.reader.input(), self.reader.spec_pos() + i, col as int, min_indent as int, self.flow_level > 0)
                    == continues_at(
                    self.reader.input(),
                    self.reader.spec_pos() + (if self.reader.spec_peek_at(0) == Some('\r')
                        && self.reader.spec_peek_at(1) == Some('\n') {
                        2int
                    } else {
                        1int
                    }),
                    0,
                    min_indent as int,
                    self.flow_level > 0,
                ),
            decreases self.reader.input().len() - self.reader.spec_pos() + 1 - i,
        {
            match self.peek_at(i) {
                None => return false,
                Some(c) => {
                    if c == ' ' || c == '\t' {
                        col = col + 1;
                        i = i + 1;
                    } else if c == '\n' || c == '\r' {
                        i = i + 1;
                        col = 0;
                    } else {
                        if col == 0 && (c == '-' || c == '.') && self.peek_at(i + 1) == Some(c)
                            && self.peek_at(i + 2) == Some(c) {
                            return false;
                        }
                        if self.flow_level > 0 && is_flow_indicator(c) {
                            return false;
                        }
                        return col >= min_indent;
                    }
                },
            }
        }
    }

    /// Scan a plain scalar, folding continuation lines: one line break
    /// between content lines becomes a space, each empty line a line break.
    /// Returns the text and the line of its last content character.
    #[verifier::rlimit(40)]
    fn scan_plain_scalar_text(&mut self) -> (r: (Vec<char>, u32))
        requires
            old(self).reader.wf(),
            old(self).reader.spec_pos() <= old(self).reader.input().len(),
            !(old(self).state is Start),
            col_ok(old(self).indent),
        ensures
            final(self).reader.wf(),
            final(self).reader.spec_pos() <= final(self).reader.input().len(),
            final(self).reader.input() == old(self).reader.input(),
            final(self).reader.byte_len() == old(self).reader.byte_len(),
            final(self).reader.spec_pos() >= old(self).reader.spec_pos(),
            final(self).reader.spec_mark().offset >= old(self).reader.spec_mark().offset,
            *final(self) == (Scanner { reader: final(self).reader, ..*old(self) }),
            forall|ef: int, ei: int| old(self).inv_with(ef, ei) ==> final(self).inv_with(ef, ei),
            r.0@.len() > 0 ==> final(self).reader.spec_pos() > old(self).reader.spec_pos(),
            plain_line_starts(old(self).reader, old(self).flow_level > 0, true) ==> r.0@.len() > 0 && r.0@[0]
                == old(self).reader.spec_peek_at(0)->Some_0,
            exists|segs: Seq<(int, int)>|
                plain_segments(
                    old(self).reader.input(),
                    old(self).reader.spec_pos() as int,
                    final(self).reader.spec_pos() as int,
                    segs,
                ) && r.0@ == #[trigger] plain_fold(old(self).reader.input(), segs),
    {
        let ghost s = self.reader.input();
        let ghost start0 = self.reader.spec_pos() as int;
        let (s0, e0) = self.scan_plain_scalar_line(true);
        let start_line = self.mark().line;
        let mut result: Vec<char> = Vec::new();
        push_range(&mut result, &self.reader, s0, e0);
        let ghost mut segs: Seq<(int, int)> = seq![(s0 as int, e0 as int)];
        assert(result@ =~= plain_fold(s, segs));
        assert(plain_segments(s, start0, self.reader.spec_pos() as int, segs));
        if s0 == e0 {
            return (result, start_line);
        }
        let min_indent: i32 = if self.flow_level > 0 {
            0
        } else {
            self.indent + 1
        };
        if !self.peek_continuation(min_indent) {
            return (result, start_line);
        }
        let mut empty_lines: u32 = 0;
        let mut content_end_line = start_line;
        let ghost p0 = self.reader.spec_pos();
        proof {
            self.reader.lemma_wf();
            lemma_line_breaks_none(s, e0 as int, self.reader.spec_pos() as int);
        }
        while is_break_opt(self.peek())
            invariant_except_break
                line_breaks(s, segs.last().1, self.reader.spec_pos() as int) == empty_lines,
            invariant
                self.reader.wf(),
                self.reader.spec_pos() <= self.reader.input().len(),
                self.reader.input() == old(self).reader.input(),
                self.reader.byte_len() == old(self).reader.byte_len(),
                self.reader.spec_pos() >= p0,
                p0 > old(self).reader.spec_pos(),
                self.reader.spec_mark().offset >= old(self).reader.spec_mark().offset,
                *self == (Scanner { reader: self.reader, ..*old(self) }),
                forall|ef: int, ei: int| old(self).inv_with(ef, ei) ==> self.inv_with(ef, ei),
                !(self.state is Start),
                result@.len() > 0,
                plain_line_starts(old(self).reader, old(self).flow_level > 0, true) ==> result@[0] == old(self).reader.spec_peek_at(0)->Some_0,
                empty_lines <= self.reader.spec_pos() - p0,
                self.reader.input().len() <= max_input_chars(),
                s == old(self).reader.input(),
                start0 == old(self).reader.spec_pos(),
                plain_segments(s, start0, self.reader.spec_pos() as int, segs),
                result@ == plain_fold(s, segs),
                forall|k: int| segs.last().1 <= k < self.reader.spec_pos() ==> spec_unicode_ws(#[trigger] s[k]),
            ensures
                self.reader.wf(),
                self.reader.spec_pos() <= self.reader.input().len(),
                self.reader.input() == old(self).reader.input(),
                self.reader.byte_len() == old(self).reader.byte_len(),
                self.reader.spec_pos() >= p0,
                self.reader.spec_mark().offset >= old(self).reader.spec_mark().offset,
                *self == (Scanner { reader: self.reader, ..*old(self) }),
                forall|ef: int, ei: int| old(self).inv_with(ef, ei) ==> self.inv_with(ef, ei),
                result@.len() > 0,
                plain_line_starts(old(self).reader, old(self).flow_level > 0, true) ==> result@[0] == old(self).reader.spec_peek_at(0)->Some_0,
                plain_segments(s, start0, self.reader.spec_pos() as int, segs),
                result@ == plain_fold(s, segs),
            decreases self.reader.input().len() - self.reader.spec_pos(),
        {
            let ghost iter_start = self.reader.spec_pos();
            let ghost gap0 = segs.last().1;
            proof {
                lemma_line_breaks_step(s, gap0, iter_start as int);
            }
            self.adv();
            while is_blank(self.peek())
                invariant
                    self.reader.spec_pos() > iter_start,
                    self.reader.wf(),
                    self.reader.spec_pos() <= self.reader.input().len(),
                    self.reader.input() == old(self).reader.input(),
                    self.reader.byte_len() == old(self).reader.byte_len(),
                    self.reader.spec_pos() >= p0 + empty_lines + 1,
                    p0 > old(self).reader.spec_pos(),
                    self.reader.spec_mark().offset >= old(self).reader.spec_mark().offset,
                    *self == (Scanner { reader: self.reader, ..*old(self) }),
                    forall|ef: int, ei: int| old(self).inv_with(ef, ei) ==> self.inv_with(ef, ei),
                    !(self.state is Start),
                    self.reader.input().len() <= max_input_chars(),
                    s == old(self).reader.input(),
                    gap0 == segs.last().1,
                    0 <= gap0 <= iter_start,
                    line_breaks(s, gap0, self.reader.spec_pos() as int) == empty_lines + 1,
                    forall|k: int| gap0 <= k < self.reader.spec_pos() ==> spec_unicode_ws(#[trigger] s[k]),
                decreases self.reader.input().len() - self.reader.spec_pos(),
            {
                let ghost pb = self.reader.spec_pos() as int;
                proof {
                    lemma_line_breaks_other(s, gap0, pb);
                }
                self.adv();
                assert(self.reader.spec_pos() == pb + 1);
            }
            let col = self.mark().column as i32;
            if col == 0 && (self.is_document_start() || self.is_document_end()) {
                break;
            }
            if is_break_opt(self.peek()) {
                empty_lines = empty_lines + 1;
                continue;
            }
            if self.peek().is_none() || col < min_indent {
                break;
            }
            if self.peek() == Some('#') {
                break;
            }
            let ghost before = self.reader.spec_pos() as int;
            let ghost head = self.reader.spec_peek_at(0);
            assert(!spec_blank(head) && head is Some);
            let (ls, le) = self.scan_plain_scalar_line(false);
            if ls == le {
                break;
            }
            assert(s[ls as int] != ' ' && s[ls as int] != '\t');
            let ghost r0 = result@;
            if empty_lines > 0 {
                push_repeat(&mut result, '\n', empty_lines as usize);
                empty_lines = 0;
            } else {
                result.push(' ');
            }
            push_range(&mut result, &self.reader, ls, le);
            proof {
                let nsegs = segs.push((ls as int, le as int));
                assert(nsegs.drop_last() =~= segs);
                assert(nsegs[nsegs.len() - 2] == segs.last());
                assert(r0 + quoted_fold_sep((line_breaks(s, gap0, ls as int) - 1) as nat) + s.subrange(
                    ls as int,
                    le as int,
                ) =~= result@);
                assert(plain_fold(s, nsegs) == result@);
                assert forall|i: int, k: int| 0 <= i < nsegs.len() && (#[trigger] nsegs[i]).0 <= k < nsegs[i].1
                    implies !break_char(#[trigger] s[k]) by {
                    if i < segs.len() {
                        assert(nsegs[i] == segs[i]);
                    }
                }
                assert forall|i: int, k: int| 0 < i < nsegs.len() && nsegs[i - 1].1 <= k < (#[trigger] nsegs[i]).0
                    implies spec_unicode_ws(#[trigger] s[k]) by {
                    if i < segs.len() {
                        assert(nsegs[i] == segs[i]);
                        assert(nsegs[i - 1] == segs[i - 1]);
                    }
                }
                assert forall|i: int| 0 < i < nsegs.len() implies nsegs[i - 1].1 <= (#[trigger] nsegs[i]).0
                    && line_breaks(s, nsegs[i - 1].1, nsegs[i].0) >= 1 by {
                    if i < segs.len() {
                        assert(nsegs[i] == segs[i]);
                        assert(nsegs[i - 1] == segs[i - 1]);
                    }
                }
                assert forall|i: int| 0 <= i < nsegs.len() && (#[trigger] nsegs[i]).0 < nsegs[i].1 implies !spec_unicode_ws(
                    s[nsegs[i].1 - 1],
                ) by {
                    if i < segs.len() {
                        assert(nsegs[i] == segs[i]);
                    }
                }
                assert forall|i: int| 0 < i < nsegs.len() implies (#[trigger] nsegs[i]).0 < nsegs[i].1 && s[nsegs[i].0] != ' '
                    && s[nsegs[i].0] != '\t' by {
                    if i < segs.len() {
                        assert(nsegs[i] == segs[i]);
                    }
                }
                segs = nsegs;
                lemma_line_breaks_none(s, le as int, self.reader.spec_pos() as int);
            }
            content_end_line = self.mark().line;
        }
        (result, content_end_line)
    }

    /// What fetching a plain scalar did, from `old` to `self`, when no error
    /// was recorded: one `Scalar` token was queued, whose text is the folding
    /// of the scalar's content lines over the input (see [`plain_fold`]).
    #[verifier::opaque]
    spec fn plain_fetched(&self, old: &Scanner) -> bool {
        self.error is None ==> {
            &&& self.queue@.len() == old.queue@.len() + 1
            &&& self.queue@.drop_last() == old.queue@
            &&& self.queue@.last().kind == TokenKind::Scalar
            &&& self.queue@.last().atom.style == ScalarStyle::Plain
            &&& exists|segs: Seq<(int, int)>|
                plain_segments(old.reader.input(), old.reader.spec_pos() as int, self.reader.spec_pos() as int, segs)
                    && self.queue@.last().atom.data@ == #[trigger] plain_fold(old.reader.input(), segs)
        }
    }

    /// Fetch a plain scalar token and save it as a potential simple key.
    fn fetch_plain_scalar(&mut self)
        requires
            old(self).inv(),
            old(self).tight(),
            old(self).state is Stream,
            !old(self).reader.spec_is_eof(),
        ensures
            final(self).fetched(old(self)),
            final(self).plain_fetched(old(self)),
    {
        reveal(Scanner::plain_fetched);
        let start_mark = self.mark();
        let (text, content_end_line) = self.scan_plain_scalar_text();
        let end_mark = self.mark();
        if text.len() == 0 {
            let c = match self.peek() {
                Some(c) => c,
                None => '\0',
            };
            self.adv();
            self.set_error_msg(
                ScanErrorKind::UnexpectedCharacter,
                concat_char("unexpected character '", c, "' in this context"),
            );
            return;
        }
        if self.flow_level == 0 && content_end_line > start_mark.line && self.pending_complex_key_column < 0 {
            let la = self.blank_run();
            proof {
                self.reader.lemma_wf();
            }
            if self.peek_at(la) == Some(':') && is_blank_or_end(self.peek_at(la + 1)) {
                self.set_error(ScanErrorKind::InvalidSimpleKey, "invalid multiline plain key");
                return;
            }
        }
        let data = vec_to_string(&text);
        match self.config.check_scalar_size(string_len(&data)) {
            Err(msg) => {
                self.set_error_msg(ScanErrorKind::LimitExceeded, msg);
                return;
            },
            Ok(()) => {},
        }
        let ghost q0 = self.queue@;
        let id = self.enqueue(scalar_token(data, ScalarStyle::Plain, start_mark, end_mark), Ghost(-1), Ghost(-4));
        self.save_simple_key_full(id, start_mark, content_end_line, false, Ghost(-1), Ghost(-3));
        self.simple_key_allowed = self.flow_level == 0 && end_mark.line > start_mark.line;
        assert(self.queue@.drop_last() =~= q0);
    }
}

/// Whether two character vectors are equal.
fn chars_eq(a: &Vec<char>, b: &Vec<char>) -> (r: bool)
    ensures
        r == (a@ == b@),
{
    if a.len() != b.len() {
        return false;
    }
    let mut i: usize = 0;
    while i < a.len()
        invariant
            a@.len() == b@.len(),
            i <= a@.len(),
            forall|j: int| 0 <= j < i ==> a@[j] == b@[j],
        decreases a@.len() - i,
    {
        if a[i] != b[i] {
            return false;
        }
        i = i + 1;
    }
    assert(a@ =~= b@);
    true
}


/// Whether the reader's characters `from..to` contain `c`.
fn range_contains(reader: &Reader, from: usize, to: usize, c: char) -> (r: bool)
    requires
        reader.wf(),
        from <= to <= reader.input().len(),
    ensures
        r == reader.input().subrange(from as int, to as int).contains(c),
{
    let mut j = from;
    while j < to
        invariant
            reader.wf(),
            from <= j <= to <= reader.input().len(),
            forall|k: int| from <= k < j ==> reader.input()[k] != c,
        decreases to - j,
    {
        if reader.peek_char_at_index(j) == c {
            assert(reader.input().subrange(from as int, to as int)[j - from] == c);
            return true;
        }
        j = j + 1;
    }
    assert forall|k: int| 0 <= k < to - from implies reader.input().subrange(from as int, to as int)[k]
        != c by {
        assert(reader.input().subrange(from as int, to as int)[k] == reader.input()[from + k]);
    }
    false
}

impl Scanner {
    /// For the tag at `start..end`, the named handle (`!name!`) it uses when
    /// no `%TAG` directive of this document declared it. The primary `!`,
    /// the secondary `!!` and verbatim `!<...>` tags need no declaration.
    fn undeclared_handle(&self, start: usize, end: usize) -> (r: Option<Vec<char>>)
        requires
            self.reader.wf(),
            start < end <= self.reader.input().len(),
        ensures
            match undeclared_handle_spec(self.reader.input(), start as int, end as int, self.tag_handles@) {
                None => r is None,
                Some(h) => r matches Some(v) && v@ == h,
            },
    {
        if end - start <= 1 || self.reader.peek_char_at_index(start + 1) == '<' {
            return None;
        }
        let mut j = start + 1;
        while j < end
            invariant
                self.reader.wf(),
                start < j <= end <= self.reader.input().len(),
                self.reader.input()[start + 1] != '<',
                end - start > 1,
                bang_from(self.reader.input(), start + 1, end as int) == bang_from(
                    self.reader.input(),
                    j as int,
                    end as int,
                ),
            decreases end - j,
        {
            if self.reader.peek_char_at_index(j) == '!' {
                if j == start + 1 {
                    return None;
                }
                let mut handle: Vec<char> = Vec::new();
                push_range(&mut handle, &self.reader, start, j + 1);
                if self.has_tag_handle(&handle) {
                    return None;
                }
                return Some(handle);
            }
            j = j + 1;
        }
        None
    }
}

impl Scanner {
    /// Whether `handle` was declared by a `%TAG` directive of this document.
    fn has_tag_handle(&self, handle: &Vec<char>) -> (r: bool)
        ensures
            r == exists|i: int| 0 <= i < self.tag_handles@.len() && #[trigger] self.tag_handles@[i]@ == handle@,
    {
        let mut i: usize = 0;
        while i < self.tag_handles.len()
            invariant
                i <= self.tag_handles@.len(),
                forall|k: int| 0 <= k < i ==> #[trigger] self.tag_handles@[k]@ != handle@,
            decreases self.tag_handles@.len() - i,
        {
            if chars_eq(&self.tag_handles[i], handle) {
                return true;
            }
            i = i + 1;
        }
        false
    }

    /// Advance while the next character is neither ASCII whitespace nor a
    /// flow indicator.
    fn skip_name_chars(&mut self)
        requires
            old(self).reader.wf(),
            old(self).reader.spec_pos() <= old(self).reader.input().len(),
            !(old(self).state is Start),
        ensures
            final(self).reader.wf(),
            final(self).reader.spec_pos() <= final(self).reader.input().len(),
            final(self).reader.input() == old(self).reader.input(),
            final(self).reader.byte_len() == old(self).reader.byte_len(),
            final(self).reader.spec_pos() >= old(self).reader.spec_pos(),
            final(self).reader.spec_mark().offset >= old(self).reader.spec_mark().offset,
            *final(self) == (Scanner { reader: final(self).reader, ..*old(self) }),
            forall|ef: int, ei: int| old(self).inv_with(ef, ei) ==> final(self).inv_with(ef, ei),
            final(self).reader.spec_pos() == name_end(old(self).reader.input(), old(self).reader.spec_pos() as int),
    {
        loop
            invariant
                self.reader.wf(),
                self.reader.spec_pos() <= self.reader.input().len(),
                self.reader.input() == old(self).reader.input(),
                self.reader.byte_len() == old(self).reader.byte_len(),
                self.reader.spec_pos() >= old(self).reader.spec_pos(),
                self.reader.spec_mark().offset >= old(self).reader.spec_mark().offset,
                *self == (Scanner { reader: self.reader, ..*old(self) }),
                forall|ef: int, ei: int| old(self).inv_with(ef, ei) ==> self.inv_with(ef, ei),
                !(self.state is Start),
                name_end(self.reader.input(), self.reader.spec_pos() as int) == name_end(
                    old(self).reader.input(),
                    old(self).reader.spec_pos() as int,
                ),
            ensures
                self.reader.wf(),
                self.reader.spec_pos() <= self.reader.input().len(),
                self.reader.input() == old(self).reader.input(),
                self.reader.byte_len() == old(self).reader.byte_len(),
                self.reader.spec_pos() >= old(self).reader.spec_pos(),
                self.reader.spec_mark().offset >= old(self).reader.spec_mark().offset,
                *self == (Scanner { reader: self.reader, ..*old(self) }),
                forall|ef: int, ei: int| old(self).inv_with(ef, ei) ==> self.inv_with(ef, ei),
                !(self.state is Start),
                self.reader.spec_pos() == name_end(old(self).reader.input(), old(self).reader.spec_pos() as int),
            decreases self.reader.input().len() - self.reader.spec_pos(),
        {
            match self.peek() {
                None => break,
                Some(c) => {
                    if is_ascii_ws(c) || is_flow_indicator(c) {
                        break;
                    }
                    self.adv();
                },
            }
        }
    }

    /// Advance over the body of a tag after its first `!`: a verbatim
    /// `<...>`, or a handle and suffix up to whitespace or a flow indicator.
    fn skip_tag_body(&mut self)
        requires
            old(self).reader.wf(),
            old(self).reader.spec_pos() <= old(self).reader.input().len(),
            !(old(self).state is Start),
        ensures
            final(self).reader.wf(),
            final(self).reader.spec_pos() <= final(self).reader.input().len(),
            final(self).reader.input() == old(self).reader.input(),
            final(self).reader.byte_len() == old(self).reader.byte_len(),
            final(self).reader.spec_pos() >= old(self).reader.spec_pos(),
            final(self).reader.spec_mark().offset >= old(self).reader.spec_mark().offset,
            *final(self) == (Scanner { reader: final(self).reader, ..*old(self) }),
            forall|ef: int, ei: int| old(self).inv_with(ef, ei) ==> final(self).inv_with(ef, ei),
            final(self).reader.spec_pos() == (match old(self).reader.spec_peek_at(0) {
                Some(c) => if c == '<' {
                    verbatim_end(old(self).reader.input(), old(self).reader.spec_pos() + 1int)
                } else if c == '!' {
                    name_end(old(self).reader.input(), old(self).reader.spec_pos() + 1int)
                } else {
                    name_end(old(self).reader.input(), old(self).reader.spec_pos() as int)
                },
                None => old(self).reader.spec_pos() as int,
            }),
    {
        match self.peek() {
            Some(c) => {
                if c == '<' {
                    self.adv();
                    let ghost p1 = self.reader.spec_pos() as int;
                    loop
                        invariant_except_break
                            verbatim_end(self.reader.input(), self.reader.spec_pos() as int) == verbatim_end(
                                self.reader.input(),
                                p1,
                            ),
                        invariant
                            self.reader.wf(),
                            self.reader.spec_pos() <= self.reader.input().len(),
                            self.reader.input() == old(self).reader.input(),
                            self.reader.byte_len() == old(self).reader.byte_len(),
                            self.reader.spec_pos() >= old(self).reader.spec_pos(),
                            self.reader.spec_mark().offset >= old(self).reader.spec_mark().offset,
                            *self == (Scanner { reader: self.reader, ..*old(self) }),
                            forall|ef: int, ei: int| old(self).inv_with(ef, ei) ==> self.inv_with(ef, ei),
                            !(self.state is Start),
                        ensures
                            self.reader.wf(),
                            self.reader.spec_pos() <= self.reader.input().len(),
                            self.reader.input() == old(self).reader.input(),
                            self.reader.byte_len() == old(self).reader.byte_len(),
                            self.reader.spec_pos() >= old(self).reader.spec_pos(),
                            self.reader.spec_mark().offset >= old(self).reader.spec_mark().offset,
                            *self == (Scanner { reader: self.reader, ..*old(self) }),
                            forall|ef: int, ei: int| old(self).inv_with(ef, ei) ==> self.inv_with(ef, ei),
                            !(self.state is Start),
                            self.reader.spec_pos() == verbatim_end(self.reader.input(), p1),
                        decreases self.reader.input().len() - self.reader.spec_pos(),
                    {
                        match self.peek() {
                            None => break,
                            Some(d) => {
                                let ghost p0 = self.reader.spec_pos() as int;
                                self.adv();
                                proof {
                                    let t = self.reader.input();
                                    if d == '\r' && p0 + 1 < t.len() && t[p0 + 1] == '\n' {
                                        assert(verbatim_end(t, p0) == verbatim_end(t, p0 + 1));
                                    }
                                }
                                if d == '>' {
                                    break;
                                }
                            },
                        }
                    }
                } else if c == '!' {
                    self.adv();
                    self.skip_name_chars();
                } else if !is_ascii_ws(c) && !is_flow_indicator(c) {
                    self.skip_name_chars();
                }
            },
            None => {},
        }
    }

    /// Fetch a tag (`!`, `!!suffix`, `!handle!suffix`, `!<uri>`). A named
    /// handle must have been declared by `%TAG`; percent-escapes in the tag
    /// are decoded.
    fn fetch_tag(&mut self)
        requires
            old(self).inv(),
            old(self).tight(),
            old(self).state is Stream,
            !old(self).reader.spec_is_eof(),
        ensures
            final(self).fetched(old(self)),
    {
        let start_mark = self.mark();
        let start_pos = self.reader.pos();
        self.adv();
        self.skip_tag_body();
        let end_mark = self.mark();
        let end_pos = self.reader.pos();
        match self.peek() {
            None => {},
            Some(c) => {
                if !(c == ' ' || c == '\t' || c == '\n' || c == '\r' || (self.flow_level > 0 && is_flow_indicator(c))) {
                    self.set_error_msg(ScanErrorKind::InvalidTag, concat_char("invalid character '", c, "' after tag"));
                    return;
                }
            },
        }
        match self.undeclared_handle(start_pos, end_pos) {
            Some(handle) => {
                let mut msg = str_to_string("undeclared tag handle '");
                let hs = vec_to_string(&handle);
                push_str(&mut msg, hs.as_str());
                msg.push('\'');
                self.set_error_msg(ScanErrorKind::InvalidTag, msg);
                return;
            },
            None => {},
        }
        let raw = self.reader.slice_chars(start_pos, end_pos);
        let has_pct = range_contains(&self.reader, start_pos, end_pos, '%');
        let data = if has_pct {
            decode_tag_uri(raw.as_str())
        } else {
            raw
        };
        let id = self.enqueue(data_token(TokenKind::Tag, data, start_mark, end_mark), Ghost(-1), Ghost(-4));
        self.save_simple_key(id, start_mark, Ghost(-1), Ghost(-3));
        self.simple_key_allowed = false;
    }

    /// Fetch an anchor (`&name`) or alias (`*name`); the name ends at
    /// whitespace or a flow indicator.
    fn fetch_anchor_or_alias(&mut self, indicator: char)
        requires
            old(self).inv(),
            old(self).tight(),
            old(self).state is Stream,
            !old(self).reader.spec_is_eof(),
        ensures
            final(self).fetched(old(self)),
    {
        let start_mark = self.mark();
        let kind = if indicator == '&' {
            TokenKind::Anchor
        } else {
            TokenKind::Alias
        };
        self.adv();
        let name_start = self.mark();
        let name_start_pos = self.reader.pos();
        self.skip_name_chars();
        let name_end = self.mark();
        let name = self.reader.slice_chars(name_start_pos, self.reader.pos());
        let id = self.enqueue(data_token(kind, name, name_start, name_end), Ghost(-1), Ghost(-4));
        self.save_simple_key(id, start_mark, Ghost(-1), Ghost(-3));
        self.simple_key_allowed = false;
        if self.flow_level == 0 {
            self.last_block_token_line = Some(start_mark.line);
        }
    }
}

/// `16` to the power `i`.
spec fn pow16(i: nat) -> nat
    decreases i,
{
    if i == 0 {
        1
    } else {
        16 * pow16((i - 1) as nat)
    }
}

proof fn lemma_pow16_bound(i: nat)
    requires
        i <= 8,
    ensures
        1 <= pow16(i) <= 0x1_0000_0000,
    decreases 8 - i,
{
    if i < 8 {
        lemma_pow16_bound(i + 1);
        assert(pow16(i + 1) == 16 * pow16(i));
    } else {
        reveal_with_fuel(pow16, 9);
    }
}

impl Scanner {
    /// Read `n` hex digits (`n <= 8`) and return the character with that
    /// code, if it is one. Stops early, without a character, at a non-hex
    /// character.
    fn scan_unicode_escape(&mut self, n: usize) -> (r: Option<char>)
        requires
            old(self).reader.wf(),
            old(self).reader.spec_pos() <= old(self).reader.input().len(),
            !(old(self).state is Start),
            n <= 8,
        ensures
            final(self).reader.wf(),
            final(self).reader.spec_pos() <= final(self).reader.input().len(),
            final(self).reader.input() == old(self).reader.input(),
            final(self).reader.byte_len() == old(self).reader.byte_len(),
            final(self).reader.spec_pos() >= old(self).reader.spec_pos(),
            final(self).reader.spec_mark().offset >= old(self).reader.spec_mark().offset,
            *final(self) == (Scanner { reader: final(self).reader, ..*old(self) }),
            forall|ef: int, ei: int| old(self).inv_with(ef, ei) ==> final(self).inv_with(ef, ei),
            match hex_code(old(self).reader.input(), old(self).reader.spec_pos() as int, n as nat) {
                Some(v) => (r is Some <==> is_scalar(v as u32)) && (r matches Some(c) ==> c as u32 == v),
                None => r is None,
            },
            final(self).reader.spec_pos() == old(self).reader.spec_pos() + hex_run(
                old(self).reader.input(),
                old(self).reader.spec_pos() as int,
                n as nat,
            ),
    {
        let ghost s = self.reader.input();
        let ghost p0 = self.reader.spec_pos() as int;
        let mut code: u32 = 0;
        let mut i: usize = 0;
        while i < n
            invariant
                self.reader.wf(),
                self.reader.spec_pos() <= self.reader.input().len(),
                self.reader.input() == old(self).reader.input(),
                self.reader.byte_len() == old(self).reader.byte_len(),
                self.reader.spec_pos() >= old(self).reader.spec_pos(),
                self.reader.spec_mark().offset >= old(self).reader.spec_mark().offset,
                *self == (Scanner { reader: self.reader, ..*old(self) }),
                forall|ef: int, ei: int| old(self).inv_with(ef, ei) ==> self.inv_with(ef, ei),
                !(self.state is Start),
                i <= n <= 8,
                code < pow16(i as nat),
                hex_code(self.reader.input(), old(self).reader.spec_pos() as int, i as nat) == Some(code as nat),
                self.reader.spec_pos() == old(self).reader.spec_pos() + i,
                s == old(self).reader.input(),
                p0 == old(self).reader.spec_pos(),
                i + hex_run(s, p0 + i, (n - i) as nat) == hex_run(s, p0, n as nat),
            decreases n - i,
        {
            let c = match self.peek() {
                Some(c) => c,
                None => {
                    proof {
                        lemma_hex_code_none(self.reader.input(), old(self).reader.spec_pos() as int, (i + 1) as nat, n as nat);
                        assert(hex_run(s, p0 + i, (n - i) as nat) == 0);
                    }
                    return None;
                },
            };
            let d = match hex_value(c) {
                Some(d) => d,
                None => {
                    proof {
                        lemma_hex_code_none(self.reader.input(), old(self).reader.spec_pos() as int, (i + 1) as nat, n as nat);
                        assert(hex_run(s, p0 + i, (n - i) as nat) == 0);
                    }
                    return None;
                },
            };
            assert(hex_run(s, p0 + i, (n - i) as nat) == 1 + hex_run(s, p0 + i + 1, (n - i - 1) as nat));
            proof {
                lemma_pow16_bound((i + 1) as nat);
                assert(pow16((i + 1) as nat) == 16 * pow16(i as nat));
            }
            code = code * 16 + d;
            self.adv();
            i = i + 1;
        }
        char_from_u32(code)
    }

    /// At a line break inside a quoted scalar: drop trailing blanks of the
    /// line (beyond `fence`, the escape-produced content), consume the break
    /// and following blank lines, and append a space or one line break per
    /// empty line. Rejects document markers, (for double quotes) a tab
    /// starting the line, and continuation lines below the block indent.
    /// Returns `false` when an error was recorded.
    fn fold_quoted_break(&mut self, result: &mut Vec<char>, fence: usize, quote: char, double: bool) -> (ok: bool)
        requires
            old(self).reader.wf(),
            old(self).reader.spec_pos() <= old(self).reader.input().len(),
            !old(self).reader.spec_is_eof(),
            break_char(old(self).reader.input()[old(self).reader.spec_pos() as int]),
            !(old(self).state is Start),
            col_ok(old(self).indent),
        ensures
            ok ==> final(result)@ == trim_blanks(old(result)@, fence as int) + quoted_fold_sep(
                fold_scan(old(self).reader.input(), next_pos(old(self).reader.input(), old(self).reader.spec_pos() as int), 0).1,
            ),
            ok ==> final(self).error == old(self).error,
            ok ==> final(self).reader.spec_pos() == fold_scan(
                old(self).reader.input(),
                next_pos(old(self).reader.input(), old(self).reader.spec_pos() as int),
                0,
            ).0,
            final(self).reader.wf(),
            final(self).reader.spec_pos() <= final(self).reader.input().len(),
            final(self).reader.input() == old(self).reader.input(),
            final(self).reader.byte_len() == old(self).reader.byte_len(),
            final(self).reader.spec_pos() >= old(self).reader.spec_pos(),
            final(self).reader.spec_mark().offset >= old(self).reader.spec_mark().offset,
            final(self).reader.spec_pos() > old(self).reader.spec_pos(),
            *final(self) == (Scanner { reader: final(self).reader, error: final(self).error, ..*old(self) }),
            forall|ef: int, ei: int| old(self).inv_with(ef, ei) ==> final(self).inv_with(ef, ei),
            old(self).error is Some ==> final(self).error is Some,
            !ok ==> final(self).error is Some,
            ok <==> quoted_fold_error(
                old(self).reader.input(),
                old(self).reader.spec_pos() as int,
                quote,
                double,
                old(self).indent as int,
                old(self).flow_level as int,
            ) is None,
            !ok ==> (final(self).error matches Some(e) && e.kind == quoted_fold_error(
                old(self).reader.input(),
                old(self).reader.spec_pos() as int,
                quote,
                double,
                old(self).indent as int,
                old(self).flow_level as int,
            )->Some_0),
    {
        let ghost s = self.reader.input();
        while result.len() > fence && (result[result.len() - 1] == ' ' || result[result.len() - 1] == '\t')
            invariant
                trim_blanks(result@, fence as int) == trim_blanks(old(result)@, fence as int),
            decreases result@.len(),
        {
            result.pop();
        }
        assert(trim_blanks(result@, fence as int) == result@);
        let ghost r0 = result@;
        self.adv();
        proof {
            self.reader.lemma_wf();
        }
        let ghost q0 = self.reader.spec_pos() as int;
        assert(q0 == next_pos(s, old(self).reader.spec_pos() as int));
        assert(self.reader.spec_mark().column == 0);
        let ghost ferr = quoted_fold_error(s, old(self).reader.spec_pos() as int, quote, double, old(self).indent as int, old(self).flow_level as int);
        let br = self.blank_run();
        let ds = self.is_document_start();
        let de = self.is_document_end();
        proof {
            assert(ds == triple_at(s, q0, '-'));
            assert(de == triple_at(s, q0, '.'));
            if ds || de {
                assert(blank_end(s, q0) == q0);
            }
        }
        if br == 0 && self.mark().column == 0 && (ds || de) {
            if double {
                self.set_error(ScanErrorKind::DocumentMarkerInScalar, "document marker inside double-quoted scalar");
            } else {
                self.set_error(ScanErrorKind::DocumentMarkerInScalar, "document marker inside single-quoted scalar");
            }
            return false;
        }
        if double && self.peek() == Some('\t') && self.mark().column == 0 {
            self.set_error(ScanErrorKind::InvalidTab, "invalid tab used as indentation");
            return false;
        }
        assert(!(ds || de));
        let ghost p1 = self.reader.spec_pos();
        let mut empty_lines: usize = 0;
        loop
            invariant
                self.reader.wf(),
                self.reader.spec_pos() <= self.reader.input().len(),
                self.reader.input() == old(self).reader.input(),
                self.reader.byte_len() == old(self).reader.byte_len(),
                self.reader.spec_pos() >= old(self).reader.spec_pos(),
                self.reader.spec_mark().offset >= old(self).reader.spec_mark().offset,
                *self == (Scanner { reader: self.reader, ..*old(self) }),
                forall|ef: int, ei: int| old(self).inv_with(ef, ei) ==> self.inv_with(ef, ei),
                !(self.state is Start),
                self.reader.spec_pos() > old(self).reader.spec_pos(),
                self.reader.spec_pos() >= p1,
                empty_lines <= self.reader.spec_pos() - p1,
                self.reader.input().len() <= max_input_chars(),
                fold_scan(s, self.reader.spec_pos() as int, empty_lines as nat) == fold_scan(s, q0, 0),
                fold_col(s, self.reader.spec_pos() as int, self.reader.spec_mark().column as nat) == fold_col(s, q0, 0),
                result@ == r0,
                s == old(self).reader.input(),
            ensures
                fold_scan(s, q0, 0) == (self.reader.spec_pos() as int, empty_lines as nat),
                fold_col(s, q0, 0) == self.reader.spec_mark().column,
            decreases self.reader.input().len() - self.reader.spec_pos(),
        {
            let ghost iter_start = self.reader.spec_pos();
            while is_blank(self.peek())
                invariant
                    self.reader.wf(),
                    self.reader.spec_pos() <= self.reader.input().len(),
                    self.reader.input() == old(self).reader.input(),
                    self.reader.byte_len() == old(self).reader.byte_len(),
                    self.reader.spec_pos() >= old(self).reader.spec_pos(),
                    self.reader.spec_mark().offset >= old(self).reader.spec_mark().offset,
                    *self == (Scanner { reader: self.reader, ..*old(self) }),
                    forall|ef: int, ei: int| old(self).inv_with(ef, ei) ==> self.inv_with(ef, ei),
                    !(self.state is Start),
                    self.reader.spec_pos() > old(self).reader.spec_pos(),
                    self.reader.spec_pos() >= iter_start,
                    self.reader.spec_pos() >= p1,
                    empty_lines <= self.reader.spec_pos() - p1,
                    self.reader.input().len() <= max_input_chars(),
                    fold_scan(s, self.reader.spec_pos() as int, empty_lines as nat) == fold_scan(s, q0, 0),
                    fold_col(s, self.reader.spec_pos() as int, self.reader.spec_mark().column as nat) == fold_col(s, q0, 0),
                    result@ == r0,
                    s == old(self).reader.input(),
                decreases self.reader.input().len() - self.reader.spec_pos(),
            {
                let ghost pb = self.reader.spec_pos() as int;
                let ghost cb = self.reader.spec_mark().column as nat;
                assert(blank_char(s[pb]));
                self.adv();
                assert(self.reader.spec_pos() == pb + 1);
                assert(self.reader.spec_mark().column == cb + 1);
                assert(fold_scan(s, pb, empty_lines as nat) == fold_scan(s, pb + 1, empty_lines as nat));
                assert(fold_col(s, pb, cb) == fold_col(s, pb + 1, cb + 1));
            }
            let ghost pc = self.reader.spec_pos() as int;
            if is_break_opt(self.peek()) {
                assert(break_char(s[pc]) && !blank_char(s[pc]));
                assert(fold_scan(s, pc, empty_lines as nat) == fold_scan(s, next_pos(s, pc), (empty_lines + 1) as nat));
                assert(fold_col(s, pc, self.reader.spec_mark().column as nat) == fold_col(s, next_pos(s, pc), 0));
                empty_lines = empty_lines + 1;
                self.adv();
                assert(self.reader.spec_pos() == next_pos(s, pc));
                assert(self.reader.spec_mark().column == 0);
            } else {
                assert(fold_scan(s, pc, empty_lines as nat) == (pc, empty_lines as nat));
                assert(fold_col(s, pc, self.reader.spec_mark().column as nat) == self.reader.spec_mark().column);
                break;
            }
        }
        if self.flow_level == 0 {
            let min_indent: u32 = if self.indent + 1 > 0 {
                (self.indent + 1) as u32
            } else {
                0
            };
            if self.mark().column < min_indent && self.peek() != Some(quote) {
                if double {
                    self.set_error(
                        ScanErrorKind::InvalidIndentation,
                        "double-quoted scalar continuation below block indent",
                    );
                } else {
                    self.set_error(
                        ScanErrorKind::InvalidIndentation,
                        "single-quoted scalar continuation below block indent",
                    );
                }
                return false;
            }
        }
        if empty_lines > 0 {
            push_repeat(result, '\n', empty_lines);
        } else {
            result.push(' ');
            assert(result@ == r0 + seq![' ']);
        }
        true
    }

    /// Queue a quoted scalar, save it as a potential simple key, and check
    /// what follows it on the line in block context.
    fn push_quoted_scalar(&mut self, data: String, style: ScalarStyle, start_mark: Mark, end_mark: Mark)
        requires
            old(self).inv_with(-1, -4),
            old(self).state is Stream,
            span_ok(Span { start: start_mark, end: end_mark }, old(self).reader.byte_len()),
            start_mark.column <= max_input_chars(),
        ensures
            final(self).inv(),
            final(self).reader == old(self).reader,
            final(self).tokens_consumed == old(self).tokens_consumed,
            final(self).state == old(self).state,
            final(self).queue@.len() == old(self).queue@.len() + 1,
            final(self).queue@.drop_last() == old(self).queue@,
            final(self).queue@.last().kind == TokenKind::Scalar,
            final(self).queue@.last().atom.data == data,
            final(self).queue@.last().atom.style == style,
            final(self).queue@.last().atom.span == (Span { start: start_mark, end: end_mark }),
            final(self).simple_key_allowed == (old(self).flow_level == 0 && end_mark.line > start_mark.line),
            final(self).flow_level == old(self).flow_level,
            old(self).flow_level > 0 ==> final(self).adjacent_value_offset == Some(old(self).reader.spec_mark().offset),
            (old(self).error is None && old(self).keys_clear() && (old(self).flow_level > 0 || quoted_tail_ok(
                old(self).reader.input(),
                old(self).reader.spec_pos() as int,
            ))) ==> final(self).error is None,
    {
        let id = self.enqueue(scalar_token(data, style, start_mark, end_mark), Ghost(-1), Ghost(-4));
        proof {
            if old(self).keys_clear() {
                assert forall|j: int| 0 <= j < self.simple_keys@.len() implies !property_key(*self, #[trigger] self.simple_keys@[j]) by {
                    assert(!property_key(*old(self), old(self).simple_keys@[j]));
                    let k = self.simple_keys@[j].token_id - self.tokens_consumed;
                    if 0 <= k < old(self).queue@.len() {
                        assert(self.queue@[k] == old(self).queue@[k]);
                    }
                }
            }
        }
        self.save_simple_key_ext(id, start_mark, true, Ghost(-1), Ghost(-3));
        self.simple_key_allowed = self.flow_level == 0 && end_mark.line > start_mark.line;
        if self.flow_level > 0 {
            self.adjacent_value_offset = Some(self.mark().offset);
            return;
        }
        let la = self.blank_run();
        match self.peek_at(la) {
            None => {},
            Some(c) => {
                if !(c == '\n' || c == '\r' || c == ':' || (c == '#' && la > 0)) {
                    self.set_error_msg(
                        ScanErrorKind::UnexpectedContent,
                        concat_char("invalid trailing content '", c, "' after quoted scalar"),
                    );
                }
            },
        }
    }

    /// What fetching a single-quoted scalar did, from `old` to `self`.
    #[verifier::opaque]
    spec fn single_quoted_fetched(&self, old: &Scanner) -> bool {
        let q = single_quoted_scan(
            old.reader.input(),
            next_pos(old.reader.input(), old.reader.spec_pos() as int),
            Seq::empty(),
            old.indent as int,
            old.flow_level as int,
        );
        &&& q.2 is Some ==> (self.error matches Some(e) && e.kind == q.2->Some_0)
        &&& (old.error is None && q.2 is None && limit_outcome(
            utf8_len(q.0) as usize,
            old.config.max_scalar_bytes,
            seq!['s', 'c', 'a', 'l', 'a', 'r', ' ', 's', 'i', 'z', 'e'],
        ) is Err) ==> (self.error matches Some(e) && e.kind == ScanErrorKind::LimitExceeded)
        &&& (old.error is None && q.2 is None && limit_outcome(
            utf8_len(q.0) as usize,
            old.config.max_scalar_bytes,
            seq!['s', 'c', 'a', 'l', 'a', 'r', ' ', 's', 'i', 'z', 'e'],
        ) is Ok && old.keys_clear() && (old.flow_level > 0 || quoted_tail_ok(old.reader.input(), q.1)))
            ==> self.error is None
        &&& self.error is None ==> {
            &&& self.queue@.len() == old.queue@.len() + 1
            &&& self.queue@.drop_last() == old.queue@
            &&& self.queue@.last().kind == TokenKind::Scalar
            &&& self.queue@.last().atom.data@ == q.0
            &&& self.queue@.last().atom.style == ScalarStyle::SingleQuoted
            &&& self.reader.spec_pos() == q.1
        }
    }

    /// Fetch a single-quoted scalar; `''` stands for `'`.
    fn fetch_single_quoted_scalar(&mut self)
        requires
            old(self).inv(),
            old(self).tight(),
            old(self).state is Stream,
            !old(self).reader.spec_is_eof(),
        ensures
            final(self).fetched(old(self)),
            final(self).single_quoted_fetched(old(self)),
    {
        reveal(Scanner::single_quoted_fetched);
        let ghost s = self.reader.input();
        let start_mark = self.mark();
        self.adv();
        let mut result: Vec<char> = Vec::new();
        let ghost ind = old(self).indent as int;
        let ghost fl = old(self).flow_level as int;
        let ghost target = single_quoted_scan(s, self.reader.spec_pos() as int, result@, ind, fl);
        assert(target == single_quoted_scan(s, next_pos(s, old(self).reader.spec_pos() as int), Seq::empty(), ind, fl));
        loop
            invariant_except_break
                self.step_post(old(self), 0, 0),
                self.state is Stream,
                self.reader.spec_pos() > old(self).reader.spec_pos(),
                self.reader.spec_mark().offset >= start_mark.offset,
                *self == (Scanner { reader: self.reader, error: self.error, ..*old(self) }),
                old(self).inv(),
                old(self).tight(),
                s == old(self).reader.input(),
                single_quoted_scan(s, self.reader.spec_pos() as int, result@, ind, fl) == target,
                target == single_quoted_scan(s, next_pos(s, old(self).reader.spec_pos() as int), Seq::empty(), ind, fl),
                ind == old(self).indent as int,
                fl == old(self).flow_level as int,
                self.error == old(self).error,
            ensures
                self.step_post(old(self), 0, 0),
                self.state is Stream,
                self.reader.spec_pos() > old(self).reader.spec_pos(),
                self.reader.spec_mark().offset >= start_mark.offset,
                *self == (Scanner { reader: self.reader, error: self.error, ..*old(self) }),
                target == (result@, self.reader.spec_pos() as int, None::<ScanErrorKind>),
                self.error == old(self).error,
            decreases self.reader.input().len() - self.reader.spec_pos(),
        {
            reveal(Scanner::single_quoted_fetched);
            let ghost p = self.reader.spec_pos() as int;
            match self.peek() {
                None => {
                    self.set_error(ScanErrorKind::UnterminatedScalar, "unterminated single-quoted scalar");
                    return;
                },
                Some(c) => {
                    if c == '\'' {
                        self.adv();
                        if self.peek() == Some('\'') {
                            self.adv();
                            result.push('\'');
                            assert(self.reader.spec_pos() == p + 2);
                        } else {
                            break;
                        }
                    } else if c == '\n' || c == '\r' {
                        if !self.fold_quoted_break(&mut result, 0, '\'', false) {
                            return;
                        }
                    } else {
                        result.push(c);
                        self.adv();
                    }
                },
            }
        }
        let end_mark = self.mark();
        let data = vec_to_string(&result);
        match self.config.check_scalar_size(string_len(&data)) {
            Err(msg) => {
                self.set_error_msg(ScanErrorKind::LimitExceeded, msg);
                return;
            },
            Ok(()) => {},
        }
        self.push_quoted_scalar(data, ScalarStyle::SingleQuoted, start_mark, end_mark);
    }
}

impl Scanner {
    /// Decode one escape sequence of a double-quoted scalar (the reader is
    /// just past the backslash), appending what it stands for. An escaped
    /// line break joins the lines. Returns `false` when an error was
    /// recorded.
    fn scan_escape(&mut self, result: &mut Vec<char>) -> (ok: bool)
        requires
            old(self).reader.wf(),
            old(self).reader.spec_pos() <= old(self).reader.input().len(),
            !(old(self).state is Start),
        ensures
            final(self).reader.wf(),
            final(self).reader.spec_pos() <= final(self).reader.input().len(),
            final(self).reader.input() == old(self).reader.input(),
            final(self).reader.byte_len() == old(self).reader.byte_len(),
            final(self).reader.spec_pos() >= old(self).reader.spec_pos(),
            final(self).reader.spec_mark().offset >= old(self).reader.spec_mark().offset,
            *final(self) == (Scanner { reader: final(self).reader, error: final(self).error, ..*old(self) }),
            forall|ef: int, ei: int| old(self).inv_with(ef, ei) ==> final(self).inv_with(ef, ei),
            old(self).error is Some ==> final(self).error is Some,
            !ok ==> final(self).error is Some,
            old(self).reader.spec_peek_at(0) is None ==> !ok && (final(self).error matches Some(er) && er.kind
                == ScanErrorKind::UnterminatedScalar),
            (old(self).reader.spec_peek_at(0) matches Some(e) && spec_simple_escape(e) is Some) ==> ok
                && final(result)@ == old(result)@.push(
                spec_simple_escape(old(self).reader.input()[old(self).reader.spec_pos() as int])->Some_0,
            ),
            (old(self).reader.spec_peek_at(0) matches Some(e) && spec_simple_escape(e) is None && (e == 'x' || e
                == 'u' || e == 'U')) ==> ok && match hex_code(
                old(self).reader.input(),
                old(self).reader.spec_pos() + 1int,
                escape_len(old(self).reader.input()[old(self).reader.spec_pos() as int]),
            ) {
                Some(v) => if is_scalar(v as u32) {
                    final(result)@.len() == old(result)@.len() + 1 && final(result)@.drop_last() == old(result)@
                        && final(result)@.last() as u32 == v as u32
                } else {
                    final(result)@ == old(result)@
                },
                None => final(result)@ == old(result)@,
            },
            (old(self).reader.spec_peek_at(0) matches Some(e) && spec_simple_escape(e) is None && (e == '\n' || e
                == '\r')) ==> ok && final(result)@ == old(result)@,
            (old(self).reader.spec_peek_at(0) matches Some(e) && spec_simple_escape(e) is None && !(e == 'x' || e
                == 'u' || e == 'U' || e == '\n' || e == '\r')) ==> !ok && final(result)@ == old(result)@ && (final(self).error matches Some(er) && er.kind == ScanErrorKind::InvalidEscape),
            ok ==> final(self).error == old(self).error,
            (old(self).reader.spec_peek_at(0) matches Some(e) && spec_simple_escape(e) is Some) ==> final(self).reader.spec_pos()
                == old(self).reader.spec_pos() + 1,
            (old(self).reader.spec_peek_at(0) matches Some(e) && spec_simple_escape(e) is None && (e == 'x' || e
                == 'u' || e == 'U')) ==> final(result)@ == old(result)@ + hex_escape_text(
                old(self).reader.input(),
                old(self).reader.spec_pos() + 1int,
                escape_len(old(self).reader.input()[old(self).reader.spec_pos() as int]),
            ) && final(self).reader.spec_pos() == old(self).reader.spec_pos() + 1 + hex_run(
                old(self).reader.input(),
                old(self).reader.spec_pos() + 1int,
                escape_len(old(self).reader.input()[old(self).reader.spec_pos() as int]),
            ),
            (old(self).reader.spec_peek_at(0) matches Some(e) && spec_simple_escape(e) is None && break_char(e))
                ==> final(self).reader.spec_pos() == skip_blanks(
                old(self).reader.input(),
                next_pos(old(self).reader.input(), old(self).reader.spec_pos() as int),
            ),
    {
        let ghost s = self.reader.input();
        let ghost p0 = self.reader.spec_pos() as int;
        let e = match self.peek() {
            Some(e) => e,
            None => {
                self.set_error(ScanErrorKind::UnterminatedScalar, "unterminated escape in double-quoted scalar");
                return false;
            },
        };
        match simple_escape(e) {
            Some(ch) => {
                result.push(ch);
                self.adv();
                true
            },
            None => {
                if e == 'x' || e == 'u' || e == 'U' {
                    self.adv();
                    let n: usize = if e == 'x' {
                        2
                    } else if e == 'u' {
                        4
                    } else {
                        8
                    };
                    assert(n == escape_len(e));
                    match self.scan_unicode_escape(n) {
                        Some(ch) => {
                            result.push(ch);
                            proof {
                                let v = hex_code(s, p0 + 1, n as nat)->Some_0;
                                assert(ch as u32 == v);
                                lemma_char_of_code(ch, v);
                                assert(result@ == old(result)@ + seq![ch]);
                            }
                        },
                        None => {},
                    }
                    true
                } else if e == '\n' || e == '\r' {
                    self.adv();
                    let ghost q0 = self.reader.spec_pos() as int;
                    assert(q0 == next_pos(s, p0));
                    while is_blank(self.peek())
                        invariant
                            self.reader.wf(),
                            self.reader.spec_pos() <= self.reader.input().len(),
                            self.reader.input() == old(self).reader.input(),
                            self.reader.byte_len() == old(self).reader.byte_len(),
                            self.reader.spec_pos() >= old(self).reader.spec_pos(),
                            self.reader.spec_mark().offset >= old(self).reader.spec_mark().offset,
                            *self == (Scanner { reader: self.reader, ..*old(self) }),
                            forall|ef: int, ei: int| old(self).inv_with(ef, ei) ==> self.inv_with(ef, ei),
                            !(self.state is Start),
                            s == old(self).reader.input(),
                            skip_blanks(s, self.reader.spec_pos() as int) == skip_blanks(s, q0),
                        decreases self.reader.input().len() - self.reader.spec_pos(),
                    {
                        let ghost pb = self.reader.spec_pos() as int;
                        assert(blank_char(s[pb]));
                        self.adv();
                        assert(self.reader.spec_pos() == pb + 1);
                    }
                    assert(skip_blanks(s, self.reader.spec_pos() as int) == self.reader.spec_pos());
                    true
                } else {
                    self.adv();
                    self.set_error_msg(
                        ScanErrorKind::InvalidEscape,
                        concat_char("invalid escape character '\\", e, "' in double-quoted scalar"),
                    );
                    false
                }
            },
        }
    }

    /// What fetching a double-quoted scalar did, from `old` to `self`.
    #[verifier::opaque]
    spec fn double_quoted_fetched(&self, old: &Scanner) -> bool {
        let q = double_quoted_scan(
            old.reader.input(),
            next_pos(old.reader.input(), old.reader.spec_pos() as int),
            Seq::empty(),
            0,
            old.indent as int,
            old.flow_level as int,
        );
        &&& q.2 is Some ==> (self.error matches Some(e) && e.kind == q.2->Some_0)
        &&& (old.error is None && q.2 is None && limit_outcome(
            utf8_len(q.0) as usize,
            old.config.max_scalar_bytes,
            seq!['s', 'c', 'a', 'l', 'a', 'r', ' ', 's', 'i', 'z', 'e'],
        ) is Err) ==> (self.error matches Some(e) && e.kind == ScanErrorKind::LimitExceeded)
        &&& (old.error is None && q.2 is None && limit_outcome(
            utf8_len(q.0) as usize,
            old.config.max_scalar_bytes,
            seq!['s', 'c', 'a', 'l', 'a', 'r', ' ', 's', 'i', 'z', 'e'],
        ) is Ok && old.keys_clear() && (old.flow_level > 0 || quoted_tail_ok(old.reader.input(), q.1)))
            ==> self.error is None
        &&& self.error is None ==> {
            &&& self.queue@.len() == old.queue@.len() + 1
            &&& self.queue@.drop_last() == old.queue@
            &&& self.queue@.last().kind == TokenKind::Scalar
            &&& self.queue@.last().atom.data@ == q.0
            &&& self.queue@.last().atom.style == ScalarStyle::DoubleQuoted
            &&& self.reader.spec_pos() == q.1
        }
    }

    /// Fetch a double-quoted scalar, decoding its escape sequences.
    fn fetch_double_quoted_scalar(&mut self)
        requires
            old(self).inv(),
            old(self).tight(),
            old(self).state is Stream,
            !old(self).reader.spec_is_eof(),
        ensures
            final(self).fetched(old(self)),
            final(self).double_quoted_fetched(old(self)),
    {
        reveal(Scanner::double_quoted_fetched);
        let ghost s = self.reader.input();
        let start_mark = self.mark();
        self.adv();
        let mut result: Vec<char> = Vec::new();
        let mut fence: usize = 0;
        let ghost ind = old(self).indent as int;
        let ghost fl = old(self).flow_level as int;
        let ghost target = double_quoted_scan(s, self.reader.spec_pos() as int, result@, 0, ind, fl);
        assert(target == double_quoted_scan(s, next_pos(s, old(self).reader.spec_pos() as int), Seq::empty(), 0, ind, fl));
        loop
            invariant_except_break
                self.step_post(old(self), 0, 0),
                self.state is Stream,
                self.reader.spec_pos() > old(self).reader.spec_pos(),
                self.reader.spec_mark().offset >= start_mark.offset,
                *self == (Scanner { reader: self.reader, error: self.error, ..*old(self) }),
                old(self).inv(),
                old(self).tight(),
                s == old(self).reader.input(),
                double_quoted_scan(s, self.reader.spec_pos() as int, result@, fence as int, ind, fl) == target,
                target == double_quoted_scan(s, next_pos(s, old(self).reader.spec_pos() as int), Seq::empty(), 0, ind, fl),
                ind == old(self).indent as int,
                fl == old(self).flow_level as int,
                self.error == old(self).error,
            ensures
                self.step_post(old(self), 0, 0),
                self.state is Stream,
                self.reader.spec_pos() > old(self).reader.spec_pos(),
                self.reader.spec_mark().offset >= start_mark.offset,
                *self == (Scanner { reader: self.reader, error: self.error, ..*old(self) }),
                target == (result@, self.reader.spec_pos() as int, None::<ScanErrorKind>),
                self.error == old(self).error,
            decreases self.reader.input().len() - self.reader.spec_pos(),
        {
            reveal(Scanner::double_quoted_fetched);
            let ghost p = self.reader.spec_pos() as int;
            match self.peek() {
                None => {
                    self.set_error(ScanErrorKind::UnterminatedScalar, "unterminated double-quoted scalar");
                    return;
                },
                Some(c) => {
                    if c == '"' {
                        self.adv();
                        break;
                    } else if c == '\\' {
                        self.adv();
                        if !self.scan_escape(&mut result) {
                            return;
                        }
                        fence = result.len();
                    } else if c == '\n' || c == '\r' {
                        if !self.fold_quoted_break(&mut result, fence, '"', true) {
                            return;
                        }
                    } else {
                        result.push(c);
                        self.adv();
                    }
                },
            }
        }
        let end_mark = self.mark();
        let data = vec_to_string(&result);
        match self.config.check_scalar_size(string_len(&data)) {
            Err(msg) => {
                self.set_error_msg(ScanErrorKind::LimitExceeded, msg);
                return;
            },
            Ok(()) => {},
        }
        self.push_quoted_scalar(data, ScalarStyle::DoubleQuoted, start_mark, end_mark);
    }
}

impl Scanner {
    /// Look ahead to the first line with content: the number of spaces it
    /// starts with, and the most spaces seen on a spaces-only line before it.
    fn detect_block_indent_lookahead(&self) -> (r: (usize, usize))
        requires
            self.reader.wf(),
            self.reader.spec_pos() <= self.reader.input().len(),
        ensures
            r.0 <= self.reader.input().len(),
            r.1 <= self.reader.input().len(),
            (r.0 as nat, r.1 as nat) == indent_scan(self.reader.input(), self.reader.spec_pos() as int, 0, 0),
    {
        proof {
            self.reader.lemma_wf();
        }
        let ghost room = self.reader.input().len() - self.reader.spec_pos();
        let ghost target = indent_scan(self.reader.input(), self.reader.spec_pos() as int, 0, 0);
        let mut pos: usize = 0;
        let mut max_empty: usize = 0;
        loop
            invariant
                self.reader.wf(),
                self.reader.spec_pos() <= self.reader.input().len(),
                self.reader.input().len() <= max_input_chars(),
                room == self.reader.input().len() - self.reader.spec_pos(),
                pos <= room,
                max_empty <= pos,
                indent_scan(self.reader.input(), self.reader.spec_pos() + pos, 0, max_empty as nat) == target,
                target == indent_scan(self.reader.input(), self.reader.spec_pos() as int, 0, 0),
            decreases room - pos,
        {
            let ghost iter_start = pos;
            let mut spaces: usize = 0;
            while self.peek_at(pos) == Some(' ')
                invariant
                    self.reader.wf(),
                    room == self.reader.input().len() - self.reader.spec_pos(),
                    self.reader.input().len() <= max_input_chars(),
                    pos <= room,
                    iter_start <= pos,
                    spaces <= pos,
                    max_empty <= pos,
                    indent_scan(self.reader.input(), self.reader.spec_pos() + pos, spaces as nat, max_empty as nat)
                        == target,
                decreases room - pos,
            {
                spaces = spaces + 1;
                pos = pos + 1;
            }
            match self.peek_at(pos) {
                None => {
                    proof {
                        assert(indent_scan(self.reader.input(), self.reader.spec_pos() + pos, spaces as nat, max_empty as nat)
                            == (spaces as nat, max_empty as nat));
                    }
                    return (spaces, max_empty);
                },
                Some(c) => {
                    if c == '\n' || c == '\r' {
                        if spaces > max_empty {
                            max_empty = spaces;
                        }
                        pos = pos + 1;
                        if c == '\r' && self.peek_at(pos) == Some('\n') {
                            pos = pos + 1;
                        }
                    } else {
                        proof {
                            assert(self.reader.input()[self.reader.spec_pos() + pos] == c);
                            assert(indent_scan(self.reader.input(), self.reader.spec_pos() + pos, spaces as nat, max_empty as nat)
                                == (spaces as nat, max_empty as nat));
                        }
                        return (spaces, max_empty);
                    }
                },
            }
        }
    }

    /// What fetching a block scalar introduced by `indicator` did, from `old` to `self`.
    #[verifier::opaque]
    spec fn block_scalar_fetched(&self, old: &Scanner, indicator: char) -> bool {
        let s = old.reader.input();
        let h = block_header(s, next_pos(s, old.reader.spec_pos() as int), 0, Chomp::Clip, None);
        let la = blank_end(s, h.2);
        let tail_ok = la >= s.len() || break_char(s[la]) || (s[la] == '#' && la > h.2);
        let p2 = line_end(s, h.2);
        let cur: int = if old.indent > 0 { old.indent as int } else { 0 };
        let det = indent_scan(s, p2, 0, 0);
        let mi: int = if old.indent + 1 > 0 { old.indent + 1 } else { 0 };
        let auto_ind: int = if det.0 > mi { det.0 as int } else { mi };
        let ci: int = match h.1 {
            Some(e) => cur + e,
            None => auto_ind,
        };
        let body = block_body(s, p2, ci as nat, Seq::empty(), 0);
        &&& !tail_ok ==> (self.error matches Some(e) && e.kind == ScanErrorKind::InvalidBlockScalarHeader)
        &&& (tail_ok && h.1 is None && det.1 > auto_ind) ==> (self.error matches Some(e) && e.kind
            == ScanErrorKind::InvalidIndentation)
        &&& (old.error is None && tail_ok && !(h.1 is None && det.1 > auto_ind) && limit_outcome(
            utf8_len(block_scalar_text(body.0, body.1, indicator == '|', h.0)) as usize,
            old.config.max_scalar_bytes,
            seq!['s', 'c', 'a', 'l', 'a', 'r', ' ', 's', 'i', 'z', 'e'],
        ) is Ok) ==> self.error is None
        &&& (tail_ok && !(h.1 is None && det.1 > auto_ind) && limit_outcome(
            utf8_len(block_scalar_text(body.0, body.1, indicator == '|', h.0)) as usize,
            old.config.max_scalar_bytes,
            seq!['s', 'c', 'a', 'l', 'a', 'r', ' ', 's', 'i', 'z', 'e'],
        ) is Err) ==> (self.error matches Some(e) && e.kind == ScanErrorKind::LimitExceeded)
        &&& self.error is None ==> {
            &&& self.queue@.len() == old.queue@.len() + 1
            &&& self.queue@.drop_last() == old.queue@
            &&& self.queue@.last().kind == TokenKind::Scalar
            &&& self.queue@.last().atom.data@ == block_scalar_text(body.0, body.1, indicator == '|', h.0)
            &&& self.queue@.last().atom.style == (if indicator == '|' {
                ScalarStyle::Literal
            } else {
                ScalarStyle::Folded
            })
        }
    }

    /// Fetch a literal (`|`) or folded (`>`) block scalar: parse the header
    /// (chomping and indentation indicators, in either order), read the
    /// content lines at the content indentation, fold (for `>`) and apply
    /// the chomping.
    #[verifier::rlimit(80)]
    fn fetch_block_scalar(&mut self, indicator: char)
        requires
            old(self).inv(),
            old(self).tight(),
            old(self).state is Stream,
            !old(self).reader.spec_is_eof(),
        ensures
            final(self).fetched(old(self)),
            final(self).block_scalar_fetched(old(self), indicator),
    {
        reveal(Scanner::block_scalar_fetched);
        let ghost s = self.reader.input();
        let start_mark = self.mark();
        let is_literal = indicator == '|';
        self.adv();
        let mut chomp = Chomp::Clip;
        let mut explicit_indent: Option<usize> = None;
        let mut k: usize = 0;
        let ghost h = block_header(s, self.reader.spec_pos() as int, 0, Chomp::Clip, None);
        while k < 2
            invariant
                self.step_post(old(self), 0, 0),
                self.state is Stream,
                self.reader.spec_pos() > old(self).reader.spec_pos(),
                self.reader.spec_mark().offset >= start_mark.offset,
                *self == (Scanner { reader: self.reader, ..*old(self) }),
                old(self).inv(),
                old(self).tight(),
                explicit_indent matches Some(v) ==> v <= 9,
                s == old(self).reader.input(),
                k <= 2,
                block_header(s, self.reader.spec_pos() as int, k as nat, chomp, match explicit_indent {
                    Some(v) => Some(v as nat),
                    None => None,
                }) == h,
            ensures
                self.step_post(old(self), 0, 0),
                self.state is Stream,
                self.reader.spec_pos() > old(self).reader.spec_pos(),
                self.reader.spec_mark().offset >= start_mark.offset,
                *self == (Scanner { reader: self.reader, ..*old(self) }),
                explicit_indent matches Some(v) ==> v <= 9,
                h == (chomp, match explicit_indent {
                    Some(v) => Some(v as nat),
                    None => None,
                }, self.reader.spec_pos() as int),
            decreases 2 - k,
        {
            match self.peek() {
                Some(c) => {
                    if c == '+' {
                        chomp = Chomp::Keep;
                        self.adv();
                    } else if c == '-' {
                        chomp = Chomp::Strip;
                        self.adv();
                    } else if is_ascii_digit(c) && c != '0' {
                        explicit_indent = Some((c as u32 - '0' as u32) as usize);
                        self.adv();
                    } else {
                        break;
                    }
                },
                None => break,
            }
            k = k + 1;
        }
        let la = self.blank_run();
        match self.peek_at(la) {
            None => {},
            Some(c) => {
                if !(c == '\n' || c == '\r' || (c == '#' && la > 0)) {
                    self.set_error_msg(
                        ScanErrorKind::InvalidBlockScalarHeader,
                        concat_char("invalid character '", c, "' in block scalar header"),
                    );
                    return;
                }
            },
        }
        self.skip_to_next_line();
        let ghost p2 = self.reader.spec_pos() as int;
        assert(p2 == line_end(s, h.2));
        let current_indent: usize = if self.indent > 0 {
            self.indent as usize
        } else {
            0
        };
        let content_indent: usize = match explicit_indent {
            Some(ei) => current_indent + ei,
            None => {
                let (detected, max_empty) = self.detect_block_indent_lookahead();
                let min_indent: usize = if self.indent + 1 > 0 {
                    (self.indent + 1) as usize
                } else {
                    0
                };
                let ind = if detected > min_indent {
                    detected
                } else {
                    min_indent
                };
                if max_empty > ind {
                    self.set_error(
                        ScanErrorKind::InvalidIndentation,
                        "block scalar with wrong indented line after spaces only",
                    );
                    return;
                }
                ind
            },
        };
        proof {
            self.reader.lemma_wf();
        }
        let mut content: Vec<char> = Vec::new();
        let mut trailing_empty: usize = 0;
        let ghost body = block_body(s, p2, content_indent as nat, Seq::empty(), 0);
        loop
            invariant_except_break
                self.step_post(old(self), 0, 0),
                self.state is Stream,
                self.reader.spec_pos() > old(self).reader.spec_pos(),
                self.reader.spec_mark().offset >= start_mark.offset,
                *self == (Scanner { reader: self.reader, ..*old(self) }),
                old(self).inv(),
                old(self).tight(),
                trailing_empty <= self.reader.spec_pos(),
                self.reader.input().len() <= max_input_chars(),
                s == old(self).reader.input(),
                block_body(s, self.reader.spec_pos() as int, content_indent as nat, content@, trailing_empty as nat) == body,
            ensures
                self.step_post(old(self), 0, 0),
                self.state is Stream,
                self.reader.spec_pos() > old(self).reader.spec_pos(),
                self.reader.spec_mark().offset >= start_mark.offset,
                *self == (Scanner { reader: self.reader, ..*old(self) }),
                trailing_empty <= self.reader.spec_pos(),
                body == (content@, trailing_empty as nat),
            decreases self.reader.input().len() - self.reader.spec_pos(),
        {
            if self.reader.is_eof() {
                break;
            }
            let ghost iter_start = self.reader.spec_pos();
            let ghost p = self.reader.spec_pos() as int;
            let spaces = self.space_run();
            let next = self.peek_at(spaces);
            let blank_line = match next {
                Some(c) => (c == '\n' || c == '\r') && spaces <= content_indent,
                None => false,
            };
            let ghost c0 = content@;
            let ghost te0 = trailing_empty as nat;
            if blank_line {
                trailing_empty = trailing_empty + 1;
                self.adv_by(spaces);
                proof {
                    lemma_adv_n_spaces(s, p, spaces as nat);
                    assert(break_char(s[p + spaces]));
                    assert(block_body(s, p, content_indent as nat, c0, te0) == block_body(
                        s,
                        next_pos(s, p + spaces),
                        content_indent as nat,
                        c0,
                        te0 + 1,
                    ));
                }
                self.adv();
            } else if next.is_none() && spaces <= content_indent {
                break;
            } else {
                if spaces == 0 && (self.is_document_start() || self.is_document_end()) {
                    break;
                }
                if spaces < content_indent {
                    break;
                }
                push_repeat(&mut content, '\n', trailing_empty);
                trailing_empty = 0;
                self.adv_by(content_indent);
                proof {
                    lemma_adv_n_spaces(s, p, content_indent as nat);
                }
                let line_start = self.reader.pos();
                while !self.reader.is_eof() && !is_break_opt(self.peek())
                    invariant
                        self.step_post(old(self), 0, 0),
                        self.state is Stream,
                        self.reader.spec_pos() >= iter_start,
                        self.reader.spec_pos() > old(self).reader.spec_pos(),
                        self.reader.spec_mark().offset >= start_mark.offset,
                        *self == (Scanner { reader: self.reader, ..*old(self) }),
                        line_start <= self.reader.spec_pos(),
                        s == old(self).reader.input(),
                        break_at(s, self.reader.spec_pos() as int) == break_at(s, line_start as int),
                    decreases self.reader.input().len() - self.reader.spec_pos(),
                {
                    let ghost pb = self.reader.spec_pos() as int;
                    self.adv();
                    assert(self.reader.spec_pos() == pb + 1);
                }
                assert(break_at(s, self.reader.spec_pos() as int) == self.reader.spec_pos());
                let ghost le = self.reader.spec_pos() as int;
                push_range(&mut content, &self.reader, line_start, self.reader.pos());
                content.push('\n');
                proof {
                    lemma_break_at(s, p + content_indent);
                    assert(line_start == p + content_indent);
                    assert(le == break_at(s, p + content_indent));
                    assert(content@ =~= c0 + Seq::new(te0, |i: int| '\n') + s.subrange(p + content_indent, le) + seq!['\n']);
                }
                if !self.reader.is_eof() {
                    self.adv();
                }
                proof {
                    assert(block_body(s, p, content_indent as nat, c0, te0) == block_body(
                        s,
                        self.reader.spec_pos() as int,
                        content_indent as nat,
                        content@,
                        0,
                    ));
                }
            }
        }
        if !is_literal {
            content = fold_block_scalar(&content);
        }
        match chomp {
            Chomp::Strip => {
                trim_trailing_newlines(&mut content);
            },
            Chomp::Clip => {
                trim_trailing_newlines(&mut content);
                if content.len() > 0 {
                    content.push('\n');
                }
            },
            Chomp::Keep => {
                push_repeat(&mut content, '\n', trailing_empty);
            },
        }
        let data = vec_to_string(&content);
        match self.config.check_scalar_size(string_len(&data)) {
            Err(msg) => {
                self.set_error_msg(ScanErrorKind::LimitExceeded, msg);
                return;
            },
            Ok(()) => {},
        }
        let end_mark = self.mark();
        let style = if is_literal {
            ScalarStyle::Literal
        } else {
            ScalarStyle::Folded
        };
        self.enqueue(scalar_token(data, style, start_mark, end_mark), Ghost(-1), Ghost(-4));
        assert(self.queue@.drop_last() =~= old(self).queue@);
        self.simple_key_allowed = self.flow_level == 0;
    }

    /// Number of spaces starting at the current position.
    fn space_run(&self) -> (r: usize)
        requires
            self.reader.wf(),
            self.reader.spec_pos() <= self.reader.input().len(),
        ensures
            forall|j: int| 0 <= j < r ==> #[trigger] self.reader.spec_peek_at(j) == Some(' '),
            self.reader.spec_peek_at(r as int) != Some(' '),
            r == space_count(self.reader.input(), self.reader.spec_pos() as int),
    {
        proof {
            self.reader.lemma_wf();
        }
        let ghost s = self.reader.input();
        let ghost p = self.reader.spec_pos() as int;
        let mut la: usize = 0;
        while self.peek_at(la) == Some(' ')
            invariant
                self.reader.wf(),
                self.reader.spec_pos() <= self.reader.input().len(),
                forall|j: int| 0 <= j < la ==> #[trigger] self.reader.spec_peek_at(j) == Some(' '),
                la <= self.reader.input().len() - self.reader.spec_pos(),
                self.reader.input().len() <= max_input_chars(),
                s == self.reader.input(),
                p == self.reader.spec_pos(),
                la + space_count(s, p + la) == space_count(s, p),
            decreases self.reader.input().len() - self.reader.spec_pos() - la,
        {
            assert(s[p + la] == ' ');
            assert(space_count(s, p + la) == 1 + space_count(s, p + la + 1));
            la = la + 1;
        }
        assert(space_count(s, p + la) == 0);
        la
    }
}

impl Scanner {
    /// Reject anything but blanks and a comment before the end of the line.
    fn validate_line_tail(&mut self, context: &str)
        requires
            old(self).reader.wf(),
            old(self).reader.spec_pos() <= old(self).reader.input().len(),
        ensures
            line_tail_ok(old(self).reader) ==> final(self).error == old(self).error,
            !line_tail_ok(old(self).reader) ==> (final(self).error matches Some(e) && e.kind
                == ScanErrorKind::UnexpectedContent),
            *final(self) == (Scanner { error: final(self).error, ..*old(self) }),
            forall|ef: int, ei: int| old(self).inv_with(ef, ei) ==> final(self).inv_with(ef, ei),
            old(self).error is Some ==> final(self).error is Some,
    {
        let la = self.blank_run();
        match self.peek_at(la) {
            None => {},
            Some(c) => {
                if !(c == '\n' || c == '\r' || (c == '#' && la > 0)) {
                    let mut msg = concat_char("invalid character '", c, "' after ");
                    push_str(&mut msg, context);
                    self.set_error_msg(ScanErrorKind::UnexpectedContent, msg);
                }
            },
        }
    }

    /// Take the token at the front of the queue.
    fn pop_token(&mut self) -> (t: Token)
        requires
            old(self).inv(),
            old(self).queue@.len() > 0,
        ensures
            final(self).inv(),
            t == old(self).queue@[0],
            final(self).queue@ == old(self).queue@.drop_first(),
            final(self).state == old(self).state,
            final(self).reader == old(self).reader,
            final(self).error == old(self).error,
            final(self).tokens_consumed == old(self).tokens_consumed + 1,
    {
        proof {
            self.reader.lemma_wf();
        }
        let ghost q = self.queue@;
        let t = self.queue.pop_front().unwrap();
        self.tokens_consumed = self.tokens_consumed + 1;
        proof {
            assert forall|i: int| 0 <= i < self.queue@.len() implies span_ok(
                #[trigger] self.queue@[i].atom.span,
                self.reader.byte_len(),
            ) by {
                assert(self.queue@[i] == q[i + 1]);
            }
            assert forall|i: int|
                0 <= i < self.queue@.len() && (#[trigger] self.queue@[i]).kind
                    == TokenKind::StreamEnd implies i == self.queue@.len() - 1 && self.state is Done by {
                assert(self.queue@[i] == q[i + 1]);
            }
        }
        t
    }

    /// Whether the value indicator `:` at the current position starts a
    /// value: followed by a blank or the end, or (in flow context) by a flow
    /// indicator, adjacent to a JSON-like key, or after a quoted or flow key.
    fn at_value_indicator(&self) -> (r: bool)
        requires
            self.reader.wf(),
        ensures
            r == (spec_blank_or_end(self.reader.spec_peek_at(1)) || (self.flow_level != 0 && (
            (self.reader.spec_peek_at(1) matches Some(c) && spec_flow_indicator(c))
                || self.adjacent_value_offset == Some(self.reader.spec_mark().offset) || (
            self.simple_keys@.len() > 0 && self.simple_keys@.last().flow_level == self.flow_level
                && self.simple_keys@.last().json_key)))),
    {
        if is_blank_or_end(self.peek_at(1)) {
            return true;
        }
        if self.flow_level == 0 {
            return false;
        }
        if is_flow_indicator_opt(self.peek_at(1)) {
            return true;
        }
        if self.adjacent_value_offset == Some(self.mark().offset) {
            return true;
        }
        let n = self.simple_keys.len();
        n > 0 && self.simple_keys[n - 1].flow_level == self.flow_level && self.simple_keys[n - 1].json_key
    }

    /// Fetch tokens until one can be handed out: the queue is non-empty and
    /// no simple key is pending. Skips whitespace and comments, unrolls
    /// indentation, and dispatches on the next character.
    #[verifier::rlimit(100)]
    #[verifier::spinoff_prover]
    fn fetch_next_token(&mut self) -> (r: Option<Result<Token, ScanError>>)
        requires
            old(self).inv(),
            old(self).state is Stream,
        ensures
            final(self).inv(),
            final(self).reader.input() == old(self).reader.input(),
            final(self).reader.byte_len() == old(self).reader.byte_len(),
            r is Some,
            r matches Some(Ok(t)) ==> span_ok(t.atom.span, old(self).reader.byte_len()),
            r matches Some(Ok(t)) && t.kind == TokenKind::StreamEnd ==> final(self).finished(),
            final(self).remaining() < old(self).remaining(),
    {
        proof {
            self.lemma_consumed_bound();
        }
        match self.error.take() {
            Some(e) => {
                self.state = ScanState::Done;
                return Some(Err(e));
            },
            None => {},
        }
        loop
            invariant
                self.inv(),
                self.state is Stream,
                self.reader.input() == old(self).reader.input(),
                self.reader.byte_len() == old(self).reader.byte_len(),
                old(self).error is None,
                old(self).state is Stream,
                old(self).tokens_consumed <= 4 * old(self).reader.input().len() + 5,
                old(self).reader.spec_pos() <= old(self).reader.input().len(),
                self.tokens_consumed == old(self).tokens_consumed,
                self.reader.spec_pos() >= old(self).reader.spec_pos(),
            decreases self.reader.input().len() - self.reader.spec_pos(), if self.error is None {
                1int
            } else {
                0int
            },
        {
            proof {
                self.lemma_consumed_bound();
            }
            match self.error.take() {
                Some(e) => {
                    self.state = ScanState::Done;
                    return Some(Err(e));
                },
                None => {},
            }
            if self.queue.len() > 0 && self.simple_keys.len() == 0 {
                let t = self.pop_token();
                return Some(Ok(t));
            }
            let ghost p0 = self.reader.spec_pos();
            self.scan_to_next_token();
            self.purge_stale_simple_keys(Ghost(0), Ghost(0));
            if self.reader.is_eof() {
                if self.tab_in_preceding_whitespace && self.indent == -1 && self.queue.len() == 0
                    && self.tokens_consumed <= 1 {
                    self.state = ScanState::Done;
                    self.error = None;
                    return Some(Err(scan_error(ScanErrorKind::InvalidTab, "tab character cannot be used as content")));
                }
                if self.seen_directive && self.in_directive_prologue {
                    self.state = ScanState::Done;
                    self.error = None;
                    return Some(Err(scan_error(ScanErrorKind::InvalidDirective, "directives without a document")));
                }
                self.simple_keys = Vec::new();
                self.unroll_indent(-1, Ghost(0), Ghost(0));
                proof {
                    assert forall|i: int| 0 <= i < self.queue@.len() implies (#[trigger] self.queue@[i]).kind
                        != TokenKind::StreamEnd by {}
                }
                let end = self.fetch_stream_end();
                self.enqueue(end, Ghost(0), Ghost(0));
                match self.error.take() {
                    Some(e) => {
                        return Some(Err(e));
                    },
                    None => {},
                }
                let t = self.pop_token();
                return Some(Ok(t));
            }
            let c = match self.peek() {
                Some(c) => c,
                None => '\0',
            };
            let col = self.mark().column;
            if self.flow_level == 0 {
                self.unroll_indent(col as i32, Ghost(0), Ghost(0));
            }
            if col == 0 {
                if self.is_document_start() || self.is_document_end() {
                    let kind = if self.is_document_start() {
                        TokenKind::DocumentStart
                    } else {
                        TokenKind::DocumentEnd
                    };
                    self.remove_simple_key(Ghost(0), Ghost(0));
                    self.unroll_indent(-1, Ghost(0), Ghost(0));
                    let token = self.fetch_document_indicator(kind);
                    self.enqueue(token, Ghost(-1), Ghost(-4));
                    self.simple_key_allowed = true;
                    if kind == TokenKind::DocumentEnd {
                        self.validate_line_tail("document end marker '...'");
                    }
                    continue;
                }
                if c == '%' {
                    if !self.in_directive_prologue {
                        self.state = ScanState::Done;
                        self.error = None;
                        return Some(
                            Err(scan_error(ScanErrorKind::InvalidDirective, "directive without document end marker '...'")),
                        );
                    }
                    self.remove_simple_key(Ghost(0), Ghost(0));
                    self.unroll_indent(-1, Ghost(0), Ghost(0));
                    match self.fetch_directive() {
                        Ok(Some(token)) => {
                            self.enqueue(token, Ghost(-1), Ghost(-4));
                            self.simple_key_allowed = true;
                            continue;
                        },
                        Ok(None) => {
                            continue;
                        },
                        Err(e) => {
                            return Some(Err(e));
                        },
                    }
                }
            }
            if self.in_directive_prologue {
                self.in_directive_prologue = false;
                self.tag_handles = Vec::new();
            }
            if self.root_token_emitted && self.indent == -1 && self.flow_level == 0 {
                self.state = ScanState::Done;
                self.error = None;
                return Some(Err(scan_error(ScanErrorKind::UnexpectedContent, "extra content after document root node")));
            }
            assert(self.tight());
            if c == '[' || c == '{' {
                self.fetch_flow_collection_start(c);
            } else if c == ']' || c == '}' {
                self.fetch_flow_collection_end(c);
            } else if c == ',' {
                self.fetch_flow_entry();
            } else if self.flow_level == 0 && c == '-' && is_blank_or_end(self.peek_at(1)) {
                self.fetch_block_entry();
            } else if c == '?' && is_blank_or_end(self.peek_at(1)) {
                self.fetch_key();
            } else if c == ':' && self.at_value_indicator() {
                self.adjacent_value_offset = None;
                self.fetch_value();
            } else if c == '!' {
                self.fetch_tag();
            } else if c == '&' || c == '*' {
                self.fetch_anchor_or_alias(c);
            } else if self.flow_level == 0 && (c == '|' || c == '>') {
                self.fetch_block_scalar(c);
            } else if c == '\'' {
                self.fetch_single_quoted_scalar();
            } else if c == '"' {
                self.fetch_double_quoted_scalar();
            } else {
                self.fetch_plain_scalar();
            }
        }
    }

    /// The next token of the stream, or the next error. `None` once the
    /// stream has ended (or failed) and every queued token was handed out.
    pub fn next(&mut self) -> (r: Option<Result<Token, ScanError>>)
        requires
            old(self).inv(),
        ensures
            final(self).inv(),
            final(self).input() == old(self).input(),
            final(self).byte_len() == old(self).byte_len(),
            old(self).finished() ==> r is None && *final(self) == *old(self),
            r is None <==> old(self).finished(),
            r is None ==> final(self).finished(),
            old(self).fresh() ==> (r matches Some(Ok(t)) && t.kind == TokenKind::StreamStart && t.atom.span
                == crate::diagnostic::span_zero()),
            r matches Some(Ok(t)) ==> span_ok(t.atom.span, old(self).byte_len()),
            r matches Some(Ok(t)) && t.kind == TokenKind::StreamEnd ==> final(self).finished(),
            r is Some ==> final(self).remaining() < old(self).remaining(),
            old(self).spec_queue().len() > 0 ==> r == Some(Ok::<Token, ScanError>(old(self).spec_queue()[0]))
                && final(self).spec_queue() == old(self).spec_queue().drop_first() && final(self).spec_state()
                == old(self).spec_state(),
    {
        proof {
            self.lemma_consumed_bound();
        }
        if self.queue.len() > 0 {
            let ghost q = self.queue@;
            let t = self.pop_token();
            proof {
                assert(span_ok(q[0].atom.span, self.reader.byte_len()));
                if t.kind == TokenKind::StreamEnd {
                    assert(q[0].kind == TokenKind::StreamEnd);
                }
            }
            return Some(Ok(t));
        }
        match self.state {
            ScanState::Start => Some(Ok(self.fetch_stream_start())),
            ScanState::Stream => self.fetch_next_token(),
            ScanState::Done => None,
        }
    }
}

/// Whether `chars[from..to]` (digits and dots) is `MAJOR.MINOR` with one to
/// four digits on each side.
pub open spec fn spec_valid_version(v: Seq<char>) -> bool {
    exists|d: int|
        0 < d < v.len() - 1 && v[d] == '.' && d <= 4 && v.len() - 1 - d <= 4 && (forall|j: int|
            0 <= j < v.len() && j != d ==> spec_ascii_digit_char(#[trigger] v[j]))
}

/// An ASCII decimal digit.
pub open spec fn spec_ascii_digit_char(c: char) -> bool {
    '0' <= c <= '9'
}

fn valid_version_chars(reader: &Reader, from: usize, to: usize) -> (r: bool)
    requires
        reader.wf(),
        from <= to <= reader.input().len(),
    ensures
        r == spec_valid_version(reader.input().subrange(from as int, to as int)),
{
    let ghost v = reader.input().subrange(from as int, to as int);
    let mut dots: usize = 0;
    let mut dot_at: usize = 0;
    let mut all_ok = true;
    let mut i = from;
    while i < to
        invariant
            reader.wf(),
            from <= i <= to <= reader.input().len(),
            v == reader.input().subrange(from as int, to as int),
            dots <= i - from,
            dots == 0 ==> forall|j: int| from <= j < i ==> reader.input()[j] != '.',
            dots >= 1 ==> from <= dot_at < i && reader.input()[dot_at as int] == '.',
            dots == 1 ==> forall|j: int| from <= j < i && j != dot_at ==> reader.input()[j] != '.',
            dots >= 2 ==> exists|a: int, b: int|
                from <= a < b < i && reader.input()[a] == '.' && reader.input()[b] == '.',
            all_ok <==> forall|j: int|
                from <= j < i ==> (reader.input()[j] == '.' || spec_ascii_digit_char(
                    reader.input()[j],
                )),
        decreases to - i,
    {
        let c = reader.peek_char_at_index(i);
        if c == '.' {
            if dots == 0 {
                dot_at = i;
            }
            dots = if dots < 2 { dots + 1 } else { 2 };
        } else if !is_ascii_digit(c) {
            all_ok = false;
        }
        i = i + 1;
    }
    let r = all_ok && dots == 1 && dot_at > from && dot_at + 1 < to && dot_at - from <= 4 && to - 1
        - dot_at <= 4;
    proof {
        if r {
            let d = dot_at - from;
            assert(v[d] == '.');
            assert forall|j: int| 0 <= j < v.len() && j != d implies spec_ascii_digit_char(
                #[trigger] v[j],
            ) by {
                assert(v[j] == reader.input()[from + j]);
            }
        } else if spec_valid_version(v) {
            let d = choose|d: int|
                0 < d < v.len() - 1 && v[d] == '.' && d <= 4 && v.len() - 1 - d <= 4 && (forall|
                    j: int,
                | 0 <= j < v.len() && j != d ==> spec_ascii_digit_char(#[trigger] v[j]));
            assert(reader.input()[from + d] == '.');
            assert forall|j: int| from <= j < to implies (reader.input()[j] == '.'
                || spec_ascii_digit_char(reader.input()[j])) by {
                assert(v[j - from] == reader.input()[j]);
                if j - from != d {
                    assert(spec_ascii_digit_char(v[j - from]));
                }
            }
            if dots >= 2 {
                let (a, b) = choose|a: int, b: int|
                    from <= a < b < to && reader.input()[a] == '.' && reader.input()[b] == '.';
                assert(v[a - from] == '.');
                assert(v[b - from] == '.');
                if a - from != d {
                    assert(spec_ascii_digit_char(v[a - from]));
                } else {
                    assert(spec_ascii_digit_char(v[b - from]));
                }
            }
            if dots == 0 {
                assert(reader.input()[from + d] == '.');
            }
            if dots == 1 && dot_at != from + d {
                assert(reader.input()[from + d] == '.');
            }
        }
    }
    r
}

} // verus!
