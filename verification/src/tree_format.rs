//! The YAML Test Suite's tree event format.
//!
//! Each non-blank line, trimmed, describes one event: `+STR`/`-STR` for the
//! stream, `+DOC`/`-DOC` (with `---`/`...` when explicit), `+SEQ`/`-SEQ`
//! and `+MAP`/`-MAP` (with `&anchor` and `<tag>` properties), `=VAL` with a
//! style character (`:`, `'`, `"`, `|`, `>`) before the escaped value, and
//! `=ALI *name`. Value escapes: `\\`, `\n`, `\t`, `\r`, `\b`, `\0` and
//! `\xHH`.
use vstd::prelude::*;

use crate::compare::{opt_view, EventSnapshot};
use crate::lines::{
    contains_seq, contains_v, copy_range, find_char, find_char_v, lines_of, starts_with,
    starts_with_v, str_lines, trim, trim_start, trim_start_v, trim_v, find_from,
};
use crate::scan_text::{hex_value, spec_hex_value};
use crate::text::{str_to_string, vec_to_string};

verus! {

/// An event snapshot as plain values: kind, anchor, tag, value, implicit.
pub open spec fn snap_view(e: EventSnapshot) -> (
    Seq<char>,
    Option<Seq<char>>,
    Option<Seq<char>>,
    Option<Seq<char>>,
    Option<bool>,
) {
    (e.kind@, opt_view(e.anchor), opt_view(e.tag), opt_view(e.value), e.implicit)
}

/// The byte that two characters after `\x` stand for, read as a base-16
/// `u8` (a leading `+` is accepted, as `u8::from_str_radix` does).
pub open spec fn hex_pair(hi: char, lo: char) -> Option<u8> {
    if hi == '+' {
        match spec_hex_value(lo) {
            Some(v) => Some(v as u8),
            None => None,
        }
    } else {
        match (spec_hex_value(hi), spec_hex_value(lo)) {
            (Some(a), Some(b)) => Some((a * 16 + b) as u8),
            _ => None,
        }
    }
}

/// What a simple escape `\e` stands for (an unknown one stays as it is).
pub open spec fn simple_unescape(e: char) -> Seq<char> {
    if e == '\\' {
        seq!['\\']
    } else if e == 'n' {
        seq!['\n']
    } else if e == 't' {
        seq!['\t']
    } else if e == 'r' {
        seq!['\r']
    } else if e == 'b' {
        seq!['\x08']
    } else if e == '0' {
        seq!['\0']
    } else {
        seq!['\\', e]
    }
}

/// A tree-format value with its escapes decoded. A `\x` takes the next two
/// characters (`0` for each that is missing); when they are no hex byte, the
/// four characters stay as they are.
pub open spec fn unescape_tree(s: Seq<char>) -> Seq<char>
    decreases s.len(),
{
    if s.len() == 0 {
        seq![]
    } else if s[0] != '\\' {
        seq![s[0]] + unescape_tree(s.drop_first())
    } else if s.len() == 1 {
        seq!['\\']
    } else if s[1] == 'x' {
        let hi = if s.len() > 2 {
            s[2]
        } else {
            '0'
        };
        let lo = if s.len() > 3 {
            s[3]
        } else {
            '0'
        };
        let rest = if s.len() >= 4 {
            s.skip(4)
        } else {
            seq![]
        };
        match hex_pair(hi, lo) {
            Some(b) => seq![b as char] + unescape_tree(rest),
            None => seq!['\\', 'x', hi, lo] + unescape_tree(rest),
        }
    } else {
        simple_unescape(s[1]) + unescape_tree(s.skip(2))
    }
}

/// The first index at or after `i` holding `a` or `b`.
pub open spec fn find_either_from(s: Seq<char>, a: char, b: char, i: int) -> Option<int>
    decreases s.len() - i,
{
    if i < 0 || i >= s.len() {
        None
    } else if s[i] == a || s[i] == b {
        Some(i)
    } else {
        find_either_from(s, a, b, i + 1)
    }
}

/// Anchor and tag from the properties after `+SEQ` or `+MAP` (trimmed): an
/// optional `[]` or `{}`, then `&anchor` (up to a space or `<`), then
/// `<tag>`.
pub open spec fn anchor_tag(props: Seq<char>) -> (Option<Seq<char>>, Option<Seq<char>>) {
    if props.len() == 0 {
        (None, None)
    } else {
        let r0 = if starts_with(props, seq!['[', ']']) || starts_with(props, seq!['{', '}']) {
            trim_start(props.skip(2))
        } else {
            props
        };
        if r0.len() == 0 {
            (None, None)
        } else {
            let (anchor, r1) = if r0[0] == '&' {
                let r = r0.drop_first();
                let end = match find_either_from(r, ' ', '<', 0) {
                    Some(e) => e,
                    None => r.len() as int,
                };
                (Some(r.take(end)), trim_start(r.skip(end)))
            } else {
                (None, r0)
            };
            let tag = if r1.len() > 0 && r1[0] == '<' {
                match find_char(r1, '>') {
                    Some(c) => Some(r1.subrange(1, c)),
                    None => None,
                }
            } else {
                None
            };
            (anchor, tag)
        }
    }
}

/// Anchor, tag and the rest of a `=VAL` line after its properties: an
/// optional `&anchor` ended by a space, then an optional `<tag>` and one
/// space.
pub open spec fn val_properties(input: Seq<char>) -> (Option<Seq<char>>, Option<Seq<char>>, Seq<char>) {
    let (anchor, r1) = if input.len() > 0 && input[0] == '&' {
        let r = input.drop_first();
        let end = match find_char(r, ' ') {
            Some(e) => e,
            None => r.len() as int,
        };
        (Some(r.take(end)), if end < r.len() {
            r.skip(end + 1)
        } else {
            seq![]
        })
    } else {
        (None, input)
    };
    if r1.len() > 0 && r1[0] == '<' {
        match find_char(r1, '>') {
            Some(c) => {
                let r = r1.skip(c + 1);
                (anchor, Some(r1.subrange(1, c)), if r.len() > 0 && r[0] == ' ' {
                    r.drop_first()
                } else {
                    r
                })
            },
            None => (anchor, None, r1),
        }
    } else {
        (anchor, None, r1)
    }
}

/// `s` without leading spaces.
pub open spec fn trim_spaces(s: Seq<char>) -> Seq<char>
    decreases s.len(),
{
    if s.len() > 0 && s[0] == ' ' {
        trim_spaces(s.drop_first())
    } else {
        s
    }
}

/// The rest of a `=VAL` line after its properties; its first character is
/// the style character.
pub open spec fn val_rest(line: Seq<char>) -> Seq<char> {
    val_properties(trim_spaces(line.skip(4))).2
}

/// A line that the format's reader can take: a `=VAL` line's style
/// character, if it has one, is ASCII (the value starts one byte after it).
pub open spec fn tree_line_ok(line: Seq<char>) -> bool {
    starts_with(line, "=VAL"@) ==> (val_rest(line).len() == 0 || (val_rest(line)[0] as u32) < 0x80)
}

/// The event a trimmed tree-format line describes, if any.
pub open spec fn tree_line_event(line: Seq<char>) -> Option<
    (Seq<char>, Option<Seq<char>>, Option<Seq<char>>, Option<Seq<char>>, Option<bool>),
> {
    if starts_with(line, "+STR"@) {
        Some(("StreamStart"@, None, None, None, None))
    } else if starts_with(line, "-STR"@) {
        Some(("StreamEnd"@, None, None, None, None))
    } else if starts_with(line, "+DOC"@) {
        Some(("DocumentStart"@, None, None, None, Some(!contains_seq(trim(line.skip(4)), "---"@))))
    } else if starts_with(line, "-DOC"@) {
        Some(("DocumentEnd"@, None, None, None, Some(!contains_seq(trim(line.skip(4)), "..."@))))
    } else if starts_with(line, "+SEQ"@) {
        let (a, t) = anchor_tag(trim(line.skip(4)));
        Some(("SequenceStart"@, a, t, None, None))
    } else if starts_with(line, "-SEQ"@) {
        Some(("SequenceEnd"@, None, None, None, None))
    } else if starts_with(line, "+MAP"@) {
        let (a, t) = anchor_tag(trim(line.skip(4)));
        Some(("MappingStart"@, a, t, None, None))
    } else if starts_with(line, "-MAP"@) {
        Some(("MappingEnd"@, None, None, None, None))
    } else if starts_with(line, "=VAL"@) {
        let (a, t, after) = val_properties(trim_spaces(line.skip(4)));
        if after.len() == 0 {
            None
        } else {
            Some(("Scalar"@, a, t, Some(unescape_tree(after.drop_first())), None))
        }
    } else if starts_with(line, "=ALI"@) {
        let rest = trim(line.skip(4));
        if rest.len() > 0 && rest[0] == '*' {
            Some(("Alias"@, None, None, Some(rest.drop_first()), None))
        } else {
            None
        }
    } else {
        None
    }
}

/// The events of the given lines, in order: blank lines and lines that
/// describe no event give none.
pub open spec fn tree_events(lines: Seq<Seq<char>>) -> Seq<
    (Seq<char>, Option<Seq<char>>, Option<Seq<char>>, Option<Seq<char>>, Option<bool>),
>
    decreases lines.len(),
{
    if lines.len() == 0 {
        seq![]
    } else {
        let rest = tree_events(lines.drop_last());
        let t = trim(lines.last());
        if t.len() == 0 {
            rest
        } else {
            match tree_line_event(t) {
                Some(v) => rest.push(v),
                None => rest,
            }
        }
    }
}

/// Lines that differ only in surrounding whitespace describe the same
/// events: a tree's indentation is cosmetic.
pub proof fn lemma_tree_indentation_cosmetic(a: Seq<Seq<char>>, b: Seq<Seq<char>>)
    requires
        a.len() == b.len(),
        forall|i: int| 0 <= i < a.len() ==> trim(#[trigger] a[i]) == trim(b[i]),
    ensures
        tree_events(a) == tree_events(b),
    decreases a.len(),
{
    if a.len() > 0 {
        assert(trim(a.last()) == trim(b.last())) by {
            assert(trim(a[a.len() - 1]) == trim(b[a.len() - 1]));
        }
        lemma_tree_indentation_cosmetic(a.drop_last(), b.drop_last());
    }
}

/// The events of consecutive runs of lines are the events of each run, one
/// after the other.
pub proof fn lemma_tree_events_concat(a: Seq<Seq<char>>, b: Seq<Seq<char>>)
    ensures
        tree_events(a + b) == tree_events(a) + tree_events(b),
    decreases b.len(),
{
    if b.len() == 0 {
        assert(a + b =~= a);
        assert(tree_events(b) =~= seq![]);
        assert(tree_events(a) + tree_events(b) =~= tree_events(a));
    } else {
        lemma_tree_events_concat(a, b.drop_last());
        assert((a + b).drop_last() =~= a + b.drop_last());
        assert((a + b).last() == b.last());
        let t = trim(b.last());
        if t.len() > 0 {
            match tree_line_event(t) {
                Some(v) => {
                    assert(tree_events(a) + tree_events(b) =~= (tree_events(a) + tree_events(
                        b.drop_last(),
                    )).push(v));
                },
                None => {},
            }
        }
    }
}

/// A blank line describes no event, wherever it stands.
pub proof fn lemma_blank_line_ignored(a: Seq<Seq<char>>, blank: Seq<char>, b: Seq<Seq<char>>)
    requires
        trim(blank).len() == 0,
    ensures
        tree_events(a + seq![blank] + b) == tree_events(a + b),
{
    lemma_tree_events_concat(a + seq![blank], b);
    lemma_tree_events_concat(a, seq![blank]);
    lemma_tree_events_concat(a, b);
    assert(seq![blank].drop_last() =~= Seq::<Seq<char>>::empty());
    assert(tree_events(Seq::<Seq<char>>::empty()) =~= seq![]);
    assert(seq![blank].last() == blank);
    assert(tree_events(seq![blank]) =~= seq![]);
    assert(tree_events(a) + tree_events(seq![blank]) =~= tree_events(a));
}

proof fn lemma_skip_skip(s: Seq<char>, i: int, k: int)
    requires
        0 <= i,
        0 <= k,
        i + k <= s.len(),
    ensures
        s.skip(i).skip(k) == s.skip(i + k),
{
    assert(s.skip(i).skip(k) =~= s.skip(i + k));
}

/// Decodes the escapes of a tree-format value.
pub fn unescape_tree_value(input: &str) -> (r: String)
    ensures
        r@ == unescape_tree(input@),
{
    let s = crate::text::to_chars(input);
    unescape_chars(&s)
}

fn unescape_chars(s: &Vec<char>) -> (r: String)
    ensures
        r@ == unescape_tree(s@),
{
    let n = s.len();
    let mut out = String::new();
    let mut i: usize = 0;
    proof {
        assert(s@.skip(0) =~= s@);
        assert(out@ + unescape_tree(s@.skip(0)) =~= unescape_tree(s@));
    }
    while i < n
        invariant
            n == s@.len(),
            i <= n,
            unescape_tree(s@) == out@ + unescape_tree(s@.skip(i as int)),
        decreases n - i,
    {
        let ghost t = s@.skip(i as int);
        let ghost before = out@;
        proof {
            assert(t[0] == s@[i as int]);
            assert(t.drop_first() =~= s@.skip(i + 1));
        }
        let ch = s[i];
        if ch != '\\' {
            out.push(ch);
            i = i + 1;
            proof {
                assert(out@ + unescape_tree(s@.skip(i as int)) =~= before + unescape_tree(t));
            }
        } else if n - i <= 1 {
            out.push('\\');
            i = i + 1;
            proof {
                assert(t.len() == 1);
                assert(s@.skip(i as int) =~= Seq::<char>::empty());
                assert(out@ + unescape_tree(s@.skip(i as int)) =~= before + unescape_tree(t));
            }
        } else {
            let e = s[i + 1];
            proof {
                assert(t[1] == e);
            }
            if e == 'x' {
                let hi = if n - i > 2 {
                    s[i + 2]
                } else {
                    '0'
                };
                let lo = if n - i > 3 {
                    s[i + 3]
                } else {
                    '0'
                };
                let next = if n - i >= 4 {
                    i + 4
                } else {
                    n
                };
                proof {
                    if i + 2 < n {
                        assert(t[2] == hi);
                    }
                    if i + 3 < n {
                        assert(t[3] == lo);
                    }
                    if i + 4 <= n {
                        lemma_skip_skip(s@, i as int, 4);
                    } else {
                        assert(s@.skip(n as int) =~= Seq::<char>::empty());
                    }
                }
                let byte = hex_byte(hi, lo);
                match byte {
                    Some(b) => {
                        out.push(b as char);
                    },
                    None => {
                        out.push('\\');
                        out.push('x');
                        out.push(hi);
                        out.push(lo);
                    },
                }
                i = next;
                proof {
                    assert(out@ + unescape_tree(s@.skip(i as int)) =~= before + unescape_tree(t));
                }
            } else {
                push_simple_unescape(&mut out, e);
                i = i + 2;
                proof {
                    lemma_skip_skip(s@, (i - 2) as int, 2);
                    assert(out@ + unescape_tree(s@.skip(i as int)) =~= before + unescape_tree(t));
                }
            }
        }
    }
    proof {
        assert(s@.skip(n as int) =~= Seq::<char>::empty());
        assert(out@ =~= unescape_tree(s@));
    }
    out
}

fn push_simple_unescape(out: &mut String, e: char)
    ensures
        final(out)@ == old(out)@ + simple_unescape(e),
{
    if e == '\\' {
        out.push('\\');
    } else if e == 'n' {
        out.push('\n');
    } else if e == 't' {
        out.push('\t');
    } else if e == 'r' {
        out.push('\r');
    } else if e == 'b' {
        out.push('\x08');
    } else if e == '0' {
        out.push('\0');
    } else {
        out.push('\\');
        out.push(e);
    }
    assert(final(out)@ =~= old(out)@ + simple_unescape(e));
}

fn hex_byte(hi: char, lo: char) -> (r: Option<u8>)
    ensures
        r == hex_pair(hi, lo),
{
    if hi == '+' {
        match hex_value(lo) {
            Some(v) => Some(v as u8),
            None => None,
        }
    } else {
        match (hex_value(hi), hex_value(lo)) {
            (Some(a), Some(b)) => Some((a * 16 + b) as u8),
            _ => None,
        }
    }
}

/// The first index of `a` or `b` in `s`, if any.
fn find_either(s: &[char], a: char, b: char) -> (r: Option<usize>)
    ensures
        r matches Some(k) ==> find_either_from(s@, a, b, 0) == Some(k as int),
        r is None ==> find_either_from(s@, a, b, 0) is None,
{
    let mut i: usize = 0;
    while i < s.len()
        invariant
            i <= s@.len(),
            find_either_from(s@, a, b, 0) == find_either_from(s@, a, b, i as int),
        decreases s@.len() - i,
    {
        if s[i] == a || s[i] == b {
            return Some(i);
        }
        i = i + 1;
    }
    None
}

proof fn lemma_find_either_bounds(s: Seq<char>, a: char, b: char, i: int)
    ensures
        find_either_from(s, a, b, i) matches Some(k) ==> i <= k < s.len(),
    decreases s.len() - i,
{
    if 0 <= i < s.len() && !(s[i] == a || s[i] == b) {
        lemma_find_either_bounds(s, a, b, i + 1);
    }
}

proof fn lemma_find_bounds(s: Seq<char>, c: char, i: int)
    ensures
        find_from(s, c, i) matches Some(k) ==> i <= k < s.len() && s[k] == c,
    decreases s.len() - i,
{
    if 0 <= i < s.len() && s[i] != c {
        lemma_find_bounds(s, c, i + 1);
    }
}

fn opt_string(v: Option<Vec<char>>) -> (r: Option<String>)
    ensures
        opt_view(r) == (match v {
            Some(x) => Some(x@),
            None => None,
        }),
{
    match v {
        Some(x) => Some(vec_to_string(&x)),
        None => None,
    }
}

/// The tag of a property rest that starts with `<`: up to the first `>`.
fn tag_of(r1: &[char]) -> (r: Option<Vec<char>>)
    ensures
        (match r {
            Some(x) => Some(x@),
            None => None,
        }) == (if r1@.len() > 0 && r1@[0] == '<' {
            match find_char(r1@, '>') {
                Some(c) => Some(r1@.subrange(1, c)),
                None => None,
            }
        } else {
            None
        }),
{
    if r1.len() > 0 && r1[0] == '<' {
        match find_char_v(r1, '>') {
            Some(c) => {
                proof {
                    lemma_find_bounds(r1@, '>', 0);
                }
                Some(copy_range(r1, 1, c))
            },
            None => None,
        }
    } else {
        None
    }
}

/// Anchor and tag of the properties after `+SEQ` or `+MAP`.
fn parse_anchor_tag(props: &[char]) -> (r: (Option<String>, Option<String>))
    ensures
        (opt_view(r.0), opt_view(r.1)) == anchor_tag(props@),
{
    if props.len() == 0 {
        return (None, None);
    }
    proof {
        reveal_strlit("[]");
        reveal_strlit("{}");
        assert("[]"@ =~= seq!['[', ']']);
        assert("{}"@ =~= seq!['{', '}']);
    }
    let r0: Vec<char> = if starts_with_v(props, "[]") || starts_with_v(props, "{}") {
        let t = copy_range(props, 2, props.len());
        let v = trim_start_v(t.as_slice());
        proof {
            assert(t@ =~= props@.skip(2));
        }
        v
    } else {
        copy_range(props, 0, props.len())
    };
    proof {
        if !(starts_with(props@, seq!['[', ']']) || starts_with(props@, seq!['{', '}'])) {
            assert(r0@ =~= props@);
        }
    }
    if r0.len() == 0 {
        return (None, None);
    }
    let (anchor, r1): (Option<Vec<char>>, Vec<char>) = if r0[0] == '&' {
        let r = copy_range(r0.as_slice(), 1, r0.len());
        proof {
            assert(r@ =~= r0@.drop_first());
            lemma_find_either_bounds(r@, ' ', '<', 0);
        }
        let end = match find_either(r.as_slice(), ' ', '<') {
            Some(e) => e,
            None => r.len(),
        };
        let a = copy_range(r.as_slice(), 0, end);
        let rest = copy_range(r.as_slice(), end, r.len());
        let rest = trim_start_v(rest.as_slice());
        proof {
            assert(a@ =~= r@.take(end as int));
            assert(r@.subrange(end as int, r@.len() as int) =~= r@.skip(end as int));
        }
        (Some(a), rest)
    } else {
        (None, r0)
    };
    let tag = tag_of(r1.as_slice());
    (opt_string(anchor), opt_string(tag))
}

/// Anchor, tag and rest of a `=VAL` line after its properties.
fn parse_val_properties(input: &[char]) -> (r: (Option<String>, Option<String>, Vec<char>))
    ensures
        (opt_view(r.0), opt_view(r.1), r.2@) == val_properties(input@),
{
    let (anchor, r1): (Option<Vec<char>>, Vec<char>) = if input.len() > 0 && input[0] == '&' {
        let r = copy_range(input, 1, input.len());
        proof {
            assert(r@ =~= input@.drop_first());
            lemma_find_bounds(r@, ' ', 0);
        }
        let end = match find_char_v(r.as_slice(), ' ') {
            Some(e) => e,
            None => r.len(),
        };
        let a = copy_range(r.as_slice(), 0, end);
        let rest = if end < r.len() {
            copy_range(r.as_slice(), end + 1, r.len())
        } else {
            Vec::new()
        };
        proof {
            assert(a@ =~= r@.take(end as int));
            if end < r@.len() {
                assert(rest@ =~= r@.skip(end + 1));
            } else {
                assert(rest@ =~= Seq::<char>::empty());
            }
        }
        (Some(a), rest)
    } else {
        let v = copy_range(input, 0, input.len());
        assert(v@ =~= input@);
        (None, v)
    };
    if r1.len() > 0 && r1[0] == '<' {
        match find_char_v(r1.as_slice(), '>') {
            Some(c) => {
                proof {
                    lemma_find_bounds(r1@, '>', 0);
                }
                let tag = copy_range(r1.as_slice(), 1, c);
                let r = copy_range(r1.as_slice(), c + 1, r1.len());
                proof {
                    assert(r@ =~= r1@.skip(c + 1));
                }
                let rest = if r.len() > 0 && r[0] == ' ' {
                    let x = copy_range(r.as_slice(), 1, r.len());
                    assert(x@ =~= r@.drop_first());
                    x
                } else {
                    r
                };
                (opt_string(anchor), Some(vec_to_string(&tag)), rest)
            },
            None => (opt_string(anchor), None, r1),
        }
    } else {
        (opt_string(anchor), None, r1)
    }
}

/// `s` from index `from`, without the spaces there.
fn skip_spaces(s: &[char], from: usize) -> (r: Vec<char>)
    requires
        from <= s@.len(),
    ensures
        r@ == trim_spaces(s@.skip(from as int)),
{
    let mut k = from;
    while k < s.len() && s[k] == ' '
        invariant
            from <= k <= s@.len(),
            trim_spaces(s@.skip(from as int)) == trim_spaces(s@.skip(k as int)),
        decreases s@.len() - k,
    {
        proof {
            assert(s@.skip(k as int).drop_first() =~= s@.skip(k + 1));
        }
        k = k + 1;
    }
    let r = copy_range(s, k, s.len());
    proof {
        assert(r@ =~= s@.skip(k as int));
    }
    r
}

fn snapshot(kind: &str, anchor: Option<String>, tag: Option<String>, value: Option<String>, implicit: Option<bool>) -> (r: EventSnapshot)
    ensures
        snap_view(r) == (kind@, opt_view(anchor), opt_view(tag), opt_view(value), implicit),
{
    EventSnapshot { kind: str_to_string(kind), anchor, tag, value, implicit }
}

/// The event a trimmed tree-format line describes, if any.
fn parse_tree_line(line: &[char]) -> (r: Option<EventSnapshot>)
    requires
        tree_line_ok(line@),
    ensures
        match tree_line_event(line@) {
            Some(v) => r matches Some(e) && snap_view(e) == v,
            None => r is None,
        },
{
    proof {
        reveal_strlit("+STR");
        reveal_strlit("-STR");
        reveal_strlit("+DOC");
        reveal_strlit("-DOC");
        reveal_strlit("+SEQ");
        reveal_strlit("-SEQ");
        reveal_strlit("+MAP");
        reveal_strlit("-MAP");
        reveal_strlit("=VAL");
        reveal_strlit("=ALI");
    }
    let n = line.len();
    if starts_with_v(line, "+STR") {
        Some(snapshot("StreamStart", None, None, None, None))
    } else if starts_with_v(line, "-STR") {
        Some(snapshot("StreamEnd", None, None, None, None))
    } else if starts_with_v(line, "+DOC") {
        let rest = trim_v(copy_range(line, 4, n).as_slice());
        proof {
            assert(line@.subrange(4, n as int) =~= line@.skip(4));
        }
        let implicit = !contains_v(rest.as_slice(), "---");
        Some(snapshot("DocumentStart", None, None, None, Some(implicit)))
    } else if starts_with_v(line, "-DOC") {
        let rest = trim_v(copy_range(line, 4, n).as_slice());
        proof {
            assert(line@.subrange(4, n as int) =~= line@.skip(4));
        }
        let implicit = !contains_v(rest.as_slice(), "...");
        Some(snapshot("DocumentEnd", None, None, None, Some(implicit)))
    } else if starts_with_v(line, "+SEQ") {
        let rest = trim_v(copy_range(line, 4, n).as_slice());
        proof {
            assert(line@.subrange(4, n as int) =~= line@.skip(4));
        }
        let (anchor, tag) = parse_anchor_tag(rest.as_slice());
        Some(snapshot("SequenceStart", anchor, tag, None, None))
    } else if starts_with_v(line, "-SEQ") {
        Some(snapshot("SequenceEnd", None, None, None, None))
    } else if starts_with_v(line, "+MAP") {
        let rest = trim_v(copy_range(line, 4, n).as_slice());
        proof {
            assert(line@.subrange(4, n as int) =~= line@.skip(4));
        }
        let (anchor, tag) = parse_anchor_tag(rest.as_slice());
        Some(snapshot("MappingStart", anchor, tag, None, None))
    } else if starts_with_v(line, "-MAP") {
        Some(snapshot("MappingEnd", None, None, None, None))
    } else if starts_with_v(line, "=VAL") {
        let rest = skip_spaces(line, 4);
        let (anchor, tag, after) = parse_val_properties(rest.as_slice());
        if after.len() == 0 {
            None
        } else {
            let value = copy_range(after.as_slice(), 1, after.len());
            proof {
                assert(value@ =~= after@.drop_first());
            }
            Some(snapshot("Scalar", anchor, tag, Some(unescape_chars(&value)), None))
        }
    } else if starts_with_v(line, "=ALI") {
        let rest = trim_v(copy_range(line, 4, n).as_slice());
        proof {
            assert(line@.subrange(4, n as int) =~= line@.skip(4));
        }
        if rest.len() > 0 && rest[0] == '*' {
            let name = copy_range(rest.as_slice(), 1, rest.len());
            proof {
                assert(name@ =~= rest@.drop_first());
            }
            Some(snapshot("Alias", None, None, Some(vec_to_string(&name)), None))
        } else {
            None
        }
    } else {
        None
    }
}

/// The events a tree-format text describes, one per non-blank line that
/// describes one; blank lines and surrounding whitespace are ignored.
pub fn parse_tree(tree: &str) -> (r: Vec<EventSnapshot>)
    requires
        forall|i: int| 0 <= i < str_lines(tree@).len() ==> tree_line_ok(trim(#[trigger] str_lines(tree@)[i])),
    ensures
        r@.map_values(|e: EventSnapshot| snap_view(e)) == tree_events(str_lines(tree@)),
{
    let chars = crate::text::to_chars(tree);
    let lines = lines_of(&chars);
    let ghost ls = str_lines(tree@);
    let mut events: Vec<EventSnapshot> = Vec::new();
    let mut i: usize = 0;
    while i < lines.len()
        invariant
            lines.deep_view() == ls,
            ls == str_lines(tree@),
            i <= ls.len(),
            forall|k: int| 0 <= k < ls.len() ==> tree_line_ok(trim(#[trigger] ls[k])),
            events@.map_values(|e: EventSnapshot| snap_view(e)) == tree_events(ls.take(i as int)),
        decreases ls.len() - i,
    {
        proof {
            assert(lines@[i as int]@ == ls[i as int]);
            assert(ls.take(i + 1).drop_last() =~= ls.take(i as int));
            assert(ls.take(i + 1).last() == ls[i as int]);
        }
        let trimmed = trim_v(lines[i].as_slice());
        if trimmed.len() > 0 {
            let ghost before = events@;
            match parse_tree_line(trimmed.as_slice()) {
                Some(e) => {
                    events.push(e);
                    proof {
                        assert(events@.map_values(|e: EventSnapshot| snap_view(e)) =~= before.map_values(
                            |e: EventSnapshot| snap_view(e),
                        ).push(snap_view(e)));
                    }
                },
                None => {},
            }
        }
        i = i + 1;
    }
    proof {
        assert(ls.take(ls.len() as int) =~= ls);
    }
    events
}

} // verus!
