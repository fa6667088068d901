//! Implementation-neutral token and event snapshots, and the comparison of
//! two streams of them: the first point where they diverge, with context.
use vstd::prelude::*;

use crate::text::str_to_string;

verus! {

/// Implementation-neutral source location.
#[derive(Debug, Clone, Copy, PartialEq, Eq, Structural)]
pub struct SpanSnapshot {
    /// Zero-indexed start line.
    pub line: u32,
    /// Zero-indexed start column.
    pub column: u32,
    /// Start byte offset.
    pub offset: usize,
    /// Zero-indexed end line.
    pub end_line: u32,
    /// Zero-indexed end column.
    pub end_column: u32,
    /// End byte offset.
    pub end_offset: usize,
}

/// The all-zero location.
pub open spec fn span_snapshot_zero() -> SpanSnapshot {
    SpanSnapshot { line: 0, column: 0, offset: 0, end_line: 0, end_column: 0, end_offset: 0 }
}

impl Default for SpanSnapshot {
    fn default() -> (r: Self)
        ensures
            r == span_snapshot_zero(),
    {
        SpanSnapshot { line: 0, column: 0, offset: 0, end_line: 0, end_column: 0, end_offset: 0 }
    }
}

/// Implementation-neutral token: names rather than enum values, so tokens of
/// different implementations can be compared.
#[derive(Debug, Clone, PartialEq, Eq)]
pub struct TokenSnapshot {
    /// Token type name (e.g. `"Scalar"`, `"StreamStart"`).
    pub kind: String,
    /// Text of scalars, anchors, aliases and tags; `None` for structural tokens.
    pub value: Option<String>,
    /// Scalar style, where one applies.
    pub style: Option<String>,
    /// Source location.
    pub span: SpanSnapshot,
}

/// Implementation-neutral event.
#[derive(Debug, Clone, PartialEq, Eq)]
pub struct EventSnapshot {
    /// Event type name (e.g. `"StreamStart"`, `"Scalar"`, `"MappingStart"`).
    pub kind: String,
    /// Anchor name, if any (without `&`).
    pub anchor: Option<String>,
    /// Tag, if any.
    pub tag: Option<String>,
    /// Scalar value or alias name.
    pub value: Option<String>,
    /// Whether a document start or end is implicit.
    pub implicit: Option<bool>,
}

/// Result of comparing token streams from two implementations.
#[derive(Debug, Clone)]
pub enum CompareResult {
    /// Token streams are identical.
    Match {
        /// Number of tokens that matched.
        token_count: usize,
    },
    /// Both produced errors with matching messages.
    BothErrorMatch,
    /// Both errored but with different messages or locations.
    BothErrorMismatch {
        /// Error from the C tokenizer (libfyaml).
        c_error: String,
        /// Error from this scanner.
        rust_error: String,
    },
    /// The C tokenizer succeeded, this scanner errored.
    CSuccessRustError {
        /// Error from this scanner.
        rust_error: String,
        /// Number of tokens the C tokenizer produced.
        c_token_count: usize,
    },
    /// This scanner succeeded, the C tokenizer errored.
    RustSuccessCError {
        /// Error from the C tokenizer (libfyaml).
        c_error: String,
        /// Number of tokens this scanner produced.
        rust_token_count: usize,
    },
    /// Token streams diverged at a specific point.
    TokenMismatch {
        /// Zero-based index where the streams first diverge.
        index: usize,
        /// The C tokenizer's token at the divergence point.
        c_token: TokenSnapshot,
        /// This scanner's token at the divergence point.
        rust_token: TokenSnapshot,
        /// The (up to five) C tokenizer tokens before the divergence.
        context: Vec<TokenSnapshot>,
    },
}

/// Result of comparing event streams from two implementations.
#[derive(Debug, Clone)]
pub enum CompareEventResult {
    /// Event streams are identical.
    Match {
        /// Number of events that matched.
        event_count: usize,
    },
    /// Both produced errors with matching messages.
    BothErrorMatch,
    /// Both errored but with different messages or locations.
    BothErrorMismatch {
        /// Error from the C tokenizer (libfyaml).
        c_error: String,
        /// Error from this parser.
        rust_error: String,
    },
    /// The C tokenizer succeeded, this parser errored.
    CSuccessRustError {
        /// Error from this parser.
        rust_error: String,
        /// Number of events the C tokenizer produced.
        c_event_count: usize,
    },
    /// This parser succeeded, the C tokenizer errored.
    RustSuccessCError {
        /// Error from the C tokenizer (libfyaml).
        c_error: String,
        /// Number of events this parser produced.
        rust_event_count: usize,
    },
    /// Event streams diverged at a specific point.
    EventMismatch {
        /// Zero-based index where the streams first diverge.
        index: usize,
        /// The C tokenizer's event at the divergence point.
        c_event: EventSnapshot,
        /// This parser's event at the divergence point.
        rust_event: EventSnapshot,
        /// The (up to five) C tokenizer events before the divergence.
        context: Vec<EventSnapshot>,
    },
}

/// The view of an optional string.
pub open spec fn opt_view(o: Option<String>) -> Option<Seq<char>> {
    match o {
        Some(s) => Some(s@),
        None => None,
    }
}

/// Two tokens match when kind, value and style agree; spans are ignored.
pub open spec fn tokens_match(a: TokenSnapshot, b: TokenSnapshot) -> bool {
    a.kind@ == b.kind@ && opt_view(a.value) == opt_view(b.value) && opt_view(a.style) == opt_view(b.style)
}

/// Two events match when kind, value, anchor and implicit agree, and (when
/// `strict`) the tag too.
pub open spec fn events_match(a: EventSnapshot, b: EventSnapshot, strict: bool) -> bool {
    &&& a.kind@ == b.kind@
    &&& opt_view(a.value) == opt_view(b.value)
    &&& opt_view(a.anchor) == opt_view(b.anchor)
    &&& a.implicit == b.implicit
    &&& strict ==> opt_view(a.tag) == opt_view(b.tag)
}

/// Where the context before `index` starts: at most five items back.
pub open spec fn context_start(index: int) -> int {
    if index >= 5 {
        index - 5
    } else {
        0
    }
}

/// The stand-in for the item past the end of the shorter stream.
pub open spec fn end_kind() -> Seq<char> {
    seq!['<', 'E', 'N', 'D', '_', 'O', 'F', '_', 'S', 'T', 'R', 'E', 'A', 'M', '>']
}

/// A token that stands for the end of a stream.
pub open spec fn is_end_token(t: TokenSnapshot) -> bool {
    t.kind@ == end_kind() && t.value is None && t.style is None && t.span == span_snapshot_zero()
}

/// An event that stands for the end of a stream.
pub open spec fn is_end_event(e: EventSnapshot) -> bool {
    e.kind@ == end_kind() && e.anchor is None && e.tag is None && e.value is None && e.implicit is None
}

/// What comparing token streams `c` and `r` returns: `Match` when they
/// have the same length and match pairwise, else a mismatch at the first
/// index where they differ (or where the shorter one ends).
pub open spec fn token_compare_post(c: Seq<TokenSnapshot>, r: Seq<TokenSnapshot>, res: CompareResult) -> bool {
    let m = if c.len() < r.len() {
        c.len()
    } else {
        r.len()
    };
    match res {
        CompareResult::Match { token_count } => {
            &&& c.len() == r.len()
            &&& token_count == c.len()
            &&& forall|i: int| 0 <= i < c.len() ==> tokens_match(#[trigger] c[i], r[i])
        },
        CompareResult::TokenMismatch { index, c_token, rust_token, context } => {
            &&& index <= m
            &&& forall|j: int| 0 <= j < index ==> tokens_match(#[trigger] c[j], r[j])
            &&& context@ == c.subrange(context_start(index as int), index as int)
            &&& if index < m {
                !tokens_match(c[index as int], r[index as int]) && c_token == c[index as int] && rust_token
                    == r[index as int]
            } else {
                &&& c.len() != r.len()
                &&& index < c.len() ==> c_token == c[index as int] && is_end_token(rust_token)
                &&& index < r.len() ==> is_end_token(c_token) && rust_token == r[index as int]
            }
        },
        _ => false,
    }
}

/// What comparing event streams `c` and `r` returns, like
/// [`token_compare_post`], with tags compared only when `strict`.
pub open spec fn event_compare_post(
    c: Seq<EventSnapshot>,
    r: Seq<EventSnapshot>,
    strict: bool,
    res: CompareEventResult,
) -> bool {
    let m = if c.len() < r.len() {
        c.len()
    } else {
        r.len()
    };
    match res {
        CompareEventResult::Match { event_count } => {
            &&& c.len() == r.len()
            &&& event_count == c.len()
            &&& forall|i: int| 0 <= i < c.len() ==> events_match(#[trigger] c[i], r[i], strict)
        },
        CompareEventResult::EventMismatch { index, c_event, rust_event, context } => {
            &&& index <= m
            &&& forall|j: int| 0 <= j < index ==> events_match(#[trigger] c[j], r[j], strict)
            &&& context@ == c.subrange(context_start(index as int), index as int)
            &&& if index < m {
                !events_match(c[index as int], r[index as int], strict) && c_event == c[index as int]
                    && rust_event == r[index as int]
            } else {
                &&& c.len() != r.len()
                &&& index < c.len() ==> c_event == c[index as int] && is_end_event(rust_event)
                &&& index < r.len() ==> is_end_event(c_event) && rust_event == r[index as int]
            }
        },
        _ => false,
    }
}

fn clone_opt_string(o: &Option<String>) -> (r: Option<String>)
    ensures
        r == *o,
{
    match o {
        Some(s) => Some(s.clone()),
        None => None,
    }
}

fn opt_string_eq(a: &Option<String>, b: &Option<String>) -> (r: bool)
    ensures
        r == (opt_view(*a) == opt_view(*b)),
{
    match (a, b) {
        (Some(x), Some(y)) => *x == *y,
        (None, None) => true,
        _ => false,
    }
}

fn clone_token(t: &TokenSnapshot) -> (r: TokenSnapshot)
    ensures
        r == *t,
{
    TokenSnapshot {
        kind: t.kind.clone(),
        value: clone_opt_string(&t.value),
        style: clone_opt_string(&t.style),
        span: t.span,
    }
}

fn clone_event(e: &EventSnapshot) -> (r: EventSnapshot)
    ensures
        r == *e,
{
    EventSnapshot {
        kind: e.kind.clone(),
        anchor: clone_opt_string(&e.anchor),
        tag: clone_opt_string(&e.tag),
        value: clone_opt_string(&e.value),
        implicit: e.implicit,
    }
}

fn token_snapshots_match(a: &TokenSnapshot, b: &TokenSnapshot) -> (r: bool)
    ensures
        r == tokens_match(*a, *b),
{
    a.kind == b.kind && opt_string_eq(&a.value, &b.value) && opt_string_eq(&a.style, &b.style)
}

fn event_snapshots_match(a: &EventSnapshot, b: &EventSnapshot, strict: bool) -> (r: bool)
    ensures
        r == events_match(*a, *b, strict),
{
    a.kind == b.kind && opt_string_eq(&a.value, &b.value) && opt_string_eq(&a.anchor, &b.anchor)
        && a.implicit == b.implicit && (!strict || opt_string_eq(&a.tag, &b.tag))
}

fn end_kind_string() -> (s: String)
    ensures
        s@ == end_kind(),
{
    let s = str_to_string("<END_OF_STREAM>");
    proof {
        reveal_strlit("<END_OF_STREAM>");
    }
    s
}

fn end_token() -> (t: TokenSnapshot)
    ensures
        is_end_token(t),
{
    TokenSnapshot { kind: end_kind_string(), value: None, style: None, span: SpanSnapshot::default() }
}

fn end_event() -> (e: EventSnapshot)
    ensures
        is_end_event(e),
{
    EventSnapshot { kind: end_kind_string(), anchor: None, tag: None, value: None, implicit: None }
}

fn token_context(tokens: &[TokenSnapshot], index: usize) -> (r: Vec<TokenSnapshot>)
    requires
        index <= tokens@.len(),
    ensures
        r@ == tokens@.subrange(context_start(index as int), index as int),
{
    let start = if index >= 5 {
        index - 5
    } else {
        0
    };
    let mut out: Vec<TokenSnapshot> = Vec::new();
    let mut i = start;
    while i < index
        invariant
            start <= i <= index <= tokens@.len(),
            start == context_start(index as int),
            out@ == tokens@.subrange(start as int, i as int),
        decreases index - i,
    {
        out.push(clone_token(&tokens[i]));
        i = i + 1;
        assert(out@ =~= tokens@.subrange(start as int, i as int));
    }
    out
}

fn event_context(events: &[EventSnapshot], index: usize) -> (r: Vec<EventSnapshot>)
    requires
        index <= events@.len(),
    ensures
        r@ == events@.subrange(context_start(index as int), index as int),
{
    let start = if index >= 5 {
        index - 5
    } else {
        0
    };
    let mut out: Vec<EventSnapshot> = Vec::new();
    let mut i = start;
    while i < index
        invariant
            start <= i <= index <= events@.len(),
            start == context_start(index as int),
            out@ == events@.subrange(start as int, i as int),
        decreases index - i,
    {
        out.push(clone_event(&events[i]));
        i = i + 1;
        assert(out@ =~= events@.subrange(start as int, i as int));
    }
    out
}

/// Compare two token streams element by element, ignoring spans. On the
/// first token that differs by kind, value or style, report it with up to
/// five preceding tokens of `c_tokens`; streams of different lengths diverge
/// where the shorter one ends.
pub fn compare_token_streams(c_tokens: &[TokenSnapshot], rust_tokens: &[TokenSnapshot]) -> (r: CompareResult)
    ensures
        token_compare_post(c_tokens@, rust_tokens@, r),
{
    let common = if c_tokens.len() < rust_tokens.len() {
        c_tokens.len()
    } else {
        rust_tokens.len()
    };
    let mut i: usize = 0;
    while i < common
        invariant
            i <= common,
            common == (if c_tokens@.len() < rust_tokens@.len() {
                c_tokens@.len()
            } else {
                rust_tokens@.len()
            }),
            forall|j: int| 0 <= j < i ==> tokens_match(#[trigger] c_tokens@[j], rust_tokens@[j]),
        decreases common - i,
    {
        if !token_snapshots_match(&c_tokens[i], &rust_tokens[i]) {
            return CompareResult::TokenMismatch {
                index: i,
                c_token: clone_token(&c_tokens[i]),
                rust_token: clone_token(&rust_tokens[i]),
                context: token_context(c_tokens, i),
            };
        }
        i = i + 1;
    }
    if c_tokens.len() != rust_tokens.len() {
        let (c_tok, rust_tok) = if i < c_tokens.len() {
            (clone_token(&c_tokens[i]), end_token())
        } else {
            (end_token(), clone_token(&rust_tokens[i]))
        };
        return CompareResult::TokenMismatch {
            index: i,
            c_token: c_tok,
            rust_token: rust_tok,
            context: token_context(c_tokens, i),
        };
    }
    CompareResult::Match { token_count: c_tokens.len() }
}

fn compare_events(c_events: &[EventSnapshot], rust_events: &[EventSnapshot], strict: bool) -> (r: CompareEventResult)
    ensures
        event_compare_post(c_events@, rust_events@, strict, r),
{
    let common = if c_events.len() < rust_events.len() {
        c_events.len()
    } else {
        rust_events.len()
    };
    let mut i: usize = 0;
    while i < common
        invariant
            i <= common,
            common == (if c_events@.len() < rust_events@.len() {
                c_events@.len()
            } else {
                rust_events@.len()
            }),
            forall|j: int| 0 <= j < i ==> events_match(#[trigger] c_events@[j], rust_events@[j], strict),
        decreases common - i,
    {
        if !event_snapshots_match(&c_events[i], &rust_events[i], strict) {
            return CompareEventResult::EventMismatch {
                index: i,
                c_event: clone_event(&c_events[i]),
                rust_event: clone_event(&rust_events[i]),
                context: event_context(c_events, i),
            };
        }
        i = i + 1;
    }
    if c_events.len() != rust_events.len() {
        let (c_evt, rust_evt) = if i < c_events.len() {
            (clone_event(&c_events[i]), end_event())
        } else {
            (end_event(), clone_event(&rust_events[i]))
        };
        return CompareEventResult::EventMismatch {
            index: i,
            c_event: c_evt,
            rust_event: rust_evt,
            context: event_context(c_events, i),
        };
    }
    CompareEventResult::Match { event_count: c_events.len() }
}

/// Compare two event streams element by element: kind, value, anchor and
/// implicit must agree; tags are skipped, since implementations may resolve
/// them to full URIs or keep the shorthand.
pub fn compare_event_streams(c_events: &[EventSnapshot], rust_events: &[EventSnapshot]) -> (r: CompareEventResult)
    ensures
        event_compare_post(c_events@, rust_events@, false, r),
{
    compare_events(c_events, rust_events, false)
}

/// Like [`compare_event_streams`], but tags must agree too.
pub fn compare_event_streams_with_tags(c_events: &[EventSnapshot], rust_events: &[EventSnapshot]) -> (r:
    CompareEventResult)
    ensures
        event_compare_post(c_events@, rust_events@, true, r),
{
    compare_events(c_events, rust_events, true)
}

/// Two event streams are reported to match only when they have the same
/// length and, at every index, the events agree in kind, value, anchor and
/// implicit flag (and, when tags count, in tag).
pub proof fn lemma_event_match_means_equal_fields(
    c: Seq<EventSnapshot>,
    r: Seq<EventSnapshot>,
    strict: bool,
    res: CompareEventResult,
)
    requires
        event_compare_post(c, r, strict, res),
        res is Match,
    ensures
        c.len() == r.len(),
        forall|i: int|
            0 <= i < c.len() ==> {
                &&& (#[trigger] c[i]).kind@ == r[i].kind@
                &&& opt_view(c[i].value) == opt_view(r[i].value)
                &&& opt_view(c[i].anchor) == opt_view(r[i].anchor)
                &&& c[i].implicit == r[i].implicit
                &&& strict ==> opt_view(c[i].tag) == opt_view(r[i].tag)
            },
{
    assert forall|i: int| 0 <= i < c.len() implies {
        &&& (#[trigger] c[i]).kind@ == r[i].kind@
        &&& opt_view(c[i].value) == opt_view(r[i].value)
        &&& opt_view(c[i].anchor) == opt_view(r[i].anchor)
        &&& c[i].implicit == r[i].implicit
        &&& strict ==> opt_view(c[i].tag) == opt_view(r[i].tag)
    } by {
        assert(events_match(c[i], r[i], strict));
    }
}

/// Two event streams in which some pair of events at the same index has
/// different values (or kinds, anchors or implicit flags) are never
/// reported to match.
pub proof fn lemma_event_difference_is_mismatch(
    c: Seq<EventSnapshot>,
    r: Seq<EventSnapshot>,
    strict: bool,
    res: CompareEventResult,
    i: int,
)
    requires
        event_compare_post(c, r, strict, res),
        0 <= i < c.len(),
        i < r.len(),
        c[i].kind@ != r[i].kind@ || opt_view(c[i].value) != opt_view(r[i].value) || opt_view(c[i].anchor)
            != opt_view(r[i].anchor) || c[i].implicit != r[i].implicit,
    ensures
        res is EventMismatch,
{
    if res is Match {
        lemma_event_match_means_equal_fields(c, r, strict, res);
        assert(c[i].kind@ == r[i].kind@);
    }
}

/// Two token streams are reported to match only when they have the same
/// length and, at every index, the tokens agree in kind, value and style.
pub proof fn lemma_token_match_means_equal_fields(c: Seq<TokenSnapshot>, r: Seq<TokenSnapshot>, res: CompareResult)
    requires
        token_compare_post(c, r, res),
        res is Match,
    ensures
        c.len() == r.len(),
        forall|i: int|
            0 <= i < c.len() ==> {
                &&& (#[trigger] c[i]).kind@ == r[i].kind@
                &&& opt_view(c[i].value) == opt_view(r[i].value)
                &&& opt_view(c[i].style) == opt_view(r[i].style)
            },
{
    assert forall|i: int| 0 <= i < c.len() implies {
        &&& (#[trigger] c[i]).kind@ == r[i].kind@
        &&& opt_view(c[i].value) == opt_view(r[i].value)
        &&& opt_view(c[i].style) == opt_view(r[i].style)
    } by {
        assert(tokens_match(c[i], r[i]));
    }
}

/// Comparing a token stream with itself finds no difference.
pub proof fn lemma_token_compare_reflexive(c: Seq<TokenSnapshot>, res: CompareResult)
    requires
        token_compare_post(c, c, res),
    ensures
        res matches CompareResult::Match { token_count } && token_count == c.len(),
{
}

/// Whether two token streams match does not depend on their order.
pub proof fn lemma_token_compare_symmetric(a: Seq<TokenSnapshot>, b: Seq<TokenSnapshot>, r1: CompareResult, r2: CompareResult)
    requires
        token_compare_post(a, b, r1),
        token_compare_post(b, a, r2),
    ensures
        (r1 is Match) == (r2 is Match),
{
    if r1 is Match {
        if let CompareResult::TokenMismatch { index, .. } = r2 {
            if index < a.len() {
                assert(tokens_match(a[index as int], b[index as int]));
            }
        }
    }
    if r2 is Match {
        if let CompareResult::TokenMismatch { index, .. } = r1 {
            if index < a.len() {
                assert(tokens_match(b[index as int], a[index as int]));
            }
        }
    }
}

/// Comparing an event stream with itself finds no difference, with or
/// without tags.
pub proof fn lemma_event_compare_reflexive(c: Seq<EventSnapshot>, strict: bool, res: CompareEventResult)
    requires
        event_compare_post(c, c, strict, res),
    ensures
        res matches CompareEventResult::Match { event_count } && event_count == c.len(),
{
}

/// Streams that match with tags compared also match without.
pub proof fn lemma_event_compare_strict_implies_loose(
    c: Seq<EventSnapshot>,
    r: Seq<EventSnapshot>,
    strict_res: CompareEventResult,
    loose_res: CompareEventResult,
)
    requires
        event_compare_post(c, r, true, strict_res),
        event_compare_post(c, r, false, loose_res),
        strict_res is Match,
    ensures
        loose_res is Match,
{
    if let CompareEventResult::EventMismatch { index, .. } = loose_res {
        if index < c.len() && index < r.len() {
            assert(events_match(c[index as int], r[index as int], true));
        }
    }
}

} // verus!
