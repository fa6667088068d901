//! YAML pull parser: consumes tokens, emits events.
//!
//! A state machine over the token stream (from this crate's scanner or from a
//! given list of tokens). Each call of [`Parser::next`] yields one event;
//! indicator events and empty scalars discovered along the way are queued.
use vstd::prelude::*;

use crate::diagnostic::Span;
use crate::harness::{token_kind_name, token_kind_string};
use crate::loader::{limit_outcome, limits_are, LoaderConfig, ResourceLimits};
use crate::reader::max_input_chars;
use crate::scanner::{ScanError, Scanner};
use crate::text::{concat2, push_str, push_string, str_to_string};
use crate::token::{ScalarStyle, Token, TokenKind};

verus! {

/// Whether a collection is written in block or flow style.
#[derive(Clone, Copy, Debug, PartialEq, Eq, Structural)]
pub enum CollectionStyle {
    /// Block style (indentation-based).
    Block,
    /// Flow style (`[...]` or `{...}`).
    Flow,
}

/// A YAML parse event.
#[derive(Clone, Debug, PartialEq, Eq)]
pub enum Event {
    /// Start of the stream.
    StreamStart,
    /// End of the stream.
    StreamEnd,
    /// `%YAML major.minor`.
    VersionDirective {
        /// Major version.
        major: u8,
        /// Minor version.
        minor: u8,
        /// Source span.
        span: Span,
    },
    /// `%TAG handle prefix`.
    TagDirective {
        /// The tag handle, e.g. `!e!`.
        handle: String,
        /// The tag prefix.
        prefix: String,
        /// Source span.
        span: Span,
    },
    /// Start of a document.
    DocumentStart {
        /// Whether the document start is implicit (no `---`).
        implicit: bool,
        /// Source span.
        span: Span,
    },
    /// End of a document.
    DocumentEnd {
        /// Whether the document end is implicit (no `...`).
        implicit: bool,
        /// Source span.
        span: Span,
    },
    /// Start of a sequence.
    SequenceStart {
        /// Anchor name, if any.
        anchor: Option<String>,
        /// Tag, if any.
        tag: Option<String>,
        /// Block or flow.
        style: CollectionStyle,
        /// Source span.
        span: Span,
    },
    /// End of a sequence.
    SequenceEnd {
        /// Source span.
        span: Span,
    },
    /// Start of a mapping.
    MappingStart {
        /// Anchor name, if any.
        anchor: Option<String>,
        /// Tag, if any.
        tag: Option<String>,
        /// Block or flow.
        style: CollectionStyle,
        /// Source span.
        span: Span,
    },
    /// End of a mapping.
    MappingEnd {
        /// Source span.
        span: Span,
    },
    /// A scalar value.
    Scalar {
        /// Anchor name, if any.
        anchor: Option<String>,
        /// Tag, if any.
        tag: Option<String>,
        /// The scalar's text.
        value: String,
        /// How the scalar was written.
        style: ScalarStyle,
        /// Source span.
        span: Span,
    },
    /// An alias (`*name`).
    Alias {
        /// The anchor name referred to.
        name: String,
        /// Source span.
        span: Span,
    },
    /// A comment.
    Comment {
        /// The comment text.
        text: String,
        /// Source span.
        span: Span,
    },
    /// A block sequence entry indicator (`-`).
    BlockEntry {
        /// Source span.
        span: Span,
    },
    /// An explicit or implicit key indicator.
    KeyIndicator {
        /// Source span.
        span: Span,
    },
    /// A value indicator (`:`).
    ValueIndicator {
        /// Source span.
        span: Span,
    },
}

/// Whether an event is one of the structural events (comments and
/// indicators) that carry no content of the document's data model.
pub open spec fn event_is_structural(e: Event) -> bool {
    e is Comment || e is BlockEntry || e is KeyIndicator || e is ValueIndicator
}

impl Event {
    /// Whether this is a comment or an indicator event.
    pub fn is_structural(&self) -> (r: bool)
        ensures
            r == event_is_structural(*self),
    {
        match self {
            Event::Comment { .. } | Event::BlockEntry { .. } | Event::KeyIndicator { .. }
            | Event::ValueIndicator { .. } => true,
            _ => false,
        }
    }
}

/// What `format!("{:?}", s)` renders for a string: its Rust debug quoting.
pub uninterp spec fn debug_quoted(s: Seq<char>) -> Seq<char>;

/// The `Debug` rendering of a string (quoted, with escapes), as std's
/// `format!("{:?}", s)` gives it; the contract names the result only.
#[verifier::external_body]
pub(crate) fn debug_quote(s: &str) -> (r: String)
    ensures
        r@ == debug_quoted(s@),
{
    format!("{:?}", s)
}

/// Errors that can occur during parsing.
#[derive(Clone, Debug)]
pub enum ParseError {
    /// An error from the scanner.
    Scan(ScanError),
    /// A token that does not fit here.
    UnexpectedToken {
        /// What would have fit.
        expected: &'static str,
        /// The token found.
        got: TokenKind,
        /// Its span.
        span: Span,
    },
    /// The token stream ended too early.
    UnexpectedEof {
        /// What would have fit.
        expected: &'static str,
        /// Where.
        span: Span,
    },
    /// A second `%YAML` directive for one document.
    DuplicateVersionDirective {
        /// Its span.
        span: Span,
    },
    /// A second `%TAG` directive for one handle.
    DuplicateTagDirective {
        /// The handle.
        handle: String,
        /// Its span.
        span: Span,
    },
    /// A tag whose handle has no prefix.
    UndefinedTagPrefix {
        /// The prefix.
        prefix: String,
        /// Its span.
        span: Span,
    },
    /// A resource limit was exceeded.
    LimitExceeded(String),
}

impl From<ScanError> for ParseError {
    fn from(e: ScanError) -> (r: ParseError) {
        ParseError::Scan(e)
    }
}

impl vstd::std_specs::convert::FromSpecImpl<ScanError> for ParseError {
    open spec fn obeys_from_spec() -> bool {
        true
    }

    open spec fn from_spec(v: ScanError) -> ParseError {
        ParseError::Scan(v)
    }
}

/// The text of a parse error, as it is shown to people.
pub open spec fn parse_error_text(e: ParseError) -> Seq<char> {
    match e {
        ParseError::Scan(e) => seq!['s', 'c', 'a', 'n', ' ', 'e', 'r', 'r', 'o', 'r', ':', ' '] + e.message@,
        ParseError::UnexpectedToken { expected, got, .. } => "unexpected "@ + token_kind_name(got)
            + ", expected "@ + expected@,
        ParseError::UnexpectedEof { expected, .. } => "unexpected end of input, expected "@ + expected@,
        ParseError::DuplicateVersionDirective { .. } => "duplicate %YAML directive"@,
        ParseError::DuplicateTagDirective { handle, .. } => "duplicate %TAG directive for handle "@
            + debug_quoted(handle@),
        ParseError::UndefinedTagPrefix { prefix, .. } => "tag prefix "@ + debug_quoted(prefix@)
            + " is not defined"@,
        ParseError::LimitExceeded(m) => "limit exceeded: "@ + m@,
    }
}

impl ParseError {
    /// Renders the error for humans.
    pub fn display(&self) -> (r: String)
        ensures
            r@ == parse_error_text(*self),
    {
        match self {
            ParseError::Scan(e) => e.display(),
            ParseError::UnexpectedToken { expected, got, .. } => {
                let mut s = str_to_string("unexpected ");
                let k = token_kind_string(*got);
                push_string(&mut s, &k);
                push_str(&mut s, ", expected ");
                push_str(&mut s, expected);
                s
            },
            ParseError::UnexpectedEof { expected, .. } => concat2("unexpected end of input, expected ", expected),
            ParseError::DuplicateVersionDirective { .. } => str_to_string("duplicate %YAML directive"),
            ParseError::DuplicateTagDirective { handle, .. } => {
                let mut s = str_to_string("duplicate %TAG directive for handle ");
                let q = debug_quote(handle.as_str());
                push_string(&mut s, &q);
                s
            },
            ParseError::UndefinedTagPrefix { prefix, .. } => {
                let mut s = str_to_string("tag prefix ");
                let q = debug_quote(prefix.as_str());
                push_string(&mut s, &q);
                push_str(&mut s, " is not defined");
                s
            },
            ParseError::LimitExceeded(m) => concat2("limit exceeded: ", m.as_str()),
        }
    }
}

/// Parser states.
#[derive(Clone, Copy, Debug, PartialEq, Eq, Structural)]
pub enum ParserState {
    /// Expect `StreamStart`.
    StreamStart,
    /// Expect directives or the beginning of a document.
    ImplicitDocumentStart,
    /// Expect an explicit `DocumentStart`.
    DocumentStart,
    /// Expect the content of a document.
    DocumentContent,
    /// Expect `DocumentEnd` or a new document.
    DocumentEnd,
    /// Expect a node.
    BlockNode,
    /// Expect the first entry of a block sequence.
    BlockSequenceFirstEntry,
    /// Expect an entry of a block sequence.
    BlockSequenceEntry,
    /// Expect an entry of an indentless sequence.
    IndentlessSequenceEntry,
    /// Expect the first key of a block mapping.
    BlockMappingFirstKey,
    /// Expect a block mapping key.
    BlockMappingKey,
    /// Expect a block mapping value.
    BlockMappingValue,
    /// Expect the first entry of a flow sequence.
    FlowSequenceFirstEntry,
    /// Expect an entry of a flow sequence.
    FlowSequenceEntry,
    /// Expect the key of a single-pair mapping inside a flow sequence.
    FlowSequenceEntryMappingKey,
    /// Expect the value of a single-pair mapping inside a flow sequence.
    FlowSequenceEntryMappingValue,
    /// Expect the end of a single-pair mapping inside a flow sequence.
    FlowSequenceEntryMappingEnd,
    /// Expect the first key of a flow mapping.
    FlowMappingFirstKey,
    /// Expect a key of a flow mapping.
    FlowMappingKey,
    /// Expect a value of a flow mapping.
    FlowMappingValue,
    /// Expect an empty value of a flow mapping.
    FlowMappingEmptyValue,
    /// The stream has ended.
    End,
}

/// Where tokens come from: this crate's scanner, or a given list (held in
/// reverse, so the next token is the last).
pub enum TokenSource {
    /// Tokens scanned from text.
    Scan(Scanner),
    /// Tokens given up front, last-first.
    List(Vec<Result<Token, ScanError>>),
}

impl TokenSource {
    /// A bound on how many more items the source yields.
    pub closed spec fn left(&self) -> nat {
        match self {
            TokenSource::Scan(s) => s.remaining(),
            TokenSource::List(v) => v@.len(),
        }
    }

    /// The source is consistent.
    pub closed spec fn wf(&self) -> bool {
        match self {
            TokenSource::Scan(s) => s.inv(),
            TokenSource::List(_) => true,
        }
    }

    /// The next item, if any.
    fn pull(&mut self) -> (r: Option<Result<Token, ScanError>>)
        requires
            old(self).wf(),
        ensures
            final(self).wf(),
            r is Some ==> final(self).left() < old(self).left(),
            r is None ==> final(self).left() == old(self).left(),
            (*old(self) matches TokenSource::List(v) ==> (*final(self) matches TokenSource::List(w) && (if v@.len() > 0 {
                r == Some(v@.last()) && w@ == v@.drop_last()
            } else {
                r is None && w@ == v@
            }))),
            (*old(self) matches TokenSource::Scan(sc) ==> (*final(self) matches TokenSource::Scan(sc2) && (r is None
                <==> sc.finished()) && sc2.input() == sc.input() && (sc.fresh() ==> (r matches Some(Ok(t))
                && t.kind == TokenKind::StreamStart)))),
    {
        match self {
            TokenSource::Scan(s) => s.next(),
            TokenSource::List(v) => v.pop(),
        }
    }
}

/// Mapping states that an indentless sequence returns to.
pub open spec fn is_block_mapping_state(s: ParserState) -> bool {
    s == ParserState::BlockMappingValue || s == ParserState::BlockMappingKey || s
        == ParserState::BlockMappingFirstKey
}

/// How many events a state can still emit, at most, before a token is
/// consumed, when the next token is of kind `k`.
pub open spec fn rank_node(k: TokenKind) -> nat {
    if k == TokenKind::BlockEntry {
        1
    } else {
        0
    }
}

/// See [`rank_node`]: the rank of the implicit-document-start state.
pub open spec fn rank_doc_begin(k: TokenKind) -> nat {
    if k == TokenKind::VersionDirective || k == TokenKind::TagDirective || k == TokenKind::DocumentStart
        || k == TokenKind::StreamEnd {
        0
    } else {
        1 + rank_node(k)
    }
}

/// See [`rank_node`]: the rank of the document-end state.
pub open spec fn rank_doc_end(k: TokenKind) -> nat {
    if k == TokenKind::DocumentEnd {
        0
    } else {
        1 + rank_doc_begin(k)
    }
}

/// See [`rank_node`]: the rank of the flow-sequence-entry state.
pub open spec fn rank_flow_entry(k: TokenKind) -> nat {
    if k == TokenKind::FlowEntry || k == TokenKind::FlowSequenceEnd {
        0
    } else if k == TokenKind::Value {
        1
    } else {
        1 + rank_node(k)
    }
}

/// See [`rank_node`]: the rank of the flow-mapping-key state.
pub open spec fn rank_flow_key(k: TokenKind) -> nat {
    if k == TokenKind::FlowEntry || k == TokenKind::FlowMappingEnd {
        0
    } else if k == TokenKind::Value {
        1
    } else {
        1 + rank_node(k)
    }
}

/// See [`rank_node`]: the rank of the value state of a single-pair mapping
/// in a flow sequence.
pub open spec fn rank_pair_value(k: TokenKind) -> nat {
    if k == TokenKind::Value {
        0
    } else {
        2 + rank_flow_entry(k)
    }
}

/// See [`rank_node`]: the rank of any state.
pub open spec fn rank(s: ParserState, k: TokenKind) -> nat {
    match s {
        ParserState::ImplicitDocumentStart => rank_doc_begin(k),
        ParserState::DocumentContent => if k == TokenKind::DocumentEnd || k == TokenKind::DocumentStart || k
            == TokenKind::StreamEnd {
            1 + rank_doc_end(k)
        } else {
            1 + rank_node(k)
        },
        ParserState::DocumentEnd => rank_doc_end(k),
        ParserState::BlockNode => rank_node(k),
        ParserState::IndentlessSequenceEntry => if k == TokenKind::BlockEntry {
            0
        } else {
            2
        },
        ParserState::BlockMappingFirstKey | ParserState::BlockMappingKey => if k == TokenKind::Value {
            1
        } else {
            0
        },
        ParserState::BlockMappingValue => if k == TokenKind::Value {
            0
        } else {
            1
        },
        ParserState::FlowSequenceFirstEntry => if k == TokenKind::FlowSequenceEnd || k == TokenKind::Key {
            0
        } else if k == TokenKind::Value {
            1
        } else {
            1 + rank_node(k)
        },
        ParserState::FlowSequenceEntry => rank_flow_entry(k),
        ParserState::FlowSequenceEntryMappingKey => 1 + rank_pair_value(k),
        ParserState::FlowSequenceEntryMappingValue => rank_pair_value(k),
        ParserState::FlowSequenceEntryMappingEnd => 1 + rank_flow_entry(k),
        ParserState::FlowMappingFirstKey => if k == TokenKind::FlowMappingEnd || k == TokenKind::Key {
            0
        } else if k == TokenKind::Value {
            1
        } else {
            1 + rank_node(k)
        },
        ParserState::FlowMappingKey => rank_flow_key(k),
        ParserState::FlowMappingValue => if k == TokenKind::Value {
            0
        } else {
            1 + rank_flow_key(k)
        },
        ParserState::FlowMappingEmptyValue => 1 + rank_flow_key(k),
        _ => 0,
    }
}

/// See [`rank_node`]: the rank of a state when the tokens have run out.
pub open spec fn rank_at_end(s: ParserState) -> nat {
    match s {
        ParserState::BlockMappingValue => 1,
        ParserState::IndentlessSequenceEntry => 2,
        ParserState::FlowSequenceEntryMappingKey => 3,
        ParserState::FlowSequenceEntryMappingValue => 2,
        ParserState::FlowSequenceEntryMappingEnd => 1,
        ParserState::FlowMappingValue => 1,
        ParserState::FlowMappingEmptyValue => 1,
        _ => 0,
    }
}

/// Whether the next `parse_next` call can recurse into another state.
pub open spec fn state_level(s: ParserState) -> nat {
    if s == ParserState::BlockNode {
        0
    } else {
        1
    }
}

impl TokenSource {
    /// The source has no more items.
    /// A scanner over text that has not handed out anything yet: its first
    /// item is the `StreamStart` token.
    pub closed spec fn starts_stream(&self) -> bool {
        match self {
            TokenSource::Scan(s) => s.fresh(),
            TokenSource::List(_) => false,
        }
    }

    /// A list source whose next item is a token other than a comment.
    pub closed spec fn next_is_token(&self) -> bool {
        match self {
            TokenSource::Scan(_) => false,
            TokenSource::List(v) => v@.len() > 0 && v@.last() is Ok && v@.last()->Ok_0.kind != TokenKind::Comment,
        }
    }

    /// For a list source, the kind of its next token (none when the next
    /// item is an error, when the list is empty, or for a scanner).
    pub closed spec fn next_kind(&self) -> Option<TokenKind> {
        match self {
            TokenSource::Scan(_) => None,
            TokenSource::List(v) => if v@.len() > 0 && v@.last() is Ok {
                Some(v@.last()->Ok_0.kind)
            } else {
                None
            },
        }
    }

    pub closed spec fn exhausted(&self) -> bool {
        match self {
            TokenSource::Scan(s) => s.finished(),
            TokenSource::List(v) => v@.len() == 0,
        }
    }

    /// The next item, if any; none exactly when the source is exhausted.
    fn next_item(&mut self) -> (r: Option<Result<Token, ScanError>>)
        requires
            old(self).wf(),
        ensures
            final(self).wf(),
            r is Some ==> final(self).left() < old(self).left(),
            r is None ==> final(self).left() == old(self).left() && final(self).exhausted() && old(self).exhausted(),
            r is Some ==> !old(self).exhausted(),
            old(self).starts_stream() ==> (r matches Some(Ok(t)) && t.kind == TokenKind::StreamStart),
            old(self).next_is_token() ==> (r matches Some(Ok(t)) && t.kind != TokenKind::Comment),
            old(self).next_kind() matches Some(k) ==> (r matches Some(Ok(t)) && t.kind == k),
    {
        match self {
            TokenSource::Scan(s) => s.next(),
            TokenSource::List(v) => v.pop(),
        }
    }
}

/// A pull parser that converts a token stream into YAML events.
pub struct Parser {
    source: TokenSource,
    state: ParserState,
    state_stack: Vec<ParserState>,
    peeked: Option<Token>,
    done: bool,
    seen_directive: bool,
    config: ResourceLimits,
    event_queue: std::collections::VecDeque<Event>,
    text: Ghost<Option<Seq<char>>>,
    history: Ghost<Seq<Result<Event, ParseError>>>,
}

impl Parser {
    /// Tokens still to come, counting the one looked ahead at.
    spec fn tokens_left(&self) -> nat {
        self.source.left() + if self.peeked is Some {
            1nat
        } else {
            0nat
        }
    }

    /// How many events can still come before the next token is consumed.
    spec fn pot(&self) -> nat {
        if self.done {
            0
        } else {
            match self.peeked {
                Some(t) => rank(self.state, t.kind),
                None => if self.source.exhausted() {
                    rank_at_end(self.state)
                } else {
                    6
                },
            }
        }
    }

    /// A measure that every emitted event lowers.
    spec fn progress(&self) -> nat {
        8 * self.tokens_left() + self.event_queue@.len() + self.pot()
    }

    /// A bound on the number of further results of [`Parser::next`].
    pub closed spec fn remaining(&self) -> nat {
        self.progress() + if self.done {
            0nat
        } else {
            1nat
        }
    }

    /// The parser has stopped: after the end of the stream or an error.
    pub closed spec fn stopped(&self) -> bool {
        self.done
    }

    /// The parser has stopped and handed out every queued event.
    pub closed spec fn finished(&self) -> bool {
        self.done && self.event_queue@.len() == 0
    }

    /// Every result that [`Parser::next`] has handed out so far, in order.
    pub closed spec fn yielded(&self) -> Seq<Result<Event, ParseError>> {
        self.history@
    }

    /// The parser was made by [`Parser::new`] over the text `input`: it
    /// scans `input` and enforces no resource limit.
    pub closed spec fn started_on(&self, input: Seq<char>) -> bool {
        &&& self.text@ == Some(input)
        &&& limits_are(self.config, None, None, None, None, None, None, None)
    }

    /// A parser over a scanner that has not produced anything yet: its
    /// first result is the `StreamStart` event.
    pub closed spec fn fresh_stream(&self) -> bool {
        self.fresh() && self.source.starts_stream()
    }

    /// A parser that has not produced anything yet.
    pub closed spec fn fresh(&self) -> bool {
        &&& self.state == ParserState::StreamStart
        &&& !self.done
        &&& self.event_queue@.len() == 0
        &&& self.peeked is None
    }

    /// Consistency of the parser: the token source, and the shape of the
    /// state stack that returning states rely on.
    pub closed spec fn wf(&self) -> bool {
        &&& self.source.wf()
        &&& self.state == ParserState::DocumentContent ==> self.state_stack@.len() > 0
            && self.state_stack@.last() == ParserState::DocumentEnd
        &&& self.state == ParserState::IndentlessSequenceEntry ==> self.state_stack@.len() > 0
            && is_block_mapping_state(self.state_stack@.last())
        &&& forall|i: int|
            0 <= i < self.state_stack@.len() ==> #[trigger] self.state_stack@[i]
                != ParserState::DocumentContent
        &&& forall|i: int|
            0 <= i < self.state_stack@.len() && #[trigger] self.state_stack@[i]
                == ParserState::IndentlessSequenceEntry ==> i > 0 && is_block_mapping_state(
                self.state_stack@[i - 1],
            )
    }

    /// What a parse step may change, and what it must keep.
    spec fn step(&self, old: &Parser, r: Result<Option<Event>, ParseError>) -> bool {
        &&& self.wf()
        &&& self.config == old.config
        &&& r is Ok && r->Ok_0 is Some ==> self.progress() < old.progress() && !self.done
        &&& r is Err ==> self.progress() <= old.progress()
        &&& r is Ok && r->Ok_0 is None ==> self.done && self.event_queue == old.event_queue && (old.done
            || old.state == ParserState::End)
    }

    /// Create a parser over YAML text, scanning it with this crate's scanner.
    pub fn new(input: &str) -> (r: Self)
        requires
            input@.len() <= max_input_chars(),
        ensures
            r.wf(),
            r.fresh(),
            r.fresh_stream(),
            limits_are(r.limits(), None, None, None, None, None, None, None),
            r.started_on(input@),
            r.yielded() == Seq::<Result<Event, ParseError>>::empty(),
    {
        let mut r = Self::from_source(TokenSource::Scan(Scanner::new(input)), ResourceLimits::none());
        r.text = Ghost(Some(input@));
        r
    }

    /// Create a parser over YAML text that enforces the resource limits of
    /// `config` (also in the scanner).
    pub fn with_config(input: &str, config: &LoaderConfig) -> (r: Self)
        requires
            input@.len() <= max_input_chars(),
        ensures
            r.wf(),
            r.fresh(),
            r.fresh_stream(),
            r.limits() == config.limits,
    {
        Self::from_source(TokenSource::Scan(Scanner::with_config(input, config)), config.limits)
    }

    /// Create a parser over a given list of scan results, in order.
    pub fn from_tokens(tokens: Vec<Result<Token, ScanError>>) -> (r: Self)
        ensures
            r.wf(),
            r.fresh(),
            limits_are(r.limits(), None, None, None, None, None, None, None),
            r.no_tokens() <==> tokens@.len() == 0,
    {
        Self::from_source(TokenSource::List(reversed(tokens)), ResourceLimits::none())
    }

    /// Like [`Parser::from_tokens`], enforcing the resource limits of `config`.
    pub fn from_tokens_with_config(tokens: Vec<Result<Token, ScanError>>, config: &LoaderConfig) -> (r: Self)
        ensures
            r.wf(),
            r.fresh(),
            r.limits() == config.limits,
            r.no_tokens() <==> tokens@.len() == 0,
    {
        Self::from_source(TokenSource::List(reversed(tokens)), config.limits)
    }

    /// The resource limits in force.
    pub closed spec fn limits(&self) -> ResourceLimits {
        self.config
    }

    /// No token is left to read.
    pub closed spec fn no_tokens(&self) -> bool {
        self.peeked is None && self.source.exhausted()
    }

    fn from_source(source: TokenSource, config: ResourceLimits) -> (r: Self)
        requires
            source.wf(),
        ensures
            r.wf(),
            r.fresh(),
            r.config == config,
            r.source == source,
            r.text@ is None,
            r.history@ == Seq::<Result<Event, ParseError>>::empty(),
    {
        Parser {
            source,
            state: ParserState::StreamStart,
            state_stack: Vec::new(),
            peeked: None,
            done: false,
            seen_directive: false,
            config,
            event_queue: std::collections::VecDeque::new(),
            text: Ghost(None),
            history: Ghost(Seq::empty()),
        }
    }

    /// Pull items until one that is not a comment, queuing comments as
    /// events.
    fn collect_comments(&mut self) -> (r: Result<Option<Token>, ParseError>)
        requires
            old(self).source.wf(),
        ensures
            final(self).source.wf(),
            *final(self) == (Parser { source: final(self).source, event_queue: final(self).event_queue, ..*old(self) }),
            r is Ok && r->Ok_0 is None ==> final(self).source.exhausted() && 8 * final(self).source.left()
                + final(self).event_queue@.len() <= 8 * old(self).source.left() + old(self).event_queue@.len(),
            !(r is Ok && r->Ok_0 is None) ==> 8 * final(self).source.left() + final(self).event_queue@.len() + 8
                <= 8 * old(self).source.left() + old(self).event_queue@.len(),
            r matches Ok(Some(t)) ==> t.kind != TokenKind::Comment,
            final(self).event_queue@.len() >= old(self).event_queue@.len(),
            old(self).source.exhausted() ==> r is Ok && r->Ok_0 is None,
            old(self).source.starts_stream() ==> (r matches Ok(Some(t)) && t.kind == TokenKind::StreamStart),
            r matches Err(e) ==> e is Scan,
            old(self).source.next_is_token() ==> (r matches Ok(Some(_))),
            (old(self).source.next_kind() is Some && old(self).source.next_kind()->Some_0 != TokenKind::Comment) ==> (r matches Ok(Some(t))
                && t.kind == old(self).source.next_kind()->Some_0),
    {
        loop
            invariant
                old(self).source.next_is_token() ==> self.source.next_is_token(),
                (old(self).source.next_kind() is Some && old(self).source.next_kind()->Some_0 != TokenKind::Comment)
                    ==> self.source == old(self).source,
                old(self).source.starts_stream() ==> self.source.starts_stream(),
                old(self).source.exhausted() ==> self.source.exhausted() && self.event_queue@.len()
                    == old(self).event_queue@.len(),
                self.event_queue@.len() >= old(self).event_queue@.len(),
                self.source.wf(),
                *self == (Parser { source: self.source, event_queue: self.event_queue, ..*old(self) }),
                8 * self.source.left() + self.event_queue@.len() <= 8 * old(self).source.left()
                    + old(self).event_queue@.len(),
            decreases self.source.left(),
        {
            match self.source.next_item() {
                None => {
                    return Ok(None);
                },
                Some(Err(e)) => {
                    return Err(ParseError::Scan(e));
                },
                Some(Ok(t)) => {
                    if t.kind == TokenKind::Comment {
                        self.event_queue.push_back(Event::Comment { text: t.atom.data, span: t.atom.span });
                    } else {
                        return Ok(Some(t));
                    }
                },
            }
        }
    }

    /// Look at the next non-comment token, returning its kind and span.
    fn peek_token(&mut self) -> (r: Result<Option<(TokenKind, Span)>, ParseError>)
        requires
            old(self).wf(),
        ensures
            final(self).wf(),
            final(self).state == old(self).state,
            final(self).state_stack == old(self).state_stack,
            final(self).done == old(self).done,
            final(self).seen_directive == old(self).seen_directive,
            final(self).config == old(self).config,
            8 * final(self).tokens_left() + final(self).event_queue@.len() <= 8 * old(self).tokens_left()
                + old(self).event_queue@.len(),
            r is Err ==> final(self).peeked is None && 8 * final(self).tokens_left() + final(self).event_queue@.len() + 8 <= 8 * old(self).tokens_left() + old(self).event_queue@.len(),
            r matches Ok(Some(p)) ==> final(self).peeked matches Some(t) && t.kind == p.0 && t.atom.span
                == p.1,
            r is Ok && r->Ok_0 is None ==> final(self).peeked is None && final(self).source.exhausted(),
            old(self).peeked is Some ==> *final(self) == *old(self),
            final(self).event_queue@.len() >= old(self).event_queue@.len(),
            old(self).peeked is None && old(self).source.exhausted() ==> r is Ok && r->Ok_0 is None,
            old(self).peeked matches Some(t) ==> r == Ok::<Option<(TokenKind, Span)>, ParseError>(
                Some((t.kind, t.atom.span)),
            ),
            r matches Err(e) ==> e is Scan,
            old(self).peeked is None && old(self).source.next_is_token() ==> r is Ok,
            (old(self).peeked is None && old(self).source.next_kind() is Some && old(self).source.next_kind()->Some_0 != TokenKind::Comment) ==> (r matches Ok(Some(p))
                && p.0 == old(self).source.next_kind()->Some_0),
    {
        match &self.peeked {
            Some(t) => {
                return Ok(Some((t.kind, t.atom.span)));
            },
            None => {},
        }
        match self.collect_comments() {
            Ok(Some(t)) => {
                let k = t.kind;
                let sp = t.atom.span;
                self.peeked = Some(t);
                Ok(Some((k, sp)))
            },
            Ok(None) => Ok(None),
            Err(e) => Err(e),
        }
    }

    /// Take the token looked ahead at.
    fn take_peeked(&mut self) -> (t: Token)
        requires
            old(self).wf(),
            old(self).peeked is Some,
        ensures
            final(self).wf(),
            t == old(self).peeked->Some_0,
            final(self).peeked is None,
            *final(self) == (Parser { peeked: None, ..*old(self) }),
            8 * final(self).tokens_left() + 8 == 8 * old(self).tokens_left(),
    {
        match self.peeked.take() {
            Some(t) => t,
            None => {
                proof {
                    assert(false);
                }
                Token {
                    kind: TokenKind::Comment,
                    atom: crate::token::Atom {
                        data: String::new(),
                        span: Span::default(),
                        style: ScalarStyle::Plain,
                        chomp: crate::token::Chomp::Clip,
                        flags: crate::token::AtomFlags::empty(),
                    },
                }
            },
        }
    }

    /// Consume the next non-comment token.
    fn next_token(&mut self) -> (r: Result<Option<Token>, ParseError>)
        requires
            old(self).wf(),
        ensures
            final(self).wf(),
            final(self).peeked is None,
            final(self).state == old(self).state,
            final(self).state_stack == old(self).state_stack,
            final(self).done == old(self).done,
            final(self).seen_directive == old(self).seen_directive,
            final(self).config == old(self).config,
            !(r is Ok && r->Ok_0 is None) ==> 8 * final(self).tokens_left() + final(self).event_queue@.len()
                + 8 <= 8 * old(self).tokens_left() + old(self).event_queue@.len(),
            r is Ok && r->Ok_0 is None ==> final(self).source.exhausted() && old(self).peeked is None && 8
                * final(self).tokens_left() + final(self).event_queue@.len() <= 8 * old(self).tokens_left()
                + old(self).event_queue@.len(),
            old(self).peeked matches Some(t) ==> r == Ok::<Option<Token>, ParseError>(Some(t)),
            old(self).peeked is None && old(self).source.starts_stream() ==> (r matches Ok(Some(t)) && t.kind
                == TokenKind::StreamStart),
            r matches Err(e) ==> e is Scan,
            old(self).peeked is None && old(self).source.exhausted() ==> r == Ok::<Option<Token>, ParseError>(None),
    {
        if self.peeked.is_some() {
            return Ok(Some(self.take_peeked()));
        }
        self.collect_comments()
    }

    /// Push a return state, checking the depth limit.
    fn push_state(&mut self, s: ParserState) -> (r: Result<(), ParseError>)
        requires
            old(self).wf(),
            s != ParserState::DocumentContent,
            s == ParserState::IndentlessSequenceEntry ==> old(self).state_stack@.len() > 0
                && is_block_mapping_state(old(self).state_stack@.last()),
            old(self).state != ParserState::DocumentContent,
            old(self).state != ParserState::IndentlessSequenceEntry,
        ensures
            final(self).wf(),
            final(self).state_stack@ == old(self).state_stack@.push(s),
            *final(self) == (Parser { state_stack: final(self).state_stack, ..*old(self) }),
            r is Ok <==> depth_ok(old(self).state_stack@.len(), old(self).config),
            r matches Err(e) ==> e is LimitExceeded,
    {
        let ghost before = self.state_stack@;
        self.state_stack.push(s);
        proof {
            assert forall|i: int|
                0 <= i < self.state_stack@.len() && #[trigger] self.state_stack@[i]
                    == ParserState::IndentlessSequenceEntry implies i > 0 && is_block_mapping_state(
                self.state_stack@[i - 1],
            ) by {
                if i < before.len() {
                    assert(self.state_stack@[i] == before[i]);
                    assert(before[i] == ParserState::IndentlessSequenceEntry);
                    assert(self.state_stack@[i - 1] == before[i - 1]);
                }
            }
            assert forall|i: int| 0 <= i < self.state_stack@.len() implies #[trigger] self.state_stack@[i]
                != ParserState::DocumentContent by {
                if i < before.len() {
                    assert(self.state_stack@[i] == before[i]);
                }
            }
        }
        match self.config.check_depth(self.state_stack.len()) {
            Err(msg) => Err(ParseError::LimitExceeded(msg)),
            Ok(()) => Ok(()),
        }
    }

    /// Pop a return state and make it the current one (`End` when none is
    /// left).
    fn pop_into_state(&mut self)
        requires
            old(self).wf(),
        ensures
            final(self).wf(),
            old(self).state_stack@.len() == 0 ==> final(self).state == ParserState::End
                && final(self).state_stack@ == old(self).state_stack@,
            old(self).state_stack@.len() > 0 ==> final(self).state == old(self).state_stack@.last()
                && final(self).state_stack@ == old(self).state_stack@.drop_last(),
            *final(self) == (Parser { state: final(self).state, state_stack: final(self).state_stack, ..*old(self) }),
    {
        let ghost before = self.state_stack@;
        match self.state_stack.pop() {
            Some(s) => {
                self.state = s;
                proof {
                    assert(before[before.len() - 1] != ParserState::DocumentContent);
                    if s == ParserState::IndentlessSequenceEntry {
                        assert(before[before.len() - 1] == ParserState::IndentlessSequenceEntry);
                        assert(self.state_stack@.last() == before[before.len() - 2]);
                    }
                    assert forall|i: int|
                        0 <= i < self.state_stack@.len() && #[trigger] self.state_stack@[i]
                            == ParserState::IndentlessSequenceEntry implies i > 0 && is_block_mapping_state(
                        self.state_stack@[i - 1],
                    ) by {
                        assert(self.state_stack@[i] == before[i]);
                        assert(before[i] == ParserState::IndentlessSequenceEntry);
                        assert(self.state_stack@[i - 1] == before[i - 1]);
                    }
                    assert forall|i: int| 0 <= i < self.state_stack@.len() implies #[trigger] self.state_stack@[i]
                        != ParserState::DocumentContent by {
                        assert(self.state_stack@[i] == before[i]);
                    }
                }
            },
            None => {
                self.state = ParserState::End;
            },
        }
    }
}

/// The items of `v` in reverse order.
fn reversed(v: Vec<Result<Token, ScanError>>) -> (r: Vec<Result<Token, ScanError>>)
    ensures
        r@.len() == v@.len(),
        r@ == v@.reverse(),
{
    let mut v = v;
    let mut out: Vec<Result<Token, ScanError>> = Vec::new();
    let ghost n = v@.len();
    let ghost all = v@;
    while v.len() > 0
        invariant
            out@.len() + v@.len() == n,
            v@ + out@.reverse() == all,
        decreases v@.len(),
    {
        let ghost before = v@;
        match v.pop() {
            Some(x) => {
                out.push(x);
                proof {
                    assert(out@.reverse() =~= seq![x] + out@.drop_last().reverse());
                    assert(before =~= v@.push(x));
                }
            },
            None => {},
        }
    }
    proof {
        assert(out@.reverse() =~= all);
        assert(out@ =~= out@.reverse().reverse());
    }
    out
}

/// A token that starts node content: a scalar or a collection start.
pub open spec fn node_start_kind(k: TokenKind) -> bool {
    k == TokenKind::Scalar || k == TokenKind::BlockSequenceStart || k == TokenKind::FlowSequenceStart || k
        == TokenKind::BlockMappingStart || k == TokenKind::FlowMappingStart
}

/// The anchor a node event carries (none for other events).
pub open spec fn node_anchor(e: Event) -> Option<String> {
    match e {
        Event::Scalar { anchor, .. } => anchor,
        Event::SequenceStart { anchor, .. } => anchor,
        Event::MappingStart { anchor, .. } => anchor,
        _ => None,
    }
}

/// The tag a node event carries (none for other events).
pub open spec fn node_tag(e: Event) -> Option<String> {
    match e {
        Event::Scalar { tag, .. } => tag,
        Event::SequenceStart { tag, .. } => tag,
        Event::MappingStart { tag, .. } => tag,
        _ => None,
    }
}

/// `e` is the empty plain scalar at `span`, with no anchor or tag.
pub open spec fn is_empty_scalar_at(e: Event, span: Span) -> bool {
    e matches Event::Scalar { anchor, tag, value, style, span: s } && anchor is None && tag is None
        && value@.len() == 0 && style == ScalarStyle::Plain && s == span
}

/// Whether one more return state stays within the depth limit.
pub open spec fn depth_ok(stack_len: nat, limits: ResourceLimits) -> bool {
    limit_outcome((stack_len + 1) as usize, limits.max_depth, seq!['d', 'e', 'p', 't', 'h']) is Ok
}

/// The empty plain scalar at `span`.
fn empty_scalar(span: Span) -> (e: Event)
    ensures
        e matches Event::Scalar { anchor, tag, value, style, span: s } && anchor is None && tag is None
            && value@.len() == 0 && style == ScalarStyle::Plain && s == span,
{
    Event::Scalar { anchor: None, tag: None, value: String::new(), style: ScalarStyle::Plain, span }
}

/// Split `%TAG` directive data at its first space into handle and prefix
/// (the prefix is empty when there is no space).
pub open spec fn spec_split_tag_directive(d: Seq<char>) -> (Seq<char>, Seq<char>) {
    if exists|i: int| 0 <= i < d.len() && d[i] == ' ' {
        let i = choose|i: int| 0 <= i < d.len() && d[i] == ' ' && forall|j: int| 0 <= j < i ==> d[j] != ' ';
        (d.subrange(0, i), d.subrange(i + 1, d.len() as int))
    } else {
        (d, seq![])
    }
}

fn split_tag_directive(data: &String) -> (r: (String, String))
    ensures
        (r.0@, r.1@) == spec_split_tag_directive(data@),
{
    let chars = crate::text::to_chars(data.as_str());
    let mut i: usize = 0;
    while i < chars.len()
        invariant
            chars@ == data@,
            i <= chars@.len(),
            forall|j: int| 0 <= j < i ==> chars@[j] != ' ',
        decreases chars@.len() - i,
    {
        if chars[i] == ' ' {
            let h = crate::text::chars_to_string(chars.as_slice(), 0, i);
            let p = crate::text::chars_to_string(chars.as_slice(), i + 1, chars.len());
            proof {
                let d = data@;
                assert(d[i as int] == ' ');
                let c = choose|c: int| 0 <= c < d.len() && d[c] == ' ' && forall|j: int| 0 <= j < c ==> d[j] != ' ';
                if c < i {
                    assert(chars@[c] != ' ');
                }
                if c > i {
                    assert(d[i as int] != ' ');
                }
            }
            return (h, p);
        }
        i = i + 1;
    }
    (crate::text::str_to_string(data.as_str()), String::new())
}

/// The value of a string of decimal digits.
pub open spec fn digits_value(s: Seq<char>) -> nat
    decreases s.len(),
{
    if s.len() == 0 {
        0
    } else {
        10 * digits_value(s.drop_last()) + (s.last() as nat - '0' as nat) as nat
    }
}

/// The digits of `s` after an optional leading `+`.
pub open spec fn unsigned_digits(s: Seq<char>) -> Seq<char> {
    if s.len() > 0 && s[0] == '+' {
        s.drop_first()
    } else {
        s
    }
}

/// Every character of `d` is an ASCII decimal digit.
pub open spec fn all_digits(d: Seq<char>) -> bool {
    forall|i: int| 0 <= i < d.len() ==> '0' <= #[trigger] d[i] <= '9'
}

/// How `u8::from_str` reads `s`: an optional `+`, then one or more decimal
/// digits whose value is at most 255.
pub open spec fn spec_parse_u8(s: Seq<char>) -> Option<u8> {
    let d = unsigned_digits(s);
    if d.len() == 0 || !all_digits(d) {
        None
    } else if digits_value(d) > 255 {
        None
    } else {
        Some(digits_value(d) as u8)
    }
}

proof fn lemma_digits_value_mono(s: Seq<char>, i: int)
    requires
        0 <= i <= s.len(),
        forall|j: int| 0 <= j < s.len() ==> '0' <= #[trigger] s[j] <= '9',
    ensures
        digits_value(s.subrange(0, i)) <= digits_value(s),
    decreases s.len() - i,
{
    if i < s.len() {
        lemma_digits_value_mono(s, i + 1);
        assert(s.subrange(0, i + 1).drop_last() =~= s.subrange(0, i));
    } else {
        assert(s.subrange(0, i) =~= s);
    }
}

fn parse_u8(s: &Vec<char>, from: usize, to: usize) -> (r: Option<u8>)
    requires
        from <= to <= s@.len(),
    ensures
        r == spec_parse_u8(s@.subrange(from as int, to as int)),
{
    let ghost whole = s@.subrange(from as int, to as int);
    let start = if from < to && s[from] == '+' {
        from + 1
    } else {
        from
    };
    let ghost d = s@.subrange(start as int, to as int);
    proof {
        if from < to && s@[from as int] == '+' {
            assert(whole.drop_first() =~= d);
        } else {
            assert(whole =~= d);
        }
    }
    if start == to {
        return None;
    }
    let mut v: u32 = 0;
    let mut i = start;
    while i < to
        invariant
            from <= start <= i <= to <= s@.len(),
            d == s@.subrange(start as int, to as int),
            whole == s@.subrange(from as int, to as int),
            d == unsigned_digits(whole),
            forall|j: int| start <= j < i ==> '0' <= #[trigger] s@[j] <= '9',
            v == digits_value(s@.subrange(start as int, i as int)),
            v <= 255,
        decreases to - i,
    {
        let c = s[i];
        if !('0' <= c && c <= '9') {
            proof {
                assert(!('0' <= d[i - start] <= '9'));
                assert(!all_digits(d));
            }
            return None;
        }
        let next = v * 10 + (c as u32 - '0' as u32);
        proof {
            assert(s@.subrange(start as int, i + 1).drop_last() =~= s@.subrange(start as int, i as int));
        }
        if next > 255 {
            proof {
                if all_digits(d) {
                    lemma_digits_value_mono(d, (i + 1 - start) as int);
                    assert(d.subrange(0, (i + 1 - start) as int) =~= s@.subrange(start as int, i + 1));
                }
            }
            return None;
        }
        v = next;
        i = i + 1;
    }
    proof {
        assert(s@.subrange(start as int, i as int) =~= d);
        assert forall|m: int| 0 <= m < d.len() implies '0' <= #[trigger] d[m] <= '9' by {
            assert(d[m] == s@[start + m]);
        }
    }
    Some(v as u8)
}

impl Parser {
    /// The parser may take a step in state `s`.
    spec fn ready(&self, s: ParserState) -> bool {
        &&& self.wf()
        &&& !self.done
        &&& self.state == s
    }

    /// Parse a `%YAML` version string like `1.2` into `(major, minor)`.
    fn parse_version_string(data: &String, span: Span) -> (r: Result<(u8, u8), ParseError>)
        ensures
            r matches Ok((major, minor)) ==> exists|i: int|
                0 <= i < data@.len() && data@[i] == '.' && (forall|j: int| 0 <= j < data@.len() && j != i ==> data@[j] != '.')
                    && spec_parse_u8(data@.subrange(0, i)) == Some(major) && spec_parse_u8(
                    data@.subrange(i + 1, data@.len() as int),
                ) == Some(minor),
            r matches Err(e) ==> e matches ParseError::UnexpectedToken { got, span: s, .. } && got
                == TokenKind::VersionDirective && s == span,
    {
        let chars = crate::text::to_chars(data.as_str());
        let mut dots: usize = 0;
        let mut dot_at: usize = 0;
        let mut i: usize = 0;
        while i < chars.len()
            invariant
                chars@ == data@,
                i <= chars@.len(),
                dots <= i,
                dots == 0 ==> forall|j: int| 0 <= j < i ==> chars@[j] != '.',
                dots >= 1 ==> dot_at < i && chars@[dot_at as int] == '.' && forall|j: int|
                    0 <= j < i && chars@[j] == '.' && j != dot_at ==> dots >= 2,
                dots == 1 ==> forall|j: int| 0 <= j < i && j != dot_at ==> chars@[j] != '.',
            decreases chars@.len() - i,
        {
            if chars[i] == '.' {
                if dots == 0 {
                    dot_at = i;
                }
                dots = if dots < 2 {
                    dots + 1
                } else {
                    2
                };
            }
            i = i + 1;
        }
        if dots != 1 {
            return Err(
                ParseError::UnexpectedToken {
                    expected: "version string (e.g. 1.2)",
                    got: TokenKind::VersionDirective,
                    span,
                },
            );
        }
        let major = match parse_u8(&chars, 0, dot_at) {
            Some(m) => m,
            None => {
                return Err(
                    ParseError::UnexpectedToken {
                        expected: "numeric major version",
                        got: TokenKind::VersionDirective,
                        span,
                    },
                );
            },
        };
        let minor = match parse_u8(&chars, dot_at + 1, chars.len()) {
            Some(m) => m,
            None => {
                return Err(
                    ParseError::UnexpectedToken {
                        expected: "numeric minor version",
                        got: TokenKind::VersionDirective,
                        span,
                    },
                );
            },
        };
        Ok((major, minor))
    }

    /// Expect `StreamStart`.
    fn parse_stream_start(&mut self) -> (r: Result<Option<Event>, ParseError>)
        requires
            old(self).ready(ParserState::StreamStart),
        ensures
            final(self).step(old(self), r),
            r matches Ok(Some(e)) ==> e == Event::StreamStart,
            (old(self).peeked matches Some(t) && t.kind == TokenKind::StreamStart) || (old(self).peeked is None
                && old(self).source.starts_stream()) ==> r == Ok::<Option<Event>, ParseError>(Some(Event::StreamStart))
                && final(self).state == ParserState::ImplicitDocumentStart,
            (old(self).peeked matches Some(t) && t.kind != TokenKind::StreamStart) ==> r is Err,
            old(self).peeked is None && old(self).source.exhausted() ==> r matches Err(ParseError::UnexpectedEof { .. }),
    {
        match self.next_token() {
            Err(e) => Err(e),
            Ok(None) => Err(ParseError::UnexpectedEof { expected: "StreamStart", span: Span::default() }),
            Ok(Some(t)) => {
                if t.kind == TokenKind::StreamStart {
                    self.state = ParserState::ImplicitDocumentStart;
                    Ok(Some(Event::StreamStart))
                } else {
                    Err(ParseError::UnexpectedToken { expected: "StreamStart", got: t.kind, span: t.atom.span })
                }
            },
        }
    }

    /// Directives, or the beginning of a document (implicit or `---`), or
    /// the end of the stream.
    fn parse_implicit_document_start(&mut self) -> (r: Result<Option<Event>, ParseError>)
        requires
            old(self).ready(ParserState::ImplicitDocumentStart),
        ensures
            final(self).step(old(self), r),
            (old(self).peeked matches Some(t) && t.kind == TokenKind::StreamEnd) ==> r == Ok::<
                Option<Event>,
                ParseError,
            >(Some(Event::StreamEnd)) && final(self).state == ParserState::End,
            (old(self).peeked matches Some(t) && t.kind == TokenKind::TagDirective) ==> (r matches Ok(
                Some(Event::TagDirective { span, .. }),
            ) && span == old(self).peeked->Some_0.atom.span),
            (old(self).peeked matches Some(t) && t.kind == TokenKind::VersionDirective) ==> (r matches Ok(Some(e))
                ==> e is VersionDirective),
            (old(self).peeked matches Some(t) && t.kind != TokenKind::StreamEnd && t.kind != TokenKind::TagDirective
                && t.kind != TokenKind::VersionDirective && t.kind != TokenKind::DocumentStart && t.kind
                != TokenKind::DocumentEnd && depth_ok(old(self).state_stack@.len(), old(self).config)) ==> r == Ok::<
                Option<Event>,
                ParseError,
            >(Some(Event::DocumentStart { implicit: true, span: old(self).peeked->Some_0.atom.span }))
                && final(self).state == ParserState::BlockNode,
            (old(self).peeked matches Some(t) && t.kind == TokenKind::DocumentStart && depth_ok(
                old(self).state_stack@.len(),
                old(self).config,
            )) ==> r == Ok::<Option<Event>, ParseError>(
                Some(Event::DocumentStart { implicit: false, span: old(self).peeked->Some_0.atom.span }),
            ) && final(self).state == ParserState::DocumentContent,
        decreases old(self).tokens_left(), 1nat, 1nat,
    {
        let peek = match self.peek_token() {
            Err(e) => {
                return Err(e);
            },
            Ok(p) => p,
        };
        match peek {
            None => Err(
                ParseError::UnexpectedEof { expected: "document start or stream end", span: Span::default() },
            ),
            Some((k, sp)) => {
                if k == TokenKind::VersionDirective {
                    self.seen_directive = true;
                    let t = self.take_peeked();
                    match Self::parse_version_string(&t.atom.data, t.atom.span) {
                        Ok((major, minor)) => Ok(Some(Event::VersionDirective { major, minor, span: t.atom.span })),
                        Err(e) => Err(e),
                    }
                } else if k == TokenKind::TagDirective {
                    self.seen_directive = true;
                    let t = self.take_peeked();
                    let (handle, prefix) = split_tag_directive(&t.atom.data);
                    Ok(Some(Event::TagDirective { handle, prefix, span: t.atom.span }))
                } else if k == TokenKind::DocumentStart {
                    self.seen_directive = false;
                    self.state = ParserState::DocumentStart;
                    self.parse_document_start()
                } else if k == TokenKind::DocumentEnd && !self.seen_directive {
                    let _t = self.take_peeked();
                    self.parse_next()
                } else if k == TokenKind::StreamEnd {
                    let _t = self.take_peeked();
                    self.state = ParserState::End;
                    Ok(Some(Event::StreamEnd))
                } else {
                    self.seen_directive = false;
                    match self.push_state(ParserState::DocumentEnd) {
                        Err(e) => {
                            return Err(e);
                        },
                        Ok(()) => {},
                    }
                    self.state = ParserState::BlockNode;
                    Ok(Some(Event::DocumentStart { implicit: true, span: sp }))
                }
            },
        }
    }

    /// Consume `---` and start an explicit document.
    fn parse_document_start(&mut self) -> (r: Result<Option<Event>, ParseError>)
        requires
            old(self).ready(ParserState::DocumentStart),
        ensures
            final(self).step(old(self), r),
            (old(self).peeked matches Some(t) && t.kind == TokenKind::DocumentStart && depth_ok(
                old(self).state_stack@.len(),
                old(self).config,
            )) ==> r == Ok::<Option<Event>, ParseError>(
                Some(Event::DocumentStart { implicit: false, span: old(self).peeked->Some_0.atom.span }),
            ) && final(self).state == ParserState::DocumentContent,
            (old(self).peeked matches Some(t) && t.kind != TokenKind::DocumentStart) ==> r is Err,
    {
        match self.next_token() {
            Err(e) => Err(e),
            Ok(None) => Err(ParseError::UnexpectedEof { expected: "DocumentStart (---)", span: Span::default() }),
            Ok(Some(t)) => {
                if t.kind == TokenKind::DocumentStart {
                    match self.push_state(ParserState::DocumentEnd) {
                        Err(e) => {
                            return Err(e);
                        },
                        Ok(()) => {},
                    }
                    self.state = ParserState::DocumentContent;
                    Ok(Some(Event::DocumentStart { implicit: false, span: t.atom.span }))
                } else {
                    Err(
                        ParseError::UnexpectedToken {
                            expected: "DocumentStart (---)",
                            got: t.kind,
                            span: t.atom.span,
                        },
                    )
                }
            },
        }
    }

    /// The content of an explicit document, or an empty scalar for an empty
    /// document.
    fn parse_document_content(&mut self) -> (r: Result<Option<Event>, ParseError>)
        requires
            old(self).ready(ParserState::DocumentContent),
        ensures
            final(self).step(old(self), r),
            (old(self).peeked matches Some(t) && (t.kind == TokenKind::DocumentEnd || t.kind
                == TokenKind::DocumentStart || t.kind == TokenKind::StreamEnd)) ==> (r matches Ok(Some(e))
                && is_empty_scalar_at(e, old(self).peeked->Some_0.atom.span)),
        decreases old(self).tokens_left(), 1nat, 1nat,
    {
        let peek = match self.peek_token() {
            Err(e) => {
                return Err(e);
            },
            Ok(p) => p,
        };
        match peek {
            None => Err(
                ParseError::UnexpectedEof {
                    expected: "document content or document end",
                    span: Span::default(),
                },
            ),
            Some((k, sp)) => {
                if k == TokenKind::DocumentEnd || k == TokenKind::DocumentStart || k == TokenKind::StreamEnd {
                    self.pop_into_state();
                    Ok(Some(empty_scalar(sp)))
                } else {
                    self.state = ParserState::BlockNode;
                    self.parse_next()
                }
            },
        }
    }

    /// An explicit (`...`) or implicit document end.
    fn parse_document_end(&mut self) -> (r: Result<Option<Event>, ParseError>)
        requires
            old(self).ready(ParserState::DocumentEnd),
        ensures
            final(self).step(old(self), r),
            (old(self).peeked matches Some(t) && t.kind == TokenKind::DocumentEnd) ==> r == Ok::<
                Option<Event>,
                ParseError,
            >(Some(Event::DocumentEnd { implicit: false, span: old(self).peeked->Some_0.atom.span })),
            (old(self).peeked matches Some(t) && t.kind != TokenKind::DocumentEnd) ==> r == Ok::<
                Option<Event>,
                ParseError,
            >(Some(Event::DocumentEnd { implicit: true, span: old(self).peeked->Some_0.atom.span })),
            old(self).peeked is Some ==> final(self).state == ParserState::ImplicitDocumentStart,
    {
        let peek = match self.peek_token() {
            Err(e) => {
                return Err(e);
            },
            Ok(p) => p,
        };
        match peek {
            None => Err(
                ParseError::UnexpectedEof { expected: "document end or next document", span: Span::default() },
            ),
            Some((k, sp)) => {
                if k == TokenKind::DocumentEnd {
                    let t = self.take_peeked();
                    self.state = ParserState::ImplicitDocumentStart;
                    Ok(Some(Event::DocumentEnd { implicit: false, span: t.atom.span }))
                } else {
                    self.state = ParserState::ImplicitDocumentStart;
                    Ok(Some(Event::DocumentEnd { implicit: true, span: sp }))
                }
            },
        }
    }
}
impl Parser {
    /// A node: an alias, or a scalar or collection start with an optional
    /// anchor and tag (in either order), or an empty scalar carrying just an
    /// anchor or tag.
    #[verifier::rlimit(40)]
    fn parse_node(&mut self) -> (r: Result<Option<Event>, ParseError>)
        requires
            old(self).ready(ParserState::BlockNode),
        ensures
            final(self).step(old(self), r),
            (old(self).peeked matches Some(t) && t.kind == TokenKind::Alias) ==> r == Ok::<Option<Event>, ParseError>(Some(Event::Alias { name: old(self).peeked->Some_0.atom.data, span: old(self).peeked->Some_0.atom.span })),
            (old(self).peeked matches Some(t) && t.kind == TokenKind::Scalar) ==> r == Ok::<Option<Event>, ParseError>(Some(Event::Scalar { anchor: None, tag: None, value: old(self).peeked->Some_0.atom.data, style: old(self).peeked->Some_0.atom.style, span: old(self).peeked->Some_0.atom.span })),
            (old(self).peeked matches Some(t) && t.kind == TokenKind::BlockSequenceStart) ==> r == Ok::<Option<Event>, ParseError>(Some(Event::SequenceStart { anchor: None, tag: None, style: CollectionStyle::Block, span: old(self).peeked->Some_0.atom.span }))
                && final(self).state == ParserState::BlockSequenceFirstEntry,
            (old(self).peeked matches Some(t) && t.kind == TokenKind::FlowSequenceStart) ==> r == Ok::<Option<Event>, ParseError>(Some(Event::SequenceStart { anchor: None, tag: None, style: CollectionStyle::Flow, span: old(self).peeked->Some_0.atom.span }))
                && final(self).state == ParserState::FlowSequenceFirstEntry,
            (old(self).peeked matches Some(t) && t.kind == TokenKind::BlockMappingStart) ==> r == Ok::<Option<Event>, ParseError>(Some(Event::MappingStart { anchor: None, tag: None, style: CollectionStyle::Block, span: old(self).peeked->Some_0.atom.span }))
                && final(self).state == ParserState::BlockMappingFirstKey,
            (old(self).peeked matches Some(t) && t.kind == TokenKind::FlowMappingStart) ==> r == Ok::<Option<Event>, ParseError>(Some(Event::MappingStart { anchor: None, tag: None, style: CollectionStyle::Flow, span: old(self).peeked->Some_0.atom.span }))
                && final(self).state == ParserState::FlowMappingFirstKey,
            (old(self).peeked matches Some(t) && t.kind != TokenKind::Alias && t.kind != TokenKind::Scalar && t.kind
                != TokenKind::Anchor && t.kind != TokenKind::Tag && t.kind != TokenKind::BlockEntry && t.kind
                != TokenKind::BlockSequenceStart && t.kind != TokenKind::FlowSequenceStart && t.kind
                != TokenKind::BlockMappingStart && t.kind != TokenKind::FlowMappingStart) ==> (r matches Err(
                ParseError::UnexpectedToken { got, .. },
            ) && got == old(self).peeked->Some_0.kind),
            (old(self).peeked matches Some(t) && t.kind == TokenKind::Anchor && r matches Ok(Some(ev))) ==> node_anchor(
                r->Ok_0->Some_0,
            ) == Some(old(self).peeked->Some_0.atom.data),
            (old(self).peeked matches Some(t) && t.kind == TokenKind::Tag && r matches Ok(Some(ev))) ==> node_tag(
                r->Ok_0->Some_0,
            ) == Some(old(self).peeked->Some_0.atom.data),
            (old(self).peeked matches Some(t) && (t.kind == TokenKind::Anchor || t.kind == TokenKind::Tag)
                && old(self).source.next_kind() is Some && node_start_kind(old(self).source.next_kind()->Some_0)) ==> (r matches Ok(Some(ev))
                && node_start_kind(old(self).source.next_kind()->Some_0)),
    {
        let first = match self.peek_token() {
            Err(e) => {
                return Err(e);
            },
            Ok(p) => p,
        };
        match first {
            Some((k, _)) => {
                if k == TokenKind::Alias {
                    let t = self.take_peeked();
                    self.pop_into_state();
                    return Ok(Some(Event::Alias { name: t.atom.data, span: t.atom.span }));
                }
            },
            None => {
                return Err(ParseError::UnexpectedEof { expected: "node content", span: Span::default() });
            },
        }
        let ghost after_first = *self;
        let mut anchor: Option<String> = None;
        let mut tag: Option<String> = None;
        let mut anchor_span: Option<Span> = None;
        loop
            invariant
                self.wf(),
                !self.done,
                self.state == ParserState::BlockNode,
                self.config == old(self).config,
                self.state_stack == old(self).state_stack,
                8 * self.tokens_left() + self.event_queue@.len() <= 8 * old(self).tokens_left() + old(self).event_queue@.len(),
                (anchor is Some || tag is Some) ==> 8 * self.tokens_left() + self.event_queue@.len() + 8
                    <= 8 * old(self).tokens_left() + old(self).event_queue@.len(),
                self.event_queue@.len() >= old(self).event_queue@.len(),
                (anchor is None && tag is None) ==> *self == after_first,
                after_first.peeked is Some,
                old(self).peeked is Some ==> after_first == *old(self),
                old(self).peeked is None ==> !old(self).source.exhausted(),
                after_first.peeked matches Some(t) && t.kind != TokenKind::Alias,
                (old(self).peeked matches Some(t) && t.kind != TokenKind::Anchor && t.kind != TokenKind::Tag) ==> (
                anchor is None && tag is None),
                (old(self).peeked matches Some(t) && t.kind == TokenKind::Anchor) ==> ((anchor is None && tag is None)
                    || anchor == Some(old(self).peeked->Some_0.atom.data)),
                (old(self).peeked matches Some(t) && t.kind == TokenKind::Tag) ==> ((anchor is None && tag is None)
                    || tag == Some(old(self).peeked->Some_0.atom.data)),
                (old(self).peeked matches Some(t) && (t.kind == TokenKind::Anchor || t.kind == TokenKind::Tag)
                    && old(self).source.next_kind() is Some && node_start_kind(old(self).source.next_kind()->Some_0)) ==> ((anchor is None
                    && tag is None) || (self.peeked is None && self.source == old(self).source) || (
                self.peeked matches Some(t2) && node_start_kind(t2.kind))),
            ensures
                (old(self).peeked matches Some(t) && (t.kind == TokenKind::Anchor || t.kind == TokenKind::Tag)
                    && old(self).source.next_kind() is Some && node_start_kind(old(self).source.next_kind()->Some_0))
                    ==> (self.peeked matches Some(t2) && node_start_kind(t2.kind)),
            decreases self.tokens_left(),
        {
            let p = match self.peek_token() {
                Err(e) => {
                    return Err(e);
                },
                Ok(p) => p,
            };
            match p {
                Some((k, _)) => {
                    if k == TokenKind::Anchor && anchor.is_none() {
                        let t = self.take_peeked();
                        anchor_span = Some(t.atom.span);
                        anchor = Some(t.atom.data);
                    } else if k == TokenKind::Tag && tag.is_none() {
                        let t = self.take_peeked();
                        if anchor_span.is_none() {
                            anchor_span = Some(t.atom.span);
                        }
                        tag = Some(t.atom.data);
                    } else {
                        break;
                    }
                },
                None => break,
            }
        }
        let has_props = anchor.is_some() || tag.is_some();
        let prop_span = match anchor_span {
            Some(s) => s,
            None => Span::default(),
        };
        let p = match self.peek_token() {
            Err(e) => {
                return Err(e);
            },
            Ok(p) => p,
        };
        match p {
            None => {
                if has_props {
                    self.pop_into_state();
                    Ok(
                        Some(
                            Event::Scalar {
                                anchor,
                                tag,
                                value: String::new(),
                                style: ScalarStyle::Plain,
                                span: prop_span,
                            },
                        ),
                    )
                } else {
                    Err(ParseError::UnexpectedEof { expected: "node content", span: Span::default() })
                }
            },
            Some((k, sp)) => {
                if k == TokenKind::Scalar {
                    let t = self.take_peeked();
                    self.pop_into_state();
                    Ok(
                        Some(
                            Event::Scalar {
                                anchor,
                                tag,
                                value: t.atom.data,
                                style: t.atom.style,
                                span: t.atom.span,
                            },
                        ),
                    )
                } else if k == TokenKind::BlockSequenceStart || k == TokenKind::FlowSequenceStart {
                    let t = self.take_peeked();
                    let style = if k == TokenKind::BlockSequenceStart {
                        self.state = ParserState::BlockSequenceFirstEntry;
                        CollectionStyle::Block
                    } else {
                        self.state = ParserState::FlowSequenceFirstEntry;
                        CollectionStyle::Flow
                    };
                    Ok(Some(Event::SequenceStart { anchor, tag, style, span: t.atom.span }))
                } else if k == TokenKind::BlockMappingStart || k == TokenKind::FlowMappingStart {
                    let t = self.take_peeked();
                    let style = if k == TokenKind::BlockMappingStart {
                        self.state = ParserState::BlockMappingFirstKey;
                        CollectionStyle::Block
                    } else {
                        self.state = ParserState::FlowMappingFirstKey;
                        CollectionStyle::Flow
                    };
                    Ok(Some(Event::MappingStart { anchor, tag, style, span: t.atom.span }))
                } else if k == TokenKind::BlockEntry {
                    let n = self.state_stack.len();
                    let in_mapping = n > 0 && (self.state_stack[n - 1] == ParserState::BlockMappingValue
                        || self.state_stack[n - 1] == ParserState::BlockMappingKey || self.state_stack[n - 1]
                        == ParserState::BlockMappingFirstKey);
                    if in_mapping {
                        self.state = ParserState::IndentlessSequenceEntry;
                        Ok(Some(Event::SequenceStart { anchor, tag, style: CollectionStyle::Block, span: sp }))
                    } else if has_props {
                        self.pop_into_state();
                        Ok(
                            Some(
                                Event::Scalar {
                                    anchor,
                                    tag,
                                    value: String::new(),
                                    style: ScalarStyle::Plain,
                                    span: prop_span,
                                },
                            ),
                        )
                    } else {
                        Err(ParseError::UnexpectedToken { expected: "node content", got: TokenKind::BlockEntry, span: sp })
                    }
                } else if has_props {
                    self.pop_into_state();
                    Ok(
                        Some(
                            Event::Scalar {
                                anchor,
                                tag,
                                value: String::new(),
                                style: ScalarStyle::Plain,
                                span: prop_span,
                            },
                        ),
                    )
                } else {
                    Err(
                        ParseError::UnexpectedToken {
                            expected: "node content (scalar, sequence, mapping, alias, or anchor/tag)",
                            got: k,
                            span: sp,
                        },
                    )
                }
            },
        }
    }

    /// After a `-` entry indicator: queue an empty scalar when the entry is
    /// empty (the next token is one of `empty_before`), else go parse the
    /// entry's node and come back to `back`.
    fn block_entry_tail(&mut self, entry_span: Span, back: ParserState, stop_key_value: bool) -> (r: Result<Option<Event>, ParseError>)
        requires
            old(self).wf(),
            !old(self).done,
            old(self).peeked is None,
            old(self).state == back,
            back == ParserState::BlockSequenceEntry || back == ParserState::IndentlessSequenceEntry,
            back == ParserState::IndentlessSequenceEntry ==> old(self).state_stack@.len() > 0
                && is_block_mapping_state(old(self).state_stack@.last()),
        ensures
            final(self).wf(),
            final(self).config == old(self).config,
            !final(self).done,
            r is Ok ==> r->Ok_0 is Some && 8 * final(self).tokens_left() + final(self).event_queue@.len()
                <= 8 * old(self).tokens_left() + old(self).event_queue@.len() + 1,
            r is Err ==> 8 * final(self).tokens_left() + final(self).event_queue@.len() <= 8 * old(self).tokens_left() + old(self).event_queue@.len(),
            r is Ok ==> r == Ok::<Option<Event>, ParseError>(Some(Event::BlockEntry { span: entry_span })),
            r matches Err(e) ==> e is Scan || (e is LimitExceeded && !depth_ok(
                old(self).state_stack@.len(),
                old(self).config,
            )),
            old(self).source.next_is_token() && depth_ok(old(self).state_stack@.len(), old(self).config) ==> r is Ok,
    {
        let p = match self.peek_token() {
            Err(e) => {
                return Err(e);
            },
            Ok(p) => p,
        };
        let empty = match p {
            Some((k, _)) => k == TokenKind::BlockEntry || k == TokenKind::BlockEnd || (stop_key_value && (k
                == TokenKind::Key || k == TokenKind::Value)),
            None => false,
        };
        if empty {
            let sp = match p {
                Some((_, sp)) => sp,
                None => Span::default(),
            };
            self.event_queue.push_back(empty_scalar(sp));
            Ok(Some(Event::BlockEntry { span: entry_span }))
        } else {
            self.state = ParserState::BlockNode;
            match self.push_state(back) {
                Err(e) => {
                    return Err(e);
                },
                Ok(()) => {},
            }
            Ok(Some(Event::BlockEntry { span: entry_span }))
        }
    }

    /// The first `-` of a block sequence.
    fn parse_block_sequence_first_entry(&mut self) -> (r: Result<Option<Event>, ParseError>)
        requires
            old(self).ready(ParserState::BlockSequenceFirstEntry),
        ensures
            final(self).step(old(self), r),
            (old(self).peeked matches Some(t) && t.kind == TokenKind::BlockEntry) ==> (r is Ok ==> r == Ok::<
                Option<Event>,
                ParseError,
            >(Some(Event::BlockEntry { span: old(self).peeked->Some_0.atom.span }))) && (r matches Err(e) ==> e is Scan
                || e is LimitExceeded),
            (old(self).peeked matches Some(t) && t.kind != TokenKind::BlockEntry) ==> (r matches Err(
                ParseError::UnexpectedToken { got, .. },
            ) && got == old(self).peeked->Some_0.kind),
            (old(self).peeked matches Some(t) && t.kind == TokenKind::BlockEntry && old(self).source.next_is_token() && depth_ok(
                old(self).state_stack@.len(),
                old(self).config,
            )) ==> r == Ok::<Option<Event>, ParseError>(Some(Event::BlockEntry { span: old(self).peeked->Some_0.atom.span })),
    {
        let p = match self.peek_token() {
            Err(e) => {
                return Err(e);
            },
            Ok(p) => p,
        };
        match p {
            None => Err(
                ParseError::UnexpectedEof { expected: "BlockEntry (-) in block sequence", span: Span::default() },
            ),
            Some((k, sp)) => {
                if k == TokenKind::BlockEntry {
                    let t = self.take_peeked();
                    self.state = ParserState::BlockSequenceEntry;
                    self.block_entry_tail(t.atom.span, ParserState::BlockSequenceEntry, false)
                } else {
                    Err(ParseError::UnexpectedToken { expected: "BlockEntry (-) in block sequence", got: k, span: sp })
                }
            },
        }
    }

    /// Another `-` of a block sequence, or its end.
    fn parse_block_sequence_entry(&mut self) -> (r: Result<Option<Event>, ParseError>)
        requires
            old(self).ready(ParserState::BlockSequenceEntry),
        ensures
            final(self).step(old(self), r),
            (old(self).peeked matches Some(t) && t.kind == TokenKind::BlockEntry) ==> (r is Ok ==> r == Ok::<
                Option<Event>,
                ParseError,
            >(Some(Event::BlockEntry { span: old(self).peeked->Some_0.atom.span }))) && (r matches Err(e) ==> e is Scan
                || e is LimitExceeded),
            (old(self).peeked matches Some(t) && t.kind == TokenKind::BlockEnd) ==> r == Ok::<Option<Event>, ParseError>(
                Some(Event::SequenceEnd { span: old(self).peeked->Some_0.atom.span }),
            ),
            (old(self).peeked matches Some(t) && t.kind != TokenKind::BlockEntry && t.kind != TokenKind::BlockEnd)
                ==> (r matches Err(ParseError::UnexpectedToken { got, .. }) && got == old(self).peeked->Some_0.kind),
            (old(self).peeked matches Some(t) && t.kind == TokenKind::BlockEntry && old(self).source.next_is_token() && depth_ok(
                old(self).state_stack@.len(),
                old(self).config,
            )) ==> r == Ok::<Option<Event>, ParseError>(Some(Event::BlockEntry { span: old(self).peeked->Some_0.atom.span })),
    {
        let p = match self.peek_token() {
            Err(e) => {
                return Err(e);
            },
            Ok(p) => p,
        };
        match p {
            None => Err(
                ParseError::UnexpectedEof {
                    expected: "BlockEntry (-) or BlockEnd in block sequence",
                    span: Span::default(),
                },
            ),
            Some((k, sp)) => {
                if k == TokenKind::BlockEntry {
                    let t = self.take_peeked();
                    self.block_entry_tail(t.atom.span, ParserState::BlockSequenceEntry, false)
                } else if k == TokenKind::BlockEnd {
                    let t = self.take_peeked();
                    self.pop_into_state();
                    Ok(Some(Event::SequenceEnd { span: t.atom.span }))
                } else {
                    Err(
                        ParseError::UnexpectedToken {
                            expected: "BlockEntry (-) or BlockEnd in block sequence",
                            got: k,
                            span: sp,
                        },
                    )
                }
            },
        }
    }

    /// An entry of a sequence written without indentation inside a block
    /// mapping, or its end.
    fn parse_indentless_sequence_entry(&mut self) -> (r: Result<Option<Event>, ParseError>)
        requires
            old(self).ready(ParserState::IndentlessSequenceEntry),
        ensures
            final(self).step(old(self), r),
            (old(self).peeked matches Some(t) && t.kind == TokenKind::BlockEntry) ==> (r is Ok ==> r == Ok::<
                Option<Event>,
                ParseError,
            >(Some(Event::BlockEntry { span: old(self).peeked->Some_0.atom.span }))) && (r matches Err(e) ==> e is Scan
                || e is LimitExceeded),
            (old(self).peeked matches Some(t) && t.kind != TokenKind::BlockEntry) ==> r == Ok::<Option<Event>, ParseError>(
                Some(Event::SequenceEnd { span: old(self).peeked->Some_0.atom.span }),
            ),
            (old(self).peeked matches Some(t) && t.kind == TokenKind::BlockEntry && old(self).source.next_is_token() && depth_ok(
                old(self).state_stack@.len(),
                old(self).config,
            )) ==> r == Ok::<Option<Event>, ParseError>(Some(Event::BlockEntry { span: old(self).peeked->Some_0.atom.span })),
    {
        let p = match self.peek_token() {
            Err(e) => {
                return Err(e);
            },
            Ok(p) => p,
        };
        match p {
            Some((k, _)) => {
                if k == TokenKind::BlockEntry {
                    let t = self.take_peeked();
                    return self.block_entry_tail(t.atom.span, ParserState::IndentlessSequenceEntry, true);
                }
            },
            None => {},
        }
        let span = match p {
            Some((_, sp)) => sp,
            None => Span::default(),
        };
        self.pop_into_state();
        Ok(Some(Event::SequenceEnd { span }))
    }

    /// After a `?` or `:` indicator in a block mapping: queue an empty scalar
    /// when the key or value is empty, else go parse its node and come back
    /// to `back`.
    fn indicator_tail(&mut self, ind: Event, back: ParserState, empty_on: TokenKind, empty_on2: TokenKind, empty_on3: TokenKind) -> (r: Result<Option<Event>, ParseError>)
        requires
            old(self).wf(),
            !old(self).done,
            old(self).peeked is None,
            back != ParserState::DocumentContent,
            back != ParserState::IndentlessSequenceEntry,
            old(self).state != ParserState::DocumentContent,
            old(self).state != ParserState::IndentlessSequenceEntry,
        ensures
            final(self).wf(),
            final(self).config == old(self).config,
            !final(self).done,
            r is Ok ==> r->Ok_0 is Some && 8 * final(self).tokens_left() + final(self).event_queue@.len()
                <= 8 * old(self).tokens_left() + old(self).event_queue@.len() + 1,
            r is Err ==> 8 * final(self).tokens_left() + final(self).event_queue@.len() <= 8 * old(self).tokens_left() + old(self).event_queue@.len(),
            r is Ok ==> r == Ok::<Option<Event>, ParseError>(Some(ind)),
            r matches Err(e) ==> e is Scan || (e is LimitExceeded && !depth_ok(
                old(self).state_stack@.len(),
                old(self).config,
            )),
            old(self).source.next_is_token() && depth_ok(old(self).state_stack@.len(), old(self).config) ==> r is Ok,
    {
        let p = match self.peek_token() {
            Err(e) => {
                return Err(e);
            },
            Ok(p) => p,
        };
        match p {
            Some((k, sp)) => {
                if k == empty_on || k == empty_on2 || k == empty_on3 {
                    self.state = back;
                    self.event_queue.push_back(empty_scalar(sp));
                    return Ok(Some(ind));
                }
            },
            None => {},
        }
        self.state = ParserState::BlockNode;
        match self.push_state(back) {
            Err(e) => {
                return Err(e);
            },
            Ok(()) => {},
        }
        Ok(Some(ind))
    }

    /// A key of a block mapping (explicit `?`, or implicit before `:`), or
    /// its end.
    fn parse_block_mapping_key(&mut self) -> (r: Result<Option<Event>, ParseError>)
        requires
            old(self).wf(),
            !old(self).done,
            old(self).state == ParserState::BlockMappingKey || old(self).state == ParserState::BlockMappingFirstKey,
        ensures
            final(self).step(old(self), r),
            (old(self).peeked matches Some(t) && t.kind == TokenKind::Key) ==> (r is Ok ==> r == Ok::<
                Option<Event>,
                ParseError,
            >(Some(Event::KeyIndicator { span: old(self).peeked->Some_0.atom.span }))) && (r matches Err(e) ==> e is Scan
                || e is LimitExceeded),
            (old(self).peeked matches Some(t) && t.kind == TokenKind::Value) ==> (r matches Ok(Some(e))
                && is_empty_scalar_at(e, old(self).peeked->Some_0.atom.span)) && final(self).state
                == ParserState::BlockMappingValue,
            (old(self).peeked matches Some(t) && t.kind == TokenKind::BlockEnd) ==> r == Ok::<Option<Event>, ParseError>(
                Some(Event::MappingEnd { span: old(self).peeked->Some_0.atom.span }),
            ),
            (old(self).peeked matches Some(t) && t.kind != TokenKind::Key && t.kind != TokenKind::Value && t.kind
                != TokenKind::BlockEnd) ==> (r matches Err(ParseError::UnexpectedToken { got, .. }) && got
                == old(self).peeked->Some_0.kind),
            (old(self).peeked matches Some(t) && t.kind == TokenKind::Key && old(self).source.next_is_token() && depth_ok(
                old(self).state_stack@.len(),
                old(self).config,
            )) ==> r == Ok::<Option<Event>, ParseError>(Some(Event::KeyIndicator { span: old(self).peeked->Some_0.atom.span })),
    {
        let p = match self.peek_token() {
            Err(e) => {
                return Err(e);
            },
            Ok(p) => p,
        };
        match p {
            None => Err(
                ParseError::UnexpectedEof {
                    expected: "Key (?), Value (:), or BlockEnd in block mapping",
                    span: Span::default(),
                },
            ),
            Some((k, sp)) => {
                if k == TokenKind::Key {
                    let t = self.take_peeked();
                    self.indicator_tail(
                        Event::KeyIndicator { span: t.atom.span },
                        ParserState::BlockMappingValue,
                        TokenKind::Key,
                        TokenKind::Value,
                        TokenKind::BlockEnd,
                    )
                } else if k == TokenKind::Value {
                    self.state = ParserState::BlockMappingValue;
                    Ok(Some(empty_scalar(sp)))
                } else if k == TokenKind::BlockEnd {
                    let t = self.take_peeked();
                    self.pop_into_state();
                    Ok(Some(Event::MappingEnd { span: t.atom.span }))
                } else {
                    Err(
                        ParseError::UnexpectedToken {
                            expected: "Key (?), Value (:), or BlockEnd in block mapping",
                            got: k,
                            span: sp,
                        },
                    )
                }
            },
        }
    }

    /// A value of a block mapping, or an empty value.
    fn parse_block_mapping_value(&mut self) -> (r: Result<Option<Event>, ParseError>)
        requires
            old(self).ready(ParserState::BlockMappingValue),
        ensures
            final(self).step(old(self), r),
            (old(self).peeked matches Some(t) && t.kind == TokenKind::Value) ==> (r is Ok ==> r == Ok::<
                Option<Event>,
                ParseError,
            >(Some(Event::ValueIndicator { span: old(self).peeked->Some_0.atom.span }))) && (r matches Err(e) ==> e is Scan
                || e is LimitExceeded),
            (old(self).peeked matches Some(t) && t.kind != TokenKind::Value) ==> (r matches Ok(Some(e))
                && is_empty_scalar_at(e, old(self).peeked->Some_0.atom.span)) && final(self).state
                == ParserState::BlockMappingKey,
            (old(self).peeked matches Some(t) && t.kind == TokenKind::Value && old(self).source.next_is_token() && depth_ok(
                old(self).state_stack@.len(),
                old(self).config,
            )) ==> r == Ok::<Option<Event>, ParseError>(Some(Event::ValueIndicator { span: old(self).peeked->Some_0.atom.span })),
    {
        let p = match self.peek_token() {
            Err(e) => {
                return Err(e);
            },
            Ok(p) => p,
        };
        match p {
            Some((k, _)) => {
                if k == TokenKind::Value {
                    let t = self.take_peeked();
                    return self.indicator_tail(
                        Event::ValueIndicator { span: t.atom.span },
                        ParserState::BlockMappingKey,
                        TokenKind::Key,
                        TokenKind::Value,
                        TokenKind::BlockEnd,
                    );
                }
            },
            None => {},
        }
        let span = match p {
            Some((_, sp)) => sp,
            None => Span::default(),
        };
        self.state = ParserState::BlockMappingKey;
        Ok(Some(empty_scalar(span)))
    }
}
impl Parser {
    /// The first entry of a flow sequence, or its immediate end.
    fn parse_flow_sequence_first_entry(&mut self) -> (r: Result<Option<Event>, ParseError>)
        requires
            old(self).ready(ParserState::FlowSequenceFirstEntry),
        ensures
            final(self).step(old(self), r),
            (old(self).peeked matches Some(t) && t.kind == TokenKind::FlowSequenceEnd) ==> r == Ok::<Option<Event>, ParseError>(Some(Event::SequenceEnd { span: old(self).peeked->Some_0.atom.span })),
            (old(self).peeked matches Some(t) && t.kind == TokenKind::Value) ==> r == Ok::<Option<Event>, ParseError>(Some(Event::MappingStart { anchor: None, tag: None, style: CollectionStyle::Flow, span: old(self).peeked->Some_0.atom.span })) && final(self).state == ParserState::FlowSequenceEntryMappingValue,
            (old(self).peeked matches Some(t) && t.kind == TokenKind::Key && depth_ok(old(self).state_stack@.len(), old(self).config)) ==> r == Ok::<Option<Event>, ParseError>(Some(Event::MappingStart { anchor: None, tag: None, style: CollectionStyle::Flow, span: old(self).peeked->Some_0.atom.span })),
        decreases old(self).tokens_left(), 1nat, 1nat,
    {
        let p = match self.peek_token() {
            Err(e) => {
                return Err(e);
            },
            Ok(p) => p,
        };
        match p {
            Some((k, _)) => {
                if k == TokenKind::FlowSequenceEnd {
                    let t = self.take_peeked();
                    self.pop_into_state();
                    return Ok(Some(Event::SequenceEnd { span: t.atom.span }));
                }
            },
            None => {},
        }
        self.parse_flow_sequence_entry_content()
    }

    /// `,` and another entry of a flow sequence, or its end.
    fn parse_flow_sequence_entry(&mut self) -> (r: Result<Option<Event>, ParseError>)
        requires
            old(self).ready(ParserState::FlowSequenceEntry),
        ensures
            final(self).step(old(self), r),
            (old(self).peeked matches Some(t) && t.kind == TokenKind::FlowSequenceEnd) ==> r == Ok::<Option<Event>, ParseError>(Some(Event::SequenceEnd { span: old(self).peeked->Some_0.atom.span })),
            (old(self).peeked matches Some(t) && t.kind != TokenKind::FlowSequenceEnd && t.kind != TokenKind::FlowEntry) ==> (r matches Err(ParseError::UnexpectedToken { got, .. }) && got == old(self).peeked->Some_0.kind),
        decreases old(self).tokens_left(), 1nat, 1nat,
    {
        let p = match self.peek_token() {
            Err(e) => {
                return Err(e);
            },
            Ok(p) => p,
        };
        match p {
            None => Err(
                ParseError::UnexpectedEof {
                    expected: "FlowEntry (,) or FlowSequenceEnd (]) in flow sequence",
                    span: Span::default(),
                },
            ),
            Some((k, sp)) => {
                if k == TokenKind::FlowEntry {
                    let _t = self.take_peeked();
                    let q = match self.peek_token() {
                        Err(e) => {
                            return Err(e);
                        },
                        Ok(q) => q,
                    };
                    match q {
                        Some((k2, _)) => {
                            if k2 == TokenKind::FlowSequenceEnd {
                                let t = self.take_peeked();
                                self.pop_into_state();
                                return Ok(Some(Event::SequenceEnd { span: t.atom.span }));
                            }
                        },
                        None => {},
                    }
                    self.parse_flow_sequence_entry_content()
                } else if k == TokenKind::FlowSequenceEnd {
                    let t = self.take_peeked();
                    self.pop_into_state();
                    Ok(Some(Event::SequenceEnd { span: t.atom.span }))
                } else {
                    Err(
                        ParseError::UnexpectedToken {
                            expected: "FlowEntry (,) or FlowSequenceEnd (]) in flow sequence",
                            got: k,
                            span: sp,
                        },
                    )
                }
            },
        }
    }

    /// The content of a flow sequence entry: a single-pair mapping (`a: b`
    /// or `: b`) or a node.
    fn parse_flow_sequence_entry_content(&mut self) -> (r: Result<Option<Event>, ParseError>)
        requires
            old(self).wf(),
            !old(self).done,
            old(self).state == ParserState::FlowSequenceFirstEntry || old(self).state
                == ParserState::FlowSequenceEntry,
        ensures
            final(self).step(old(self), r),
            (old(self).peeked matches Some(t) && t.kind == TokenKind::Value) ==> r == Ok::<Option<Event>, ParseError>(Some(Event::MappingStart { anchor: None, tag: None, style: CollectionStyle::Flow, span: old(self).peeked->Some_0.atom.span })) && final(self).state == ParserState::FlowSequenceEntryMappingValue,
            (old(self).peeked matches Some(t) && t.kind == TokenKind::Key && depth_ok(old(self).state_stack@.len(), old(self).config)) ==> r == Ok::<Option<Event>, ParseError>(Some(Event::MappingStart { anchor: None, tag: None, style: CollectionStyle::Flow, span: old(self).peeked->Some_0.atom.span })),
            (old(self).peeked matches Some(t) && t.kind == TokenKind::Key && !depth_ok(old(self).state_stack@.len(), old(self).config)) ==> (r matches Err(e) && e is LimitExceeded),
        decreases old(self).tokens_left(), 1nat, 0nat,
    {
        let p = match self.peek_token() {
            Err(e) => {
                return Err(e);
            },
            Ok(p) => p,
        };
        match p {
            Some((k, sp)) => {
                if k == TokenKind::Key {
                    let t = self.take_peeked();
                    self.state = ParserState::BlockNode;
                    match self.push_state(ParserState::FlowSequenceEntryMappingValue) {
                        Err(e) => {
                            return Err(e);
                        },
                        Ok(()) => {},
                    }
                    self.event_queue.push_back(Event::KeyIndicator { span: t.atom.span });
                    return Ok(
                        Some(Event::MappingStart { anchor: None, tag: None, style: CollectionStyle::Flow, span: t.atom.span }),
                    );
                }
                if k == TokenKind::Value {
                    self.state = ParserState::FlowSequenceEntryMappingValue;
                    return Ok(
                        Some(Event::MappingStart { anchor: None, tag: None, style: CollectionStyle::Flow, span: sp }),
                    );
                }
            },
            None => {},
        }
        self.state = ParserState::BlockNode;
        match self.push_state(ParserState::FlowSequenceEntry) {
            Err(e) => {
                return Err(e);
            },
            Ok(()) => {},
        }
        self.parse_next()
    }

    /// The key of a single-pair mapping in a flow sequence, taken as empty.
    fn parse_flow_sequence_entry_mapping_key(&mut self) -> (r: Result<Option<Event>, ParseError>)
        requires
            old(self).ready(ParserState::FlowSequenceEntryMappingKey),
        ensures
            final(self).step(old(self), r),
            (r matches Ok(Some(e)) && e is Scalar),
            final(self).state == ParserState::FlowSequenceEntryMappingValue,
            old(self).peeked is Some ==> (r matches Ok(Some(e)) && is_empty_scalar_at(e, old(self).peeked->Some_0.atom.span)),
    {
        let span = match self.peek_token() {
            Ok(Some((_, sp))) => sp,
            _ => Span::default(),
        };
        self.state = ParserState::FlowSequenceEntryMappingValue;
        Ok(Some(empty_scalar(span)))
    }

    /// The value of a single-pair mapping in a flow sequence, or an empty
    /// value.
    fn parse_flow_sequence_entry_mapping_value(&mut self) -> (r: Result<Option<Event>, ParseError>)
        requires
            old(self).ready(ParserState::FlowSequenceEntryMappingValue),
        ensures
            final(self).step(old(self), r),
            (old(self).peeked matches Some(t) && t.kind == TokenKind::Value) ==> (r is Ok ==> r == Ok::<Option<Event>, ParseError>(Some(Event::ValueIndicator { span: old(self).peeked->Some_0.atom.span }))) && (r matches Err(e) ==> e is Scan || e is LimitExceeded),
            (old(self).peeked matches Some(t) && t.kind != TokenKind::Value) ==> (r matches Ok(Some(e)) && is_empty_scalar_at(e, old(self).peeked->Some_0.atom.span)) && final(self).state == ParserState::FlowSequenceEntryMappingEnd,
            (old(self).peeked matches Some(t) && t.kind == TokenKind::Value && old(self).source.next_is_token() && depth_ok(
                old(self).state_stack@.len(),
                old(self).config,
            )) ==> r == Ok::<Option<Event>, ParseError>(Some(Event::ValueIndicator { span: old(self).peeked->Some_0.atom.span })),
    {
        let p = match self.peek_token() {
            Err(e) => {
                return Err(e);
            },
            Ok(p) => p,
        };
        match p {
            Some((k, _)) => {
                if k == TokenKind::Value {
                    let t = self.take_peeked();
                    return self.indicator_tail(
                        Event::ValueIndicator { span: t.atom.span },
                        ParserState::FlowSequenceEntryMappingEnd,
                        TokenKind::FlowEntry,
                        TokenKind::FlowSequenceEnd,
                        TokenKind::FlowMappingEnd,
                    );
                }
            },
            None => {},
        }
        let span = match p {
            Some((_, sp)) => sp,
            None => Span::default(),
        };
        self.state = ParserState::FlowSequenceEntryMappingEnd;
        Ok(Some(empty_scalar(span)))
    }

    /// The end of a single-pair mapping in a flow sequence.
    fn parse_flow_sequence_entry_mapping_end(&mut self) -> (r: Result<Option<Event>, ParseError>)
        requires
            old(self).ready(ParserState::FlowSequenceEntryMappingEnd),
        ensures
            final(self).step(old(self), r),
            (r matches Ok(Some(e)) && e is MappingEnd),
            final(self).state == ParserState::FlowSequenceEntry,
            old(self).peeked is Some ==> r == Ok::<Option<Event>, ParseError>(Some(Event::MappingEnd { span: old(self).peeked->Some_0.atom.span })),
    {
        let span = match self.peek_token() {
            Ok(Some((_, sp))) => sp,
            _ => Span::default(),
        };
        self.state = ParserState::FlowSequenceEntry;
        Ok(Some(Event::MappingEnd { span }))
    }

    /// The first key of a flow mapping, or its immediate end.
    fn parse_flow_mapping_first_key(&mut self) -> (r: Result<Option<Event>, ParseError>)
        requires
            old(self).ready(ParserState::FlowMappingFirstKey),
        ensures
            final(self).step(old(self), r),
            (old(self).peeked matches Some(t) && t.kind == TokenKind::FlowMappingEnd) ==> r == Ok::<Option<Event>, ParseError>(Some(Event::MappingEnd { span: old(self).peeked->Some_0.atom.span })),
            (old(self).peeked matches Some(t) && t.kind == TokenKind::Value) ==> (r matches Ok(Some(e)) && is_empty_scalar_at(e, old(self).peeked->Some_0.atom.span)) && final(self).state == ParserState::FlowMappingValue,
            (old(self).peeked matches Some(t) && t.kind == TokenKind::Key) ==> (r is Ok ==> r == Ok::<Option<Event>, ParseError>(Some(Event::KeyIndicator { span: old(self).peeked->Some_0.atom.span }))) && (r matches Err(e) ==> e is Scan || e is LimitExceeded),
            (old(self).peeked matches Some(t) && t.kind == TokenKind::Key && old(self).source.next_is_token() && depth_ok(
                old(self).state_stack@.len(),
                old(self).config,
            )) ==> r == Ok::<Option<Event>, ParseError>(Some(Event::KeyIndicator { span: old(self).peeked->Some_0.atom.span })),
        decreases old(self).tokens_left(), 1nat, 1nat,
    {
        let p = match self.peek_token() {
            Err(e) => {
                return Err(e);
            },
            Ok(p) => p,
        };
        match p {
            Some((k, _)) => {
                if k == TokenKind::FlowMappingEnd {
                    let t = self.take_peeked();
                    self.pop_into_state();
                    return Ok(Some(Event::MappingEnd { span: t.atom.span }));
                }
            },
            None => {},
        }
        self.parse_flow_mapping_key_content()
    }

    /// `,` and another key of a flow mapping, or its end.
    fn parse_flow_mapping_key(&mut self) -> (r: Result<Option<Event>, ParseError>)
        requires
            old(self).ready(ParserState::FlowMappingKey),
        ensures
            final(self).step(old(self), r),
            (old(self).peeked matches Some(t) && t.kind == TokenKind::FlowMappingEnd) ==> r == Ok::<Option<Event>, ParseError>(Some(Event::MappingEnd { span: old(self).peeked->Some_0.atom.span })),
            (old(self).peeked matches Some(t) && t.kind != TokenKind::FlowMappingEnd && t.kind != TokenKind::FlowEntry) ==> (r matches Err(ParseError::UnexpectedToken { got, .. }) && got == old(self).peeked->Some_0.kind),
        decreases old(self).tokens_left(), 1nat, 1nat,
    {
        let p = match self.peek_token() {
            Err(e) => {
                return Err(e);
            },
            Ok(p) => p,
        };
        match p {
            None => Err(
                ParseError::UnexpectedEof {
                    expected: "FlowEntry (,) or FlowMappingEnd (}) in flow mapping",
                    span: Span::default(),
                },
            ),
            Some((k, sp)) => {
                if k == TokenKind::FlowEntry {
                    let _t = self.take_peeked();
                    let q = match self.peek_token() {
                        Err(e) => {
                            return Err(e);
                        },
                        Ok(q) => q,
                    };
                    match q {
                        Some((k2, _)) => {
                            if k2 == TokenKind::FlowMappingEnd {
                                let t = self.take_peeked();
                                self.pop_into_state();
                                return Ok(Some(Event::MappingEnd { span: t.atom.span }));
                            }
                        },
                        None => {},
                    }
                    self.parse_flow_mapping_key_content()
                } else if k == TokenKind::FlowMappingEnd {
                    let t = self.take_peeked();
                    self.pop_into_state();
                    Ok(Some(Event::MappingEnd { span: t.atom.span }))
                } else {
                    Err(
                        ParseError::UnexpectedToken {
                            expected: "FlowEntry (,) or FlowMappingEnd (}) in flow mapping",
                            got: k,
                            span: sp,
                        },
                    )
                }
            },
        }
    }

    /// The key of a flow mapping entry: explicit (`?`), empty (`:`), or a
    /// node.
    fn parse_flow_mapping_key_content(&mut self) -> (r: Result<Option<Event>, ParseError>)
        requires
            old(self).wf(),
            !old(self).done,
            old(self).state == ParserState::FlowMappingFirstKey || old(self).state == ParserState::FlowMappingKey,
        ensures
            final(self).step(old(self), r),
            (old(self).peeked matches Some(t) && t.kind == TokenKind::Value) ==> (r matches Ok(Some(e)) && is_empty_scalar_at(e, old(self).peeked->Some_0.atom.span)) && final(self).state == ParserState::FlowMappingValue,
            (old(self).peeked matches Some(t) && t.kind == TokenKind::Key) ==> (r is Ok ==> r == Ok::<Option<Event>, ParseError>(Some(Event::KeyIndicator { span: old(self).peeked->Some_0.atom.span }))) && (r matches Err(e) ==> e is Scan || e is LimitExceeded),
            (old(self).peeked matches Some(t) && t.kind == TokenKind::Key && old(self).source.next_is_token() && depth_ok(
                old(self).state_stack@.len(),
                old(self).config,
            )) ==> r == Ok::<Option<Event>, ParseError>(Some(Event::KeyIndicator { span: old(self).peeked->Some_0.atom.span })),
        decreases old(self).tokens_left(), 1nat, 0nat,
    {
        let p = match self.peek_token() {
            Err(e) => {
                return Err(e);
            },
            Ok(p) => p,
        };
        match p {
            Some((k, sp)) => {
                if k == TokenKind::Key {
                    let t = self.take_peeked();
                    return self.indicator_tail(
                        Event::KeyIndicator { span: t.atom.span },
                        ParserState::FlowMappingValue,
                        TokenKind::Value,
                        TokenKind::FlowEntry,
                        TokenKind::FlowMappingEnd,
                    );
                }
                if k == TokenKind::Value {
                    self.state = ParserState::FlowMappingValue;
                    return Ok(Some(empty_scalar(sp)));
                }
            },
            None => {},
        }
        self.state = ParserState::BlockNode;
        match self.push_state(ParserState::FlowMappingValue) {
            Err(e) => {
                return Err(e);
            },
            Ok(()) => {},
        }
        self.parse_next()
    }

    /// The value of a flow mapping entry, or an empty value.
    fn parse_flow_mapping_value(&mut self) -> (r: Result<Option<Event>, ParseError>)
        requires
            old(self).ready(ParserState::FlowMappingValue),
        ensures
            final(self).step(old(self), r),
            (old(self).peeked matches Some(t) && t.kind == TokenKind::Value) ==> (r is Ok ==> r == Ok::<Option<Event>, ParseError>(Some(Event::ValueIndicator { span: old(self).peeked->Some_0.atom.span }))) && (r matches Err(e) ==> e is Scan || e is LimitExceeded),
            (old(self).peeked matches Some(t) && t.kind != TokenKind::Value) ==> (r matches Ok(Some(e)) && is_empty_scalar_at(e, old(self).peeked->Some_0.atom.span)) && final(self).state == ParserState::FlowMappingKey,
            (old(self).peeked matches Some(t) && t.kind == TokenKind::Value && old(self).source.next_is_token() && depth_ok(
                old(self).state_stack@.len(),
                old(self).config,
            )) ==> r == Ok::<Option<Event>, ParseError>(Some(Event::ValueIndicator { span: old(self).peeked->Some_0.atom.span })),
    {
        let p = match self.peek_token() {
            Err(e) => {
                return Err(e);
            },
            Ok(p) => p,
        };
        match p {
            Some((k, _)) => {
                if k == TokenKind::Value {
                    let t = self.take_peeked();
                    return self.indicator_tail(
                        Event::ValueIndicator { span: t.atom.span },
                        ParserState::FlowMappingKey,
                        TokenKind::FlowEntry,
                        TokenKind::FlowMappingEnd,
                        TokenKind::FlowMappingEnd,
                    );
                }
            },
            None => {},
        }
        let span = match p {
            Some((_, sp)) => sp,
            None => Span::default(),
        };
        self.state = ParserState::FlowMappingKey;
        Ok(Some(empty_scalar(span)))
    }

    /// An empty value of a flow mapping.
    fn parse_flow_mapping_empty_value(&mut self) -> (r: Result<Option<Event>, ParseError>)
        requires
            old(self).ready(ParserState::FlowMappingEmptyValue),
        ensures
            final(self).step(old(self), r),
            r matches Ok(Some(e)) && e is Scalar,
            final(self).state == ParserState::FlowMappingKey,
            (old(self).peeked matches Some(t) ==> (r matches Ok(Some(e)) && is_empty_scalar_at(e, t.atom.span))),
    {
        let span = match self.peek_token() {
            Ok(Some((_, sp))) => sp,
            _ => Span::default(),
        };
        self.state = ParserState::FlowMappingKey;
        Ok(Some(empty_scalar(span)))
    }

    /// Produce the next event for the current state.
    fn parse_next(&mut self) -> (r: Result<Option<Event>, ParseError>)
        requires
            old(self).wf(),
        ensures
            final(self).step(old(self), r),
            old(self).fresh() ==> (r matches Ok(Some(e)) ==> e == Event::StreamStart),
            old(self).fresh() && old(self).source.starts_stream() ==> r == Ok::<Option<Event>, ParseError>(
                Some(Event::StreamStart),
            ),
            old(self).done ==> r == Ok::<Option<Event>, ParseError>(None),
            old(self).fresh() && old(self).source.exhausted() ==> r matches Err(ParseError::UnexpectedEof { .. }),
        decreases old(self).tokens_left(), state_level(old(self).state), 2nat,
    {
        if self.done {
            return Ok(None);
        }
        match self.state {
            ParserState::StreamStart => self.parse_stream_start(),
            ParserState::ImplicitDocumentStart => self.parse_implicit_document_start(),
            ParserState::DocumentStart => self.parse_document_start(),
            ParserState::DocumentContent => self.parse_document_content(),
            ParserState::DocumentEnd => self.parse_document_end(),
            ParserState::BlockNode => self.parse_node(),
            ParserState::BlockSequenceFirstEntry => self.parse_block_sequence_first_entry(),
            ParserState::BlockSequenceEntry => self.parse_block_sequence_entry(),
            ParserState::IndentlessSequenceEntry => self.parse_indentless_sequence_entry(),
            ParserState::BlockMappingFirstKey => self.parse_block_mapping_key(),
            ParserState::BlockMappingKey => self.parse_block_mapping_key(),
            ParserState::BlockMappingValue => self.parse_block_mapping_value(),
            ParserState::FlowSequenceFirstEntry => self.parse_flow_sequence_first_entry(),
            ParserState::FlowSequenceEntry => self.parse_flow_sequence_entry(),
            ParserState::FlowSequenceEntryMappingKey => self.parse_flow_sequence_entry_mapping_key(),
            ParserState::FlowSequenceEntryMappingValue => self.parse_flow_sequence_entry_mapping_value(),
            ParserState::FlowSequenceEntryMappingEnd => self.parse_flow_sequence_entry_mapping_end(),
            ParserState::FlowMappingFirstKey => self.parse_flow_mapping_first_key(),
            ParserState::FlowMappingKey => self.parse_flow_mapping_key(),
            ParserState::FlowMappingValue => self.parse_flow_mapping_value(),
            ParserState::FlowMappingEmptyValue => self.parse_flow_mapping_empty_value(),
            ParserState::End => {
                self.done = true;
                Ok(None)
            },
        }
    }

    /// The next event, or the error that stopped parsing. Queued events come
    /// first; after an error or the end of the stream, `None`.
    pub fn next(&mut self) -> (r: Option<Result<Event, ParseError>>)
        requires
            old(self).wf(),
        ensures
            final(self).wf(),
            r is Some ==> final(self).remaining() < old(self).remaining(),
            old(self).finished() ==> r is None && *final(self) == *old(self),
            r is None ==> final(self).finished(),
            r matches Some(Err(_)) ==> final(self).stopped(),
            old(self).fresh() ==> (r matches Some(Ok(e)) ==> e == Event::StreamStart),
            old(self).fresh() ==> r is Some,
            old(self).fresh_stream() ==> r == Some(Ok::<Event, ParseError>(Event::StreamStart)),
            old(self).fresh() && old(self).no_tokens() ==> r matches Some(Err(ParseError::UnexpectedEof { .. })),
            r matches Some(x) ==> final(self).yielded() == old(self).yielded().push(x),
            r is None ==> final(self).yielded() == old(self).yielded(),
            forall|input: Seq<char>| #[trigger] final(self).started_on(input) == old(self).started_on(input),
    {
        let ghost h = self.history@;
        if self.event_queue.len() > 0 {
            match self.event_queue.pop_front() {
                Some(e) => {
                    self.history = Ghost(h.push(Ok(e)));
                    return Some(Ok(e));
                },
                None => {},
            }
        }
        if self.done {
            return None;
        }
        let ghost text = self.text@;
        let ghost config = self.config;
        let r = match self.parse_next() {
            Ok(Some(e)) => Some(Ok(e)),
            Ok(None) => None,
            Err(e) => {
                self.done = true;
                Some(Err(e))
            },
        };
        proof {
            assert(self.config == config);
        }
        self.text = Ghost(text);
        match &r {
            Some(x) => {
                self.history = Ghost(h.push(*x));
            },
            None => {
                self.history = Ghost(h);
            },
        }
        r
    }
}

} // verus!
