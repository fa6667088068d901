//! Composition: from a resolved event stream to value trees, one per
//! document. Anchors are recorded and aliases replaced by a copy of the
//! anchored value; a `<<` key merges the entries of a mapping (or of a
//! sequence of mappings) into its mapping, where explicit keys win.
use vstd::prelude::*;

use crate::loader::{limit_outcome, LoaderConfig, ResourceLimits};
use crate::parser::Parser;
use crate::reader::max_input_chars;
use crate::parser::{event_is_structural, Event, ParseError};
use crate::resolve::{resolve_error_text, ResolveError, ResolvedEvents, Resolver};
use crate::tag_resolution::{resolve_with, ScalarView, TagResolution};
use crate::text::{decimal, push_decimal, push_string, str_to_string};
use crate::token::ScalarStyle;
use crate::value_tree::{
    clone_tree, insert_all, lemma_pairs_view, lemma_trees_view, map_insert, mapping_insert, pairs_view,
    tree_view, trees_view, NodeView, ValueTree,
};
use crate::tag_resolution::Scalar;

verus! {

/// Errors of composition (turning events into values).
#[derive(Debug)]
pub enum ComposeError {
    /// An error of the resolver layer (or the parser under it).
    Resolve(ResolveError),
    /// An alias names an anchor that has not been defined.
    UndefinedAlias(String),
    /// An event that does not fit where it stands.
    UnexpectedEvent(String),
    /// A resource limit was exceeded.
    LimitExceeded(String),
}

/// The text of a composition error, as it is shown to people.
pub open spec fn compose_error_text(e: ComposeError) -> Seq<char> {
    match e {
        ComposeError::Resolve(r) => resolve_error_text(r),
        ComposeError::UndefinedAlias(name) => "undefined alias: *"@ + name@,
        ComposeError::UnexpectedEvent(m) => "unexpected event: "@ + m@,
        ComposeError::LimitExceeded(m) => "limit exceeded: "@ + m@,
    }
}

impl ComposeError {
    /// Renders the error for humans.
    pub fn display(&self) -> (r: String)
        ensures
            r@ == compose_error_text(*self),
    {
        match self {
            ComposeError::Resolve(e) => e.display(),
            ComposeError::UndefinedAlias(name) => {
                let mut s = str_to_string("undefined alias: *");
                push_string(&mut s, name);
                s
            },
            ComposeError::UnexpectedEvent(m) => {
                let mut s = str_to_string("unexpected event: ");
                push_string(&mut s, m);
                s
            },
            ComposeError::LimitExceeded(m) => {
                let mut s = str_to_string("limit exceeded: ");
                push_string(&mut s, m);
                s
            },
        }
    }
}

impl From<ResolveError> for ComposeError {
    fn from(e: ResolveError) -> (r: ComposeError) {
        ComposeError::Resolve(e)
    }
}

impl vstd::std_specs::convert::FromSpecImpl<ResolveError> for ComposeError {
    open spec fn obeys_from_spec() -> bool {
        true
    }

    open spec fn from_spec(v: ResolveError) -> ComposeError {
        ComposeError::Resolve(v)
    }
}

impl From<ParseError> for ComposeError {
    fn from(e: ParseError) -> (r: ComposeError) {
        ComposeError::Resolve(ResolveError::Parse(e))
    }
}

impl vstd::std_specs::convert::FromSpecImpl<ParseError> for ComposeError {
    open spec fn obeys_from_spec() -> bool {
        true
    }

    open spec fn from_spec(v: ParseError) -> ComposeError {
        ComposeError::Resolve(ResolveError::Parse(v))
    }
}

/// A composition error as plain values.
pub enum ComposeFailure {
    /// An error of the event stream.
    Resolve(ResolveError),
    /// An alias to an undefined anchor.
    UndefinedAlias(Seq<char>),
    /// An event out of place.
    UnexpectedEvent(Seq<char>),
    /// A resource limit exceeded.
    LimitExceeded(Seq<char>),
}

/// The plain view of a composition error.
pub open spec fn failure_of(e: ComposeError) -> ComposeFailure {
    match e {
        ComposeError::Resolve(r) => ComposeFailure::Resolve(r),
        ComposeError::UndefinedAlias(n) => ComposeFailure::UndefinedAlias(n@),
        ComposeError::UnexpectedEvent(m) => ComposeFailure::UnexpectedEvent(m@),
        ComposeError::LimitExceeded(m) => ComposeFailure::LimitExceeded(m@),
    }
}

/// Where composition stands: the next event, the anchors defined in the
/// current document (name and value, in definition order), and the aliases
/// expanded so far.
pub struct ComposeState {
    /// Index of the next event.
    pub pos: int,
    /// The anchors of the current document.
    pub anchors: Seq<(Seq<char>, NodeView)>,
    /// Aliases expanded so far.
    pub aliases: nat,
}

/// The first index at or after `p` that does not hold a comment or an
/// indicator event (those are skipped), or the end.
pub open spec fn skip_from(evs: Seq<Result<Event, ResolveError>>, p: int) -> int
    decreases evs.len() - p,
{
    if p < 0 || p >= evs.len() {
        p
    } else if evs[p] matches Ok(e) && event_is_structural(e) {
        skip_from(evs, p + 1)
    } else {
        p
    }
}

/// The value of a scalar: a plain scalar resolved by `res`, any other a
/// string.
pub open spec fn scalar_node(value: Seq<char>, style: ScalarStyle, res: TagResolution) -> NodeView {
    if style == ScalarStyle::Plain {
        match resolve_with(res, value) {
            ScalarView::Null => NodeView::Null,
            ScalarView::Bool(b) => NodeView::Bool(b),
            ScalarView::Integer(n) => NodeView::Integer(n),
            ScalarView::Float(t) => NodeView::Float(t),
            ScalarView::Infinity => NodeView::Infinity,
            ScalarView::NegInfinity => NodeView::NegInfinity,
            ScalarView::NaN => NodeView::NaN,
            ScalarView::Str => NodeView::Str(value),
        }
    } else {
        NodeView::Str(value)
    }
}

/// The first index in `a[i..]` of the anchor `name`, or `a.len()`.
pub open spec fn find_anchor(a: Seq<(Seq<char>, NodeView)>, name: Seq<char>, i: int) -> int
    decreases a.len() - i,
{
    if i < 0 || i >= a.len() {
        a.len() as int
    } else if a[i].0 == name {
        i
    } else {
        find_anchor(a, name, i + 1)
    }
}

/// The anchors with `name` (re)defined as `v`.
pub open spec fn anchor_set(a: Seq<(Seq<char>, NodeView)>, name: Seq<char>, v: NodeView) -> Seq<(Seq<char>, NodeView)> {
    let j = find_anchor(a, name, 0);
    if 0 <= j < a.len() {
        a.update(j, (name, v))
    } else {
        a.push((name, v))
    }
}

/// The name checked by the anchor limit.
pub open spec fn anchor_count_name() -> Seq<char> {
    seq!['a', 'n', 'c', 'h', 'o', 'r', ' ', 'c', 'o', 'u', 'n', 't']
}

/// The name checked by the alias limit.
pub open spec fn alias_name() -> Seq<char> {
    seq!['a', 'l', 'i', 'a', 's', ' ', 'e', 'x', 'p', 'a', 'n', 's', 'i', 'o', 'n', 's']
}

/// The name checked by the merge limit.
pub open spec fn merge_depth_name() -> Seq<char> {
    seq!['m', 'e', 'r', 'g', 'e', ' ', 'd', 'e', 'p', 't', 'h']
}

/// A composed value, recorded under its anchor when it has one (subject to
/// the anchor limit).
pub open spec fn with_anchor(
    anchor: Option<String>,
    v: NodeView,
    st: ComposeState,
    lim: ResourceLimits,
) -> Result<(NodeView, ComposeState), ComposeFailure> {
    match anchor {
        None => Ok((v, st)),
        Some(n) => {
            let a = anchor_set(st.anchors, n@, v);
            match limit_outcome(a.len() as usize, lim.max_anchor_count, anchor_count_name()) {
                Err(m) => Err(ComposeFailure::LimitExceeded(m)),
                Ok(_) => Ok((v, ComposeState { anchors: a, ..st })),
            }
        },
    }
}

/// The entries that a `<<` value merges in: a mapping's entries, or the
/// entries of a sequence of mappings one after the other.
pub open spec fn merge_entries(v: NodeView, lim: ResourceLimits) -> Result<Seq<(NodeView, NodeView)>, ComposeFailure> {
    match limit_outcome(0, lim.max_merge_depth, merge_depth_name()) {
        Err(m) => Err(ComposeFailure::LimitExceeded(m)),
        Ok(_) => match v {
            NodeView::Mapping(m) => Ok(m),
            NodeView::Sequence(items) => merge_items(items, 0),
            _ => Err(ComposeFailure::UnexpectedEvent("merge key (<<) value must be a mapping or sequence of mappings"@)),
        },
    }
}

/// The entries of the mappings `items[i..]`, in order; an item that is not
/// a mapping is an error.
pub open spec fn merge_items(items: Seq<NodeView>, i: int) -> Result<Seq<(NodeView, NodeView)>, ComposeFailure>
    decreases items.len() - i,
{
    if i < 0 || i >= items.len() {
        Ok(seq![])
    } else {
        match items[i] {
            NodeView::Mapping(m) => match merge_items(items, i + 1) {
                Ok(rest) => Ok(m + rest),
                Err(e) => Err(e),
            },
            _ => Err(ComposeFailure::UnexpectedEvent("merge key (<<) sequence item must be a mapping"@)),
        }
    }
}

/// The documents of a resolved event stream (see [`spec_compose_stream`]):
/// one value tree per document.
pub fn compose_events(events: Vec<Result<Event, ResolveError>>, limits: ResourceLimits, res: TagResolution) -> (r: Result<
    Vec<ValueTree>,
    ComposeError,
>)
    ensures
        match spec_compose_stream(events@, limits, res) {
            Ok(d) => r matches Ok(v) && trees_view(v@, 0) == d,
            Err(f) => r matches Err(e) && failure_of(e) == f,
        },
{
    let ghost evs = events@;
    let total = events.len();
    let mut ev = events;
    let mut rest: Vec<Result<Event, ResolveError>> = Vec::new();
    while ev.len() > 0
        invariant
            evs.len() == total,
            ev@.len() + rest@.len() == evs.len(),
            ev@ == evs.take(ev@.len() as int),
            forall|i: int| 0 <= i < rest@.len() ==> #[trigger] rest@[i] == evs[evs.len() - 1 - i],
        decreases ev@.len(),
    {
        let ghost before = ev@;
        match ev.pop() {
            Some(x) => {
                proof {
                    assert(x == evs[before.len() - 1]);
                }
                rest.push(x);
                proof {
                    assert(ev@ =~= evs.take(ev@.len() as int));
                }
            },
            None => {},
        }
    }
    let mut c = EventComposer { rest, anchors: Vec::new(), limits, aliases: 0, res };
    proof {
        assert(c.anchors_view() =~= Seq::<(Seq<char>, NodeView)>::empty());
    }
    c.skip(Ghost(evs));
    if c.rest.len() == 0 {
        return Err(ComposeError::UnexpectedEvent(str_to_string("expected StreamStart, got EOF")));
    }
    let item = c.take(Ghost(evs));
    match item {
        Err(e) => Err(ComposeError::Resolve(e)),
        Ok(Event::StreamStart) => c.compose_docs(Ghost(evs)),
        Ok(_) => Err(ComposeError::UnexpectedEvent(str_to_string("expected StreamStart"))),
    }
}

/// Limits that limit nothing.
pub open spec fn no_limits() -> ResourceLimits {
    ResourceLimits {
        max_input_bytes: None,
        max_scalar_bytes: None,
        max_key_bytes: None,
        max_depth: None,
        max_alias_expansions: None,
        max_anchor_count: None,
        max_merge_depth: None,
    }
}

/// The parser's results, errors wrapped for the resolver layer; the first
/// one is `StreamStart`.
fn parse_all(parser: Parser) -> (r: Vec<Result<Event, ResolveError>>)
    requires
        parser.wf(),
        parser.fresh(),
        parser.fresh_stream(),
    ensures
        r@.len() > 0,
        r@[0] == Ok::<Event, ResolveError>(Event::StreamStart),
{
    let mut parser = parser;
    let mut out: Vec<Result<Event, ResolveError>> = Vec::new();
    loop
        invariant_except_break
            out@.len() == 0 ==> parser.fresh() && parser.fresh_stream(),
        invariant
            parser.wf(),
            out@.len() > 0 ==> out@[0] == Ok::<Event, ResolveError>(Event::StreamStart),
        ensures
            out@.len() > 0,
            out@[0] == Ok::<Event, ResolveError>(Event::StreamStart),
        decreases parser.remaining(),
    {
        match parser.next() {
            Some(Ok(e)) => out.push(Ok(e)),
            Some(Err(p)) => out.push(Err(ResolveError::Parse(p))),
            None => break,
        }
    }
    out
}

/// The documents of YAML text, parsed without limits and composed with
/// the tag resolution `res`.
pub fn compose_str(input: &str, res: TagResolution) -> (r: Result<Vec<ValueTree>, ComposeError>)
    requires
        input@.len() <= max_input_chars(),
    ensures
        exists|evs: Seq<Result<Event, ResolveError>>|
            evs.len() > 0 && evs[0] == Ok::<Event, ResolveError>(Event::StreamStart) && match #[trigger] spec_compose_stream(
                evs,
                no_limits(),
                res,
            ) {
                Ok(d) => r matches Ok(v) && trees_view(v@, 0) == d,
                Err(f) => r matches Err(e) && failure_of(e) == f,
            },
{
    let events = parse_all(Parser::new(input));
    let ghost evs = events@;
    let lim = ResourceLimits::none();
    assert(lim == no_limits());
    let r = compose_events(events, lim, res);
    assert(spec_compose_stream(evs, no_limits(), res) == spec_compose_stream(evs, no_limits(), res));
    r
}

/// The documents of YAML text, parsed and composed under the limits of
/// `config`, with the tag resolution `res`.
pub fn compose_str_with_config(input: &str, config: &LoaderConfig, res: TagResolution) -> (r: Result<Vec<ValueTree>, ComposeError>)
    requires
        input@.len() <= max_input_chars(),
    ensures
        exists|evs: Seq<Result<Event, ResolveError>>|
            evs.len() > 0 && evs[0] == Ok::<Event, ResolveError>(Event::StreamStart) && match #[trigger] spec_compose_stream(
                evs,
                config.limits,
                res,
            ) {
                Ok(d) => r matches Ok(v) && trees_view(v@, 0) == d,
                Err(f) => r matches Err(e) && failure_of(e) == f,
            },
{
    let events = parse_all(Parser::with_config(input, config));
    let ghost evs = events@;
    let r = compose_events(events, config.limits, res);
    assert(spec_compose_stream(evs, config.limits, res) == spec_compose_stream(evs, config.limits, res));
    r
}

/// The one document of a stream: null when there is none, an error when
/// there are several.
pub fn single_document(docs: Vec<ValueTree>) -> (r: Result<ValueTree, ComposeError>)
    ensures
        docs@.len() == 0 ==> (r matches Ok(t) && tree_view(t) == NodeView::Null),
        docs@.len() == 1 ==> (r matches Ok(t) && tree_view(t) == tree_view(docs@[0])),
        docs@.len() > 1 ==> (r matches Err(e) && failure_of(e) == ComposeFailure::UnexpectedEvent(
            "expected 1 document, got "@ + decimal(docs@.len()),
        )),
{
    let n = docs.len();
    if n == 0 {
        return Ok(ValueTree::Null);
    }
    if n == 1 {
        let mut docs = docs;
        let ghost d0 = docs@[0];
        match docs.pop() {
            Some(t) => {
                return Ok(t);
            },
            None => {
                return Ok(ValueTree::Null);
            },
        }
    }
    let mut msg = str_to_string("expected 1 document, got ");
    push_decimal(&mut msg, n as u64);
    Err(ComposeError::UnexpectedEvent(msg))
}

/// The documents of YAML text, with no limits and the YAML 1.2 core schema.
pub fn from_str(input: &str) -> (r: Result<Vec<ValueTree>, ComposeError>)
    requires
        input@.len() <= max_input_chars(),
    ensures
        exists|evs: Seq<Result<Event, ResolveError>>|
            evs.len() > 0 && evs[0] == Ok::<Event, ResolveError>(Event::StreamStart) && match #[trigger] spec_compose_stream(
                evs,
                no_limits(),
                TagResolution::Yaml12,
            ) {
                Ok(d) => r matches Ok(v) && trees_view(v@, 0) == d,
                Err(f) => r matches Err(e) && failure_of(e) == f,
            },
{
    compose_str(input, TagResolution::Yaml12)
}

/// The single document of YAML text (see [`from_str`] and
/// [`single_document`]).
pub fn from_str_single(input: &str) -> (r: Result<ValueTree, ComposeError>)
    requires
        input@.len() <= max_input_chars(),
    ensures
        exists|evs: Seq<Result<Event, ResolveError>>|
            evs.len() > 0 && evs[0] == Ok::<Event, ResolveError>(Event::StreamStart) && match #[trigger] spec_compose_stream(
                evs,
                no_limits(),
                TagResolution::Yaml12,
            ) {
                Ok(d) => (d.len() == 0 ==> (r matches Ok(t) && tree_view(t) == NodeView::Null)) && (d.len() == 1 ==> (
                r matches Ok(t) && tree_view(t) == d[0])) && (d.len() > 1 ==> (r matches Err(e) && failure_of(e)
                    == ComposeFailure::UnexpectedEvent("expected 1 document, got "@ + decimal(d.len())))),
                Err(f) => r matches Err(e) && failure_of(e) == f,
            },
{
    match from_str(input) {
        Ok(docs) => {
            proof {
                lemma_trees_view(docs@, 0);
            }
            single_document(docs)
        },
        Err(e) => Err(e),
    }
}

/// The documents of YAML text whose parser events first go through the
/// event resolver `resolver` (see [`ResolvedEvents`]), composed without
/// limits with the tag resolution `res`.
pub fn compose_with_resolver<R: Resolver>(input: &str, resolver: R, res: TagResolution) -> (r: Result<
    Vec<ValueTree>,
    ComposeError,
>)
    requires
        input@.len() <= max_input_chars(),
    ensures
        exists|evs: Seq<Result<Event, ResolveError>>|
            match #[trigger] spec_compose_stream(evs, no_limits(), res) {
                Ok(d) => r matches Ok(v) && trees_view(v@, 0) == d,
                Err(f) => r matches Err(e) && failure_of(e) == f,
            },
{
    let upstream = parse_all(Parser::new(input));
    let mut resolved = ResolvedEvents::new(upstream, resolver);
    let mut events: Vec<Result<Event, ResolveError>> = Vec::new();
    loop
        decreases resolved.pending().len(), resolved.buffered().len(),
    {
        match resolved.next() {
            Some(x) => events.push(x),
            None => break,
        }
    }
    let ghost evs = events@;
    let lim = ResourceLimits::none();
    assert(lim == no_limits());
    let r = compose_events(events, lim, res);
    assert(spec_compose_stream(evs, no_limits(), res) == spec_compose_stream(evs, no_limits(), res));
    r
}

/// The documents of YAML text under the limits of `config`, with the YAML
/// 1.2 core schema.
pub fn from_str_with_config(input: &str, config: &LoaderConfig) -> (r: Result<Vec<ValueTree>, ComposeError>)
    requires
        input@.len() <= max_input_chars(),
    ensures
        exists|evs: Seq<Result<Event, ResolveError>>|
            evs.len() > 0 && evs[0] == Ok::<Event, ResolveError>(Event::StreamStart) && match #[trigger] spec_compose_stream(
                evs,
                config.limits,
                TagResolution::Yaml12,
            ) {
                Ok(d) => r matches Ok(v) && trees_view(v@, 0) == d,
                Err(f) => r matches Err(e) && failure_of(e) == f,
            },
{
    compose_str_with_config(input, config, TagResolution::Yaml12)
}

/// The single document of YAML text under the limits of `config`.
pub fn from_str_single_with_config(input: &str, config: &LoaderConfig) -> (r: Result<ValueTree, ComposeError>)
    requires
        input@.len() <= max_input_chars(),
    ensures
        exists|evs: Seq<Result<Event, ResolveError>>|
            evs.len() > 0 && evs[0] == Ok::<Event, ResolveError>(Event::StreamStart) && match #[trigger] spec_compose_stream(
                evs,
                config.limits,
                TagResolution::Yaml12,
            ) {
                Ok(d) => (d.len() == 0 ==> (r matches Ok(t) && tree_view(t) == NodeView::Null)) && (d.len() == 1 ==> (
                r matches Ok(t) && tree_view(t) == d[0])) && (d.len() > 1 ==> (r matches Err(e) && failure_of(e)
                    == ComposeFailure::UnexpectedEvent("expected 1 document, got "@ + decimal(d.len())))),
                Err(f) => r matches Err(e) && failure_of(e) == f,
            },
{
    match from_str_with_config(input, config) {
        Ok(docs) => {
            proof {
                lemma_trees_view(docs@, 0);
            }
            single_document(docs)
        },
        Err(e) => Err(e),
    }
}

/// Whether a key is the merge key `<<`.
pub open spec fn is_merge_key(k: NodeView) -> bool {
    k == NodeView::Str(seq!['<', '<'])
}

/// A mapping's final entries: its own, or, when `<<` merged entries in, the
/// merged entries with its own inserted over them.
pub open spec fn finish_mapping(own: Seq<(NodeView, NodeView)>, merged: Seq<(NodeView, NodeView)>) -> Seq<(NodeView, NodeView)> {
    if merged.len() == 0 {
        own
    } else {
        insert_all(insert_all(seq![], merged), own)
    }
}

/// Composition of one node from `st.pos`: a scalar (resolved by `res`), a
/// sequence, a mapping, or an alias (a copy of the anchored value), with
/// its anchor recorded.
pub open spec fn spec_compose_node(
    evs: Seq<Result<Event, ResolveError>>,
    st: ComposeState,
    lim: ResourceLimits,
    res: TagResolution,
) -> Result<(NodeView, ComposeState), ComposeFailure>
    decreases evs.len() - st.pos, 0int,
{
    let p = skip_from(evs, st.pos);
    if st.pos < 0 || p < st.pos || p >= evs.len() {
        Err(ComposeFailure::UnexpectedEvent("unexpected end of events"@))
    } else {
        match evs[p] {
            Err(e) => Err(ComposeFailure::Resolve(e)),
            Ok(ev) => match ev {
                Event::Scalar { anchor, value, style, .. } => with_anchor(
                    anchor,
                    scalar_node(value@, style, res),
                    ComposeState { pos: p + 1, ..st },
                    lim,
                ),
                Event::SequenceStart { anchor, .. } => match spec_compose_items(
                    evs,
                    ComposeState { pos: p + 1, ..st },
                    seq![],
                    lim,
                    res,
                ) {
                    Ok((items, st2)) => with_anchor(anchor, NodeView::Sequence(items), st2, lim),
                    Err(e) => Err(e),
                },
                Event::MappingStart { anchor, .. } => match spec_compose_pairs(
                    evs,
                    ComposeState { pos: p + 1, ..st },
                    seq![],
                    seq![],
                    lim,
                    res,
                ) {
                    Ok((entries, st2)) => with_anchor(anchor, NodeView::Mapping(entries), st2, lim),
                    Err(e) => Err(e),
                },
                Event::Alias { name, .. } => {
                    let n = st.aliases + 1;
                    match limit_outcome(n as usize, lim.max_alias_expansions, alias_name()) {
                        Err(m) => Err(ComposeFailure::LimitExceeded(m)),
                        Ok(_) => {
                            let j = find_anchor(st.anchors, name@, 0);
                            if 0 <= j < st.anchors.len() {
                                Ok((st.anchors[j].1, ComposeState { pos: p + 1, aliases: n, ..st }))
                            } else {
                                Err(ComposeFailure::UndefinedAlias(name@))
                            }
                        },
                    }
                },
                _ => Err(ComposeFailure::UnexpectedEvent("expected node content"@)),
            },
        }
    }
}

/// The remaining items of a sequence from `st.pos`, after `acc`, up to its
/// end event.
pub open spec fn spec_compose_items(
    evs: Seq<Result<Event, ResolveError>>,
    st: ComposeState,
    acc: Seq<NodeView>,
    lim: ResourceLimits,
    res: TagResolution,
) -> Result<(Seq<NodeView>, ComposeState), ComposeFailure>
    decreases evs.len() - st.pos, 1int,
{
    let p = skip_from(evs, st.pos);
    if st.pos < 0 || p < st.pos || p >= evs.len() {
        Err(ComposeFailure::UnexpectedEvent("unterminated sequence"@))
    } else {
        match evs[p] {
            Err(e) => Err(ComposeFailure::Resolve(e)),
            Ok(ev) => if ev is SequenceEnd {
                Ok((acc, ComposeState { pos: p + 1, ..st }))
            } else {
                match spec_compose_node(evs, ComposeState { pos: p, ..st }, lim, res) {
                    Ok((v, st2)) => if p < st2.pos <= evs.len() {
                        spec_compose_items(evs, st2, acc.push(v), lim, res)
                    } else {
                        Err(ComposeFailure::UnexpectedEvent("unterminated sequence"@))
                    },
                    Err(e) => Err(e),
                }
            },
        }
    }
}

/// The remaining entries of a mapping from `st.pos`, after its own entries
/// `own` and the merged entries `merged`, up to its end event.
pub open spec fn spec_compose_pairs(
    evs: Seq<Result<Event, ResolveError>>,
    st: ComposeState,
    own: Seq<(NodeView, NodeView)>,
    merged: Seq<(NodeView, NodeView)>,
    lim: ResourceLimits,
    res: TagResolution,
) -> Result<(Seq<(NodeView, NodeView)>, ComposeState), ComposeFailure>
    decreases evs.len() - st.pos, 1int,
{
    let p = skip_from(evs, st.pos);
    if st.pos < 0 || p < st.pos || p >= evs.len() {
        Err(ComposeFailure::UnexpectedEvent("unterminated mapping"@))
    } else {
        match evs[p] {
            Err(e) => Err(ComposeFailure::Resolve(e)),
            Ok(ev) => if ev is MappingEnd {
                Ok((finish_mapping(own, merged), ComposeState { pos: p + 1, ..st }))
            } else {
                match spec_compose_node(evs, ComposeState { pos: p, ..st }, lim, res) {
                    Ok((k, st2)) => if p < st2.pos <= evs.len() {
                        match spec_compose_node(evs, st2, lim, res) {
                            Ok((v, st3)) => if st2.pos < st3.pos <= evs.len() {
                                if is_merge_key(k) {
                                    match merge_entries(v, lim) {
                                        Ok(es) => spec_compose_pairs(evs, st3, own, merged + es, lim, res),
                                        Err(e) => Err(e),
                                    }
                                } else {
                                    spec_compose_pairs(evs, st3, map_insert(own, k, v), merged, lim, res)
                                }
                            } else {
                                Err(ComposeFailure::UnexpectedEvent("unterminated mapping"@))
                            },
                            Err(e) => Err(e),
                        }
                    } else {
                        Err(ComposeFailure::UnexpectedEvent("unterminated mapping"@))
                    },
                    Err(e) => Err(e),
                }
            },
        }
    }
}

/// After a document's value, the position past its end event when one
/// follows (or the error that comes instead).
pub open spec fn spec_doc_end(evs: Seq<Result<Event, ResolveError>>, pos: int) -> Result<int, ComposeFailure> {
    let r = skip_from(evs, pos);
    if 0 <= r < evs.len() {
        match evs[r] {
            Err(e) => Err(ComposeFailure::Resolve(e)),
            Ok(ev) => if ev is DocumentEnd {
                Ok(r + 1)
            } else {
                Ok(r)
            },
        }
    } else {
        Ok(r)
    }
}

/// The content of an explicit document from `pos`: null when the document
/// is empty, else its node. Gives the value, the position after it and the
/// aliases expanded.
pub open spec fn spec_doc_content(
    evs: Seq<Result<Event, ResolveError>>,
    pos: int,
    aliases: nat,
    lim: ResourceLimits,
    res: TagResolution,
) -> Result<(NodeView, int, nat), ComposeFailure> {
    let q = skip_from(evs, pos);
    if pos < 0 || q < pos || q >= evs.len() {
        Ok((NodeView::Null, q, aliases))
    } else {
        match evs[q] {
            Err(e) => Err(ComposeFailure::Resolve(e)),
            Ok(ev) => if ev is DocumentEnd {
                Ok((NodeView::Null, q, aliases))
            } else {
                match spec_compose_node(evs, ComposeState { pos: q, anchors: seq![], aliases }, lim, res) {
                    Ok((v, st)) => Ok((v, st.pos, st.aliases)),
                    Err(e) => Err(e),
                }
            },
        }
    }
}

/// One document at `p`, explicit (opened by the `---` event at `p`) or
/// implicit (its node at `p`), with its end event when one follows: its
/// value, the position after it and the aliases expanded.
pub open spec fn spec_document(
    evs: Seq<Result<Event, ResolveError>>,
    p: int,
    explicit: bool,
    aliases: nat,
    lim: ResourceLimits,
    res: TagResolution,
) -> Result<(NodeView, int, nat), ComposeFailure> {
    let body = if explicit {
        spec_doc_content(evs, p + 1, aliases, lim, res)
    } else {
        match spec_compose_node(evs, ComposeState { pos: p, anchors: seq![], aliases }, lim, res) {
            Ok((v, st)) => Ok((v, st.pos, st.aliases)),
            Err(e) => Err(e),
        }
    };
    match body {
        Err(e) => Err(e),
        Ok((v, q, n)) => match spec_doc_end(evs, q) {
            Err(e) => Err(e),
            Ok(r) => Ok((v, r, n)),
        },
    }
}

/// The documents from `pos`, after `acc`: each explicit (`---`) or
/// implicit document's value, directives skipped, up to the end of the
/// stream. Anchors do not carry over from one document to the next.
pub open spec fn spec_compose_docs(
    evs: Seq<Result<Event, ResolveError>>,
    pos: int,
    aliases: nat,
    acc: Seq<NodeView>,
    lim: ResourceLimits,
    res: TagResolution,
) -> Result<Seq<NodeView>, ComposeFailure>
    decreases evs.len() - pos,
{
    let p = skip_from(evs, pos);
    if pos < 0 || p < pos || p >= evs.len() {
        Ok(acc)
    } else {
        match evs[p] {
            Err(e) => Err(ComposeFailure::Resolve(e)),
            Ok(ev) => if ev is StreamEnd {
                Ok(acc)
            } else if ev is VersionDirective || ev is TagDirective {
                spec_compose_docs(evs, p + 1, aliases, acc, lim, res)
            } else {
                match spec_document(evs, p, ev is DocumentStart, aliases, lim, res) {
                    Err(e) => Err(e),
                    Ok((v, r, n)) => if p < r <= evs.len() {
                        spec_compose_docs(evs, r, n, acc.push(v), lim, res)
                    } else {
                        Err(ComposeFailure::UnexpectedEvent("unexpected end of events"@))
                    },
                }
            },
        }
    }
}

/// The documents of a resolved event stream, which must open with
/// `StreamStart`.
pub open spec fn spec_compose_stream(
    evs: Seq<Result<Event, ResolveError>>,
    lim: ResourceLimits,
    res: TagResolution,
) -> Result<Seq<NodeView>, ComposeFailure> {
    let p = skip_from(evs, 0);
    if p >= evs.len() {
        Err(ComposeFailure::UnexpectedEvent("expected StreamStart, got EOF"@))
    } else {
        match evs[p] {
            Err(e) => Err(ComposeFailure::Resolve(e)),
            Ok(ev) => if ev is StreamStart {
                spec_compose_docs(evs, p + 1, 0, seq![], lim, res)
            } else {
                Err(ComposeFailure::UnexpectedEvent("expected StreamStart"@))
            },
        }
    }
}

/// Whether a result matches a specified outcome: the value (by its view)
/// and state, or the error.
pub open spec fn outcome<T, V>(
    r: Result<T, ComposeError>,
    view: spec_fn(T) -> V,
    st: ComposeState,
    s: Result<(V, ComposeState), ComposeFailure>,
) -> bool {
    match s {
        Ok((v, st2)) => r matches Ok(t) && view(t) == v && st == st2,
        Err(f) => r matches Err(e) && failure_of(e) == f,
    }
}

/// Composes value trees from a resolved event stream.
pub struct EventComposer {
    /// The events not taken yet, the next one last.
    rest: Vec<Result<Event, ResolveError>>,
    anchors: Vec<(String, ValueTree)>,
    limits: ResourceLimits,
    aliases: usize,
    res: TagResolution,
}

impl EventComposer {
    /// The events not taken yet are the tail of `evs`.
    pub closed spec fn rest_ok(&self, evs: Seq<Result<Event, ResolveError>>) -> bool {
        &&& self.rest@.len() <= evs.len()
        &&& evs.len() <= usize::MAX
        &&& forall|i: int| 0 <= i < self.rest@.len() ==> #[trigger] self.rest@[i] == evs[evs.len() - 1 - i]
        &&& self.aliases <= evs.len() - self.rest@.len()
    }

    /// The index of the next event in `evs`.
    pub closed spec fn pos(&self, evs: Seq<Result<Event, ResolveError>>) -> int {
        evs.len() - self.rest@.len()
    }

    /// The anchors as plain values.
    pub closed spec fn anchors_view(&self) -> Seq<(Seq<char>, NodeView)> {
        self.anchors@.map_values(|a: (String, ValueTree)| (a.0@, tree_view(a.1)))
    }

    /// Where composition stands.
    pub closed spec fn state(&self, evs: Seq<Result<Event, ResolveError>>) -> ComposeState {
        ComposeState { pos: self.pos(evs), anchors: self.anchors_view(), aliases: self.aliases as nat }
    }

    /// The limits in force.
    pub closed spec fn lim(&self) -> ResourceLimits {
        self.limits
    }

    /// The tag resolution in force.
    pub closed spec fn scheme(&self) -> TagResolution {
        self.res
    }

    /// Skips comment and indicator events.
    fn skip(&mut self, Ghost(evs): Ghost<Seq<Result<Event, ResolveError>>>)
        requires
            old(self).rest_ok(evs),
        ensures
            final(self).rest_ok(evs),
            final(self).pos(evs) == skip_from(evs, old(self).pos(evs)),
            final(self).rest@.len() <= old(self).rest@.len(),
            final(self).anchors == old(self).anchors,
            final(self).aliases == old(self).aliases,
            final(self).limits == old(self).limits,
            final(self).res == old(self).res,
    {
        loop
            invariant
                self.rest_ok(evs),
                skip_from(evs, self.pos(evs)) == skip_from(evs, old(self).pos(evs)),
                self.rest@.len() <= old(self).rest@.len(),
                self.anchors == old(self).anchors,
                self.aliases == old(self).aliases,
                self.limits == old(self).limits,
                self.res == old(self).res,
            ensures
                self.rest_ok(evs),
                self.pos(evs) == skip_from(evs, old(self).pos(evs)),
                self.rest@.len() <= old(self).rest@.len(),
                self.anchors == old(self).anchors,
                self.aliases == old(self).aliases,
                self.limits == old(self).limits,
                self.res == old(self).res,
            decreases self.rest@.len(),
        {
            let n = self.rest.len();
            if n == 0 {
                break;
            }
            let structural = match &self.rest[n - 1] {
                Ok(e) => e.is_structural(),
                Err(_) => false,
            };
            proof {
                assert(self.rest@[n - 1] == evs[self.pos(evs)]);
            }
            if !structural {
                break;
            }
            let ghost before = self.rest@;
            let _ = self.rest.pop();
            proof {
                assert forall|i: int| 0 <= i < self.rest@.len() implies #[trigger] self.rest@[i] == evs[evs.len() - 1 - i] by {
                    assert(self.rest@[i] == before[i]);
                }
            }
        }
    }

    /// Takes the next event, which exists.
    fn take(&mut self, Ghost(evs): Ghost<Seq<Result<Event, ResolveError>>>) -> (r: Result<Event, ResolveError>)
        requires
            old(self).rest_ok(evs),
            old(self).rest@.len() > 0,
        ensures
            final(self).rest_ok(evs),
            final(self).rest@.len() + 1 == old(self).rest@.len(),
            forall|i: int| 0 <= i < final(self).rest@.len() ==> #[trigger] final(self).rest@[i] == evs[evs.len() - 1 - i],
            r == evs[old(self).pos(evs)],
            final(self).anchors == old(self).anchors,
            final(self).aliases == old(self).aliases,
            final(self).limits == old(self).limits,
            final(self).res == old(self).res,
    {
        let ghost before = self.rest@;
        let r = match self.rest.pop() {
            Some(x) => x,
            None => {
                proof {
                    assert(false);
                }
                Err(ResolveError::Custom(String::new()))
            },
        };
        proof {
            assert(r == before[before.len() - 1]);
            assert forall|i: int| 0 <= i < self.rest@.len() implies #[trigger] self.rest@[i] == evs[evs.len() - 1 - i] by {
                assert(self.rest@[i] == before[i]);
            }
        }
        r
    }

    /// Records `v` under the anchor, if there is one, subject to the anchor
    /// limit.
    fn record(
        &mut self,
        anchor: Option<String>,
        v: ValueTree,
        Ghost(evs): Ghost<Seq<Result<Event, ResolveError>>>,
    ) -> (r: Result<ValueTree, ComposeError>)
        requires
            old(self).rest_ok(evs),
        ensures
            final(self).rest_ok(evs),
            final(self).rest == old(self).rest,
            final(self).aliases == old(self).aliases,
            final(self).limits == old(self).limits,
            final(self).res == old(self).res,
            outcome(
                r,
                |t: ValueTree| tree_view(t),
                final(self).state(evs),
                with_anchor(anchor, tree_view(v), old(self).state(evs), old(self).limits),
            ),
    {
        match anchor {
            None => Ok(v),
            Some(name) => {
                let ghost nv = name@;
                let ghost av = self.anchors_view();
                let copy = clone_tree(&v);
                let mut i: usize = 0;
                let mut found = false;
                while i < self.anchors.len() && !found
                    invariant
                        i <= self.anchors@.len(),
                        self.anchors == old(self).anchors,
                        av == self.anchors_view(),
                        av.len() == self.anchors@.len(),
                        nv == name@,
                        found ==> i < av.len() && av[i as int].0 == nv,
                        forall|j: int| 0 <= j < i ==> #[trigger] av[j].0 != nv,
                        find_anchor(av, nv, 0) == find_anchor(av, nv, i as int),
                    decreases self.anchors@.len() - i, if found { 0int } else { 1int },
                {
                    assert(av[i as int] == (self.anchors@[i as int].0@, tree_view(self.anchors@[i as int].1)));
                    let same = str_equal(&self.anchors[i].0, &name);
                    assert(same == (self.anchors@[i as int].0@ == nv));
                    if same {
                        found = true;
                    } else {
                        i = i + 1;
                    }
                }
                proof {
                    assert(found ==> i < av.len() && av[i as int].0 == nv);
                    assert(found ==> find_anchor(av, nv, 0) == i);
                    assert(!found ==> find_anchor(av, nv, 0) == av.len());
                }
                if found {
                    self.anchors.set(i, (name, copy));
                } else {
                    self.anchors.push((name, copy));
                }
                proof {
                    assert(self.anchors_view() =~= anchor_set(av, nv, tree_view(v)));
                }
                match self.limits.check_anchor_count(self.anchors.len()) {
                    Err(msg) => Err(ComposeError::LimitExceeded(msg)),
                    Ok(()) => Ok(v),
                }
            },
        }
    }

    /// The node at the next event (see [`spec_compose_node`]).
    fn compose_node(&mut self, Ghost(evs): Ghost<Seq<Result<Event, ResolveError>>>) -> (r: Result<ValueTree, ComposeError>)
        requires
            old(self).rest_ok(evs),
        ensures
            final(self).rest_ok(evs),
            final(self).limits == old(self).limits,
            final(self).rest@.len() <= old(self).rest@.len(),
            final(self).res == old(self).res,
            outcome(
                r,
                |t: ValueTree| tree_view(t),
                final(self).state(evs),
                spec_compose_node(evs, old(self).state(evs), old(self).limits, old(self).res),
            ),
            r is Ok ==> old(self).pos(evs) < final(self).pos(evs) <= evs.len(),
        decreases old(self).rest@.len(), 0nat,
    {
        self.skip(Ghost(evs));
        if self.rest.len() == 0 {
            return Err(ComposeError::UnexpectedEvent(str_to_string("unexpected end of events")));
        }
        let item = self.take(Ghost(evs));
        match item {
            Err(e) => Err(ComposeError::Resolve(e)),
            Ok(ev) => match ev {
                Event::Scalar { anchor, value, style, .. } => {
                    let v = scalar_tree(value, style, self.res);
                    self.record(anchor, v, Ghost(evs))
                },
                Event::SequenceStart { anchor, .. } => match self.compose_items(Ghost(evs)) {
                    Ok(items) => {
                        proof {
                            lemma_trees_view(items@, 0);
                        }
                        self.record(anchor, ValueTree::Sequence(items), Ghost(evs))
                    },
                    Err(e) => Err(e),
                },
                Event::MappingStart { anchor, .. } => match self.compose_pairs(Ghost(evs)) {
                    Ok(entries) => self.record(anchor, ValueTree::Mapping(entries), Ghost(evs)),
                    Err(e) => Err(e),
                },
                Event::Alias { name, .. } => {
                    let n = self.aliases + 1;
                    match self.limits.check_alias_expansions(n) {
                        Err(msg) => Err(ComposeError::LimitExceeded(msg)),
                        Ok(()) => {
                            self.aliases = n;
                            self.lookup(name)
                        },
                    }
                },
                _ => Err(ComposeError::UnexpectedEvent(str_to_string("expected node content"))),
            },
        }
    }

    /// A copy of the value of the anchor `name`.
    fn lookup(&self, name: String) -> (r: Result<ValueTree, ComposeError>)
        ensures
            ({
                let j = find_anchor(self.anchors_view(), name@, 0);
                if 0 <= j < self.anchors_view().len() {
                    r matches Ok(t) && tree_view(t) == self.anchors_view()[j].1
                } else {
                    r matches Err(e) && failure_of(e) == ComposeFailure::UndefinedAlias(name@)
                }
            }),
    {
        let ghost av = self.anchors_view();
        let mut i: usize = 0;
        while i < self.anchors.len()
            invariant
                i <= self.anchors@.len(),
                av == self.anchors_view(),
                av.len() == self.anchors@.len(),
                forall|j: int| 0 <= j < i ==> #[trigger] av[j].0 != name@,
                find_anchor(av, name@, 0) == find_anchor(av, name@, i as int),
            decreases self.anchors@.len() - i,
        {
            assert(av[i as int] == (self.anchors@[i as int].0@, tree_view(self.anchors@[i as int].1)));
            if str_equal(&self.anchors[i].0, &name) {
                return Ok(clone_tree(&self.anchors[i].1));
            }
            i = i + 1;
        }
        Err(ComposeError::UndefinedAlias(name))
    }

    /// The rest of a sequence, up to its end event.
    fn compose_items(&mut self, Ghost(evs): Ghost<Seq<Result<Event, ResolveError>>>) -> (r: Result<Vec<ValueTree>, ComposeError>)
        requires
            old(self).rest_ok(evs),
        ensures
            final(self).rest_ok(evs),
            final(self).limits == old(self).limits,
            final(self).rest@.len() <= old(self).rest@.len(),
            final(self).res == old(self).res,
            outcome(
                r,
                |v: Vec<ValueTree>| trees_view(v@, 0),
                final(self).state(evs),
                spec_compose_items(evs, old(self).state(evs), seq![], old(self).limits, old(self).res),
            ),
            r is Ok ==> old(self).pos(evs) < final(self).pos(evs) <= evs.len(),
        decreases old(self).rest@.len(), 1nat,
    {
        let ghost target = spec_compose_items(evs, self.state(evs), seq![], self.limits, self.res);
        let mut acc: Vec<ValueTree> = Vec::new();
        proof {
            lemma_trees_view(acc@, 0);
            assert(trees_view(acc@, 0) =~= Seq::<NodeView>::empty());
        }
        loop
            invariant
                self.rest_ok(evs),
                self.limits == old(self).limits,
                self.res == old(self).res,
                self.rest@.len() <= old(self).rest@.len(),
                target == spec_compose_items(evs, old(self).state(evs), seq![], old(self).limits, old(self).res),
                spec_compose_items(evs, self.state(evs), trees_view(acc@, 0), self.limits, self.res) == target,
            decreases self.rest@.len(),
        {
            let ghost st0 = self.state(evs);
            self.skip(Ghost(evs));
            let n = self.rest.len();
            if n == 0 {
                return Err(ComposeError::UnexpectedEvent(str_to_string("unterminated sequence")));
            }
            proof {
                assert(self.rest@[n - 1] == evs[self.pos(evs)]);
            }
            let kind: u8 = match &self.rest[n - 1] {
                Err(_) => 0,
                Ok(Event::SequenceEnd { .. }) => 1,
                Ok(_) => 2,
            };
            if kind == 0 {
                let item = self.take(Ghost(evs));
                match item {
                    Err(e) => {
                        return Err(ComposeError::Resolve(e));
                    },
                    Ok(_) => {
                        proof {
                            assert(false);
                        }
                    },
                }
            }
            if kind == 1 {
                let _ = self.take(Ghost(evs));
                return Ok(acc);
            }
            let ghost before = acc@;
            let v = match self.compose_node(Ghost(evs)) {
                Ok(v) => v,
                Err(e) => {
                    return Err(e);
                },
            };
            let ghost vv = tree_view(v);
            acc.push(v);
            proof {
                lemma_trees_view(acc@, 0);
                lemma_trees_view(before, 0);
                assert(trees_view(acc@, 0) =~= trees_view(before, 0).push(vv));
            }
        }
    }

    /// The rest of a mapping, up to its end event.
    fn compose_pairs(&mut self, Ghost(evs): Ghost<Seq<Result<Event, ResolveError>>>) -> (r: Result<
        Vec<(ValueTree, ValueTree)>,
        ComposeError,
    >)
        requires
            old(self).rest_ok(evs),
        ensures
            final(self).rest_ok(evs),
            final(self).limits == old(self).limits,
            final(self).rest@.len() <= old(self).rest@.len(),
            final(self).res == old(self).res,
            outcome(
                r,
                |v: Vec<(ValueTree, ValueTree)>| pairs_view(v@, 0),
                final(self).state(evs),
                spec_compose_pairs(evs, old(self).state(evs), seq![], seq![], old(self).limits, old(self).res),
            ),
            r is Ok ==> old(self).pos(evs) < final(self).pos(evs) <= evs.len(),
        decreases old(self).rest@.len(), 1nat,
    {
        let ghost target = spec_compose_pairs(evs, self.state(evs), seq![], seq![], self.limits, self.res);
        let mut own: Vec<(ValueTree, ValueTree)> = Vec::new();
        let mut merged: Vec<(ValueTree, ValueTree)> = Vec::new();
        proof {
            lemma_pairs_view(own@, 0);
            assert(pairs_view(own@, 0) =~= Seq::<(NodeView, NodeView)>::empty());
        }
        loop
            invariant
                self.rest_ok(evs),
                self.limits == old(self).limits,
                self.res == old(self).res,
                self.rest@.len() <= old(self).rest@.len(),
                target == spec_compose_pairs(evs, old(self).state(evs), seq![], seq![], old(self).limits, old(self).res),
                spec_compose_pairs(evs, self.state(evs), pairs_view(own@, 0), pairs_view(merged@, 0), self.limits, self.res)
                    == target,
            decreases self.rest@.len(),
        {
            self.skip(Ghost(evs));
            let n = self.rest.len();
            if n == 0 {
                return Err(ComposeError::UnexpectedEvent(str_to_string("unterminated mapping")));
            }
            proof {
                assert(self.rest@[n - 1] == evs[self.pos(evs)]);
            }
            let kind: u8 = match &self.rest[n - 1] {
                Err(_) => 0,
                Ok(Event::MappingEnd { .. }) => 1,
                Ok(_) => 2,
            };
            if kind == 0 {
                let item = self.take(Ghost(evs));
                match item {
                    Err(e) => {
                        return Err(ComposeError::Resolve(e));
                    },
                    Ok(_) => {
                        proof {
                            assert(false);
                        }
                    },
                }
            }
            if kind == 1 {
                let _ = self.take(Ghost(evs));
                return Ok(finish(own, merged));
            }
            let k = match self.compose_node(Ghost(evs)) {
                Ok(k) => k,
                Err(e) => {
                    return Err(e);
                },
            };
            let v = match self.compose_node(Ghost(evs)) {
                Ok(v) => v,
                Err(e) => {
                    return Err(e);
                },
            };
            if is_merge(&k) {
                match merge_into(&v, &mut merged, self.limits) {
                    Ok(()) => {},
                    Err(e) => {
                        return Err(e);
                    },
                }
            } else {
                mapping_insert(&mut own, k, v);
            }
        }
    }

    /// The content of an explicit document: null when it is empty (see
    /// [`spec_doc_content`]).
    fn doc_content(&mut self, Ghost(evs): Ghost<Seq<Result<Event, ResolveError>>>) -> (r: Result<ValueTree, ComposeError>)
        requires
            old(self).rest_ok(evs),
            old(self).anchors@.len() == 0,
        ensures
            final(self).rest_ok(evs),
            final(self).limits == old(self).limits,
            final(self).res == old(self).res,
            final(self).rest@.len() <= old(self).rest@.len(),
            match spec_doc_content(evs, old(self).pos(evs), old(self).aliases as nat, old(self).limits, old(self).res) {
                Ok((v, q, n)) => r matches Ok(t) && tree_view(t) == v && final(self).pos(evs) == q
                    && final(self).aliases == n,
                Err(f) => r matches Err(e) && failure_of(e) == f,
            },
    {
        proof {
            assert(self.anchors_view() =~= Seq::<(Seq<char>, NodeView)>::empty());
        }
        self.skip(Ghost(evs));
        let m = self.rest.len();
        if m == 0 {
            return Ok(ValueTree::Null);
        }
        proof {
            assert(self.rest@[m - 1] == evs[self.pos(evs)]);
        }
        let k2: u8 = match &self.rest[m - 1] {
            Err(_) => 0,
            Ok(Event::DocumentEnd { .. }) => 1,
            Ok(_) => 2,
        };
        if k2 == 0 {
            let item = self.take(Ghost(evs));
            match item {
                Err(e) => Err(ComposeError::Resolve(e)),
                Ok(_) => {
                    proof {
                        assert(false);
                    }
                    Ok(ValueTree::Null)
                },
            }
        } else if k2 == 1 {
            Ok(ValueTree::Null)
        } else {
            self.compose_node(Ghost(evs))
        }
    }

    /// One document at the next event (see [`spec_document`]).
    fn document(&mut self, explicit: bool, Ghost(evs): Ghost<Seq<Result<Event, ResolveError>>>) -> (r: Result<ValueTree, ComposeError>)
        requires
            old(self).rest_ok(evs),
            old(self).rest@.len() > 0,
            explicit ==> (evs[old(self).pos(evs)] matches Ok(e) && e is DocumentStart),
        ensures
            final(self).rest_ok(evs),
            final(self).limits == old(self).limits,
            final(self).res == old(self).res,
            r is Ok ==> final(self).rest@.len() < old(self).rest@.len(),
            final(self).rest@.len() <= old(self).rest@.len(),
            match spec_document(evs, old(self).pos(evs), explicit, old(self).aliases as nat, old(self).limits, old(self).res) {
                Ok((v, q, n)) => r matches Ok(t) && tree_view(t) == v && final(self).pos(evs) == q
                    && final(self).aliases == n,
                Err(f) => r matches Err(e) && failure_of(e) == f,
            },
    {
        self.anchors = Vec::new();
        proof {
            assert(self.anchors_view() =~= Seq::<(Seq<char>, NodeView)>::empty());
        }
        let value = if explicit {
            let _ = self.take(Ghost(evs));
            match self.doc_content(Ghost(evs)) {
                Ok(v) => v,
                Err(e) => {
                    return Err(e);
                },
            }
        } else {
            match self.compose_node(Ghost(evs)) {
                Ok(v) => v,
                Err(e) => {
                    return Err(e);
                },
            }
        };
        match self.doc_end(Ghost(evs)) {
            Ok(()) => Ok(value),
            Err(e) => Err(e),
        }
    }

    /// Takes the end event of a document when one comes next (see
    /// [`spec_doc_end`]).
    fn doc_end(&mut self, Ghost(evs): Ghost<Seq<Result<Event, ResolveError>>>) -> (r: Result<(), ComposeError>)
        requires
            old(self).rest_ok(evs),
        ensures
            final(self).rest_ok(evs),
            final(self).limits == old(self).limits,
            final(self).res == old(self).res,
            final(self).aliases == old(self).aliases,
            final(self).rest@.len() <= old(self).rest@.len(),
            match spec_doc_end(evs, old(self).pos(evs)) {
                Ok(q) => r is Ok && final(self).pos(evs) == q,
                Err(f) => r matches Err(e) && failure_of(e) == f,
            },
    {
        self.skip(Ghost(evs));
        let m = self.rest.len();
        if m == 0 {
            return Ok(());
        }
        proof {
            assert(self.rest@[m - 1] == evs[self.pos(evs)]);
        }
        let k3: u8 = match &self.rest[m - 1] {
            Err(_) => 0,
            Ok(Event::DocumentEnd { .. }) => 1,
            Ok(_) => 2,
        };
        if k3 == 0 {
            let item = self.take(Ghost(evs));
            match item {
                Err(e) => {
                    return Err(ComposeError::Resolve(e));
                },
                Ok(_) => {
                    proof {
                        assert(false);
                    }
                },
            }
        }
        if k3 == 1 {
            let _ = self.take(Ghost(evs));
        }
        Ok(())
    }

    /// The documents from the next event (see [`spec_compose_docs`]).
    fn compose_docs(&mut self, Ghost(evs): Ghost<Seq<Result<Event, ResolveError>>>) -> (r: Result<Vec<ValueTree>, ComposeError>)
        requires
            old(self).rest_ok(evs),
        ensures
            match spec_compose_docs(evs, old(self).pos(evs), old(self).aliases as nat, seq![], old(self).limits, old(self).res) {
                Ok(d) => r matches Ok(v) && trees_view(v@, 0) == d,
                Err(f) => r matches Err(e) && failure_of(e) == f,
            },
    {
        let ghost target = spec_compose_docs(evs, self.pos(evs), self.aliases as nat, seq![], self.limits, self.res);
        let mut docs: Vec<ValueTree> = Vec::new();
        proof {
            lemma_trees_view(docs@, 0);
            assert(trees_view(docs@, 0) =~= Seq::<NodeView>::empty());
        }
        loop
            invariant
                self.rest_ok(evs),
                self.limits == old(self).limits,
                self.res == old(self).res,
                target == spec_compose_docs(evs, old(self).pos(evs), old(self).aliases as nat, seq![], old(self).limits, old(self).res),
                spec_compose_docs(evs, self.pos(evs), self.aliases as nat, trees_view(docs@, 0), self.limits, self.res)
                    == target,
            decreases self.rest@.len(),
        {
            self.skip(Ghost(evs));
            let n = self.rest.len();
            if n == 0 {
                return Ok(docs);
            }
            proof {
                assert(self.rest@[n - 1] == evs[self.pos(evs)]);
            }
            let kind: u8 = match &self.rest[n - 1] {
                Err(_) => 0,
                Ok(Event::StreamEnd) => 1,
                Ok(Event::VersionDirective { .. }) => 2,
                Ok(Event::TagDirective { .. }) => 2,
                Ok(Event::DocumentStart { .. }) => 3,
                Ok(_) => 4,
            };
            let ghost p = self.pos(evs);
            if kind == 0 {
                let item = self.take(Ghost(evs));
                match item {
                    Err(e) => {
                        return Err(ComposeError::Resolve(e));
                    },
                    Ok(_) => {
                        proof {
                            assert(false);
                        }
                    },
                }
            }
            if kind == 1 {
                let _ = self.take(Ghost(evs));
                return Ok(docs);
            }
            if kind == 2 {
                let _ = self.take(Ghost(evs));
            } else {
                let value = match self.document(kind == 3, Ghost(evs)) {
                    Ok(v) => v,
                    Err(e) => {
                        return Err(e);
                    },
                };
                let ghost before = docs@;
                let ghost vv = tree_view(value);
                docs.push(value);
                proof {
                    lemma_trees_view(docs@, 0);
                    lemma_trees_view(before, 0);
                    assert(trees_view(docs@, 0) =~= trees_view(before, 0).push(vv));
                }
            }
        }
    }
}

/// Whether a key is the merge key `<<`.
fn is_merge(k: &ValueTree) -> (r: bool)
    ensures
        r == is_merge_key(tree_view(*k)),
{
    match k {
        ValueTree::Str(s) => {
            let t = s.as_str();
            let n = t.unicode_len();
            if n != 2 {
                return false;
            }
            let r = t.get_char(0) == '<' && t.get_char(1) == '<';
            proof {
                if r {
                    assert(s@ =~= seq!['<', '<']);
                }
            }
            r
        },
        _ => false,
    }
}

/// Appends copies of the pairs `src` to `dst`.
fn append_pairs(dst: &mut Vec<(ValueTree, ValueTree)>, src: &Vec<(ValueTree, ValueTree)>)
    ensures
        pairs_view(final(dst)@, 0) == pairs_view(old(dst)@, 0) + pairs_view(src@, 0),
{
    let ghost base = pairs_view(dst@, 0);
    proof {
        lemma_pairs_view(dst@, 0);
        lemma_pairs_view(src@, 0);
    }
    let mut i: usize = 0;
    while i < src.len()
        invariant
            i <= src@.len(),
            base == pairs_view(old(dst)@, 0),
            pairs_view(src@, 0).len() == src@.len(),
            forall|k: int| 0 <= k < src@.len() ==> #[trigger] pairs_view(src@, 0)[k] == (tree_view(src@[k].0), tree_view(src@[k].1)),
            pairs_view(dst@, 0) == base + pairs_view(src@, 0).take(i as int),
        decreases src@.len() - i,
    {
        let a = clone_tree(&src[i].0);
        let b = clone_tree(&src[i].1);
        let ghost before = dst@;
        let ghost pa = (tree_view(a), tree_view(b));
        dst.push((a, b));
        proof {
            lemma_pairs_view(dst@, 0);
            lemma_pairs_view(before, 0);
            assert(pairs_view(dst@, 0) =~= pairs_view(before, 0).push(pa));
            assert(pairs_view(src@, 0).take(i + 1) =~= pairs_view(src@, 0).take(i as int).push(pairs_view(src@, 0)[i as int]));
        }
        i = i + 1;
    }
    proof {
        assert(pairs_view(src@, 0).take(i as int) =~= pairs_view(src@, 0));
    }
}

/// Inserts copies of the pairs `src` into the mapping `dst`, in order.
fn insert_each(dst: &mut Vec<(ValueTree, ValueTree)>, src: &Vec<(ValueTree, ValueTree)>)
    ensures
        pairs_view(final(dst)@, 0) == insert_all(pairs_view(old(dst)@, 0), pairs_view(src@, 0)),
{
    let ghost base = pairs_view(dst@, 0);
    proof {
        lemma_pairs_view(src@, 0);
        assert(pairs_view(src@, 0).take(0) =~= Seq::<(NodeView, NodeView)>::empty());
    }
    let mut i: usize = 0;
    while i < src.len()
        invariant
            i <= src@.len(),
            base == pairs_view(old(dst)@, 0),
            pairs_view(src@, 0).len() == src@.len(),
            forall|k: int| 0 <= k < src@.len() ==> #[trigger] pairs_view(src@, 0)[k] == (tree_view(src@[k].0), tree_view(src@[k].1)),
            pairs_view(dst@, 0) == insert_all(base, pairs_view(src@, 0).take(i as int)),
        decreases src@.len() - i,
    {
        let a = clone_tree(&src[i].0);
        let b = clone_tree(&src[i].1);
        mapping_insert(dst, a, b);
        proof {
            let t = pairs_view(src@, 0).take(i + 1);
            assert(t.drop_last() =~= pairs_view(src@, 0).take(i as int));
            assert(t.last() == pairs_view(src@, 0)[i as int]);
        }
        i = i + 1;
    }
    proof {
        assert(pairs_view(src@, 0).take(i as int) =~= pairs_view(src@, 0));
    }
}

/// The final entries of a mapping (see [`finish_mapping`]).
fn finish(own: Vec<(ValueTree, ValueTree)>, merged: Vec<(ValueTree, ValueTree)>) -> (r: Vec<(ValueTree, ValueTree)>)
    ensures
        pairs_view(r@, 0) == finish_mapping(pairs_view(own@, 0), pairs_view(merged@, 0)),
{
    proof {
        lemma_pairs_view(merged@, 0);
    }
    if merged.len() == 0 {
        return own;
    }
    let mut out: Vec<(ValueTree, ValueTree)> = Vec::new();
    proof {
        lemma_pairs_view(out@, 0);
        assert(pairs_view(out@, 0) =~= Seq::<(NodeView, NodeView)>::empty());
    }
    insert_each(&mut out, &merged);
    insert_each(&mut out, &own);
    out
}

/// Adds the entries that the `<<` value `v` merges in (see
/// [`merge_entries`]) to `merged`.
fn merge_into(v: &ValueTree, merged: &mut Vec<(ValueTree, ValueTree)>, limits: ResourceLimits) -> (r: Result<(), ComposeError>)
    ensures
        match merge_entries(tree_view(*v), limits) {
            Ok(es) => r is Ok && pairs_view(final(merged)@, 0) == pairs_view(old(merged)@, 0) + es,
            Err(f) => r matches Err(e) && failure_of(e) == f,
        },
{
    match limits.check_merge_depth(0) {
        Err(msg) => {
            return Err(ComposeError::LimitExceeded(msg));
        },
        Ok(()) => {},
    }
    match v {
        ValueTree::Mapping(m) => {
            append_pairs(merged, m);
            Ok(())
        },
        ValueTree::Sequence(items) => {
            let ghost iv = trees_view(items@, 0);
            let ghost base = pairs_view(merged@, 0);
            proof {
                lemma_trees_view(items@, 0);
            }
            let mut i: usize = 0;
            while i < items.len()
                invariant
                    i <= items@.len(),
                    iv == trees_view(items@, 0),
                    tree_view(*v) == NodeView::Sequence(iv),
                    iv.len() == items@.len(),
                    forall|k: int| 0 <= k < items@.len() ==> #[trigger] iv[k] == tree_view(items@[k]),
                    base == pairs_view(old(merged)@, 0),
                    pairs_view(merged@, 0).len() >= base.len(),
                    base == pairs_view(merged@, 0).take(base.len() as int),
                    merge_items(iv, 0) == match merge_items(iv, i as int) {
                        Ok(rest) => Ok(pairs_view(merged@, 0).skip(base.len() as int) + rest),
                        Err(e) => Err(e),
                    },
                decreases items@.len() - i,
            {
                match &items[i] {
                    ValueTree::Mapping(m) => {
                        let ghost before = pairs_view(merged@, 0);
                        append_pairs(merged, m);
                        proof {
                            let mv = pairs_view(m@, 0);
                            assert(iv[i as int] == NodeView::Mapping(mv));
                            assert(pairs_view(merged@, 0).skip(base.len() as int) =~= before.skip(base.len() as int) + mv);
                            assert(pairs_view(merged@, 0).take(base.len() as int) =~= before.take(base.len() as int));
                            match merge_items(iv, i + 1) {
                                Ok(rest) => {
                                    assert(before.skip(base.len() as int) + (mv + rest) =~= (before.skip(base.len() as int) + mv) + rest);
                                },
                                Err(_) => {},
                            }
                        }
                    },
                    _ => {
                        proof {
                            assert(!(iv[i as int] is Mapping));
                            assert(merge_items(iv, i as int) == Err::<Seq<(NodeView, NodeView)>, ComposeFailure>(
                                ComposeFailure::UnexpectedEvent("merge key (<<) sequence item must be a mapping"@),
                            ));
                            assert(tree_view(*v) == NodeView::Sequence(iv));
                        }
                        return Err(ComposeError::UnexpectedEvent(str_to_string("merge key (<<) sequence item must be a mapping")));
                    },
                }
                i = i + 1;
            }
            proof {
                assert(pairs_view(merged@, 0) =~= base + pairs_view(merged@, 0).skip(base.len() as int));
                assert(pairs_view(merged@, 0).skip(base.len() as int) + Seq::<(NodeView, NodeView)>::empty() =~= pairs_view(merged@, 0).skip(base.len() as int));
            }
            Ok(())
        },
        _ => Err(ComposeError::UnexpectedEvent(str_to_string("merge key (<<) value must be a mapping or sequence of mappings"))),
    }
}

/// The value tree of a scalar (see [`scalar_node`]).
fn scalar_tree(value: String, style: ScalarStyle, res: TagResolution) -> (t: ValueTree)
    ensures
        tree_view(t) == scalar_node(value@, style, res),
{
    if style == ScalarStyle::Plain {
        match res.resolve(value.as_str()) {
            Scalar::Null => ValueTree::Null,
            Scalar::Bool(b) => ValueTree::Bool(b),
            Scalar::Integer(n) => ValueTree::Integer(n),
            Scalar::Float(t) => ValueTree::Float(t),
            Scalar::Infinity => ValueTree::Infinity,
            Scalar::NegInfinity => ValueTree::NegInfinity,
            Scalar::NaN => ValueTree::NaN,
            Scalar::Str => ValueTree::Str(value),
        }
    } else {
        ValueTree::Str(value)
    }
}

fn str_equal(a: &String, b: &String) -> (r: bool)
    ensures
        r == (a@ == b@),
{
    let x = a.as_str();
    let y = b.as_str();
    let n = x.unicode_len();
    if n != y.unicode_len() {
        return false;
    }
    let mut i: usize = 0;
    while i < n
        invariant
            n == x@.len(),
            n == y@.len(),
            i <= n,
            x@ == a@,
            y@ == b@,
            forall|k: int| 0 <= k < i ==> x@[k] == y@[k],
        decreases n - i,
    {
        if x.get_char(i) != y.get_char(i) {
            return false;
        }
        i = i + 1;
    }
    assert(x@ =~= y@);
    true
}

} // verus!
