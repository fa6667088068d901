//! Concrete syntax tree: a lossless representation of YAML source.
//!
//! The tree keeps every byte of the input (whitespace, comments, quoting,
//! indicators): concatenating the texts of its leaf tokens in tree order
//! gives the source back. Build one from events with [`CstBuilder`], or in
//! one call with [`parse_to_cst`].
use vstd::prelude::*;

use crate::diagnostic::{span_zero, Mark, Span};
use crate::parser::{Event, ParseError, Parser};
use crate::reader::{max_input_chars, Reader};
use crate::text::{
    boundary_index, is_boundary, lemma_boundary_index, lemma_boundary_unique,
    lemma_utf8_len_take_le, lemma_utf8_len_take_mono, push_string, str_byte_len, string_len,
    utf8_len,
};
use crate::token::ScalarStyle;

verus! {

/// Interior node kinds.
#[derive(Clone, Copy, Debug, PartialEq, Eq, Structural)]
pub enum NodeKind {
    /// The root (one per input).
    Stream,
    /// A document (implicit or explicit).
    Document,
    /// A block or flow mapping.
    Mapping,
    /// One key-value pair of a mapping.
    MappingEntry,
    /// A block or flow sequence.
    Sequence,
    /// One entry of a sequence.
    SequenceEntry,
    /// Content that could not be parsed.
    Error,
}

/// Leaf token kinds.
#[derive(Clone, Copy, Debug, PartialEq, Eq, Structural)]
pub enum TokenKind {
    /// `-` block sequence entry indicator.
    BlockEntry,
    /// `?` key indicator.
    Key,
    /// `:` value indicator.
    Value,
    /// `---` document start marker.
    DocumentStart,
    /// `...` document end marker.
    DocumentEnd,
    /// `[` flow sequence start.
    FlowSeqStart,
    /// `]` flow sequence end.
    FlowSeqEnd,
    /// `{` flow mapping start.
    FlowMapStart,
    /// `}` flow mapping end.
    FlowMapEnd,
    /// `,` flow entry separator.
    FlowEntry,
    /// Scalar text (plain, quoted, or block).
    Scalar,
    /// `&name` anchor.
    Anchor,
    /// `*name` alias.
    Alias,
    /// A tag.
    Tag,
    /// `%YAML` directive.
    VersionDirective,
    /// `%TAG` directive.
    TagDirective,
    /// `# text` comment.
    Comment,
    /// Whitespace between tokens.
    Whitespace,
}

/// An interior node.
#[derive(Debug)]
pub struct CstNode {
    /// What construct this node is.
    pub kind: NodeKind,
    /// Source span (up to the end of its last child).
    pub span: Span,
    /// Children, in source order.
    pub children: Vec<CstElement>,
}

/// A leaf token.
#[derive(Clone, Debug)]
pub struct CstToken {
    /// What kind of token this is.
    pub kind: TokenKind,
    /// The source text it covers.
    pub text: String,
    /// Source span.
    pub span: Span,
}

/// A child: an interior node or a leaf token.
#[derive(Debug)]
pub enum CstElement {
    /// An interior node.
    Node(CstNode),
    /// A leaf token.
    Token(CstToken),
}

/// The text of an element: a token's text, or its leaves' texts in order.
pub open spec fn element_text(e: CstElement) -> Seq<char>
    decreases e,
{
    match e {
        CstElement::Token(t) => t.text@,
        CstElement::Node(n) => elements_text(n.children@),
    }
}

/// The texts of elements, one after the other.
pub open spec fn elements_text(s: Seq<CstElement>) -> Seq<char>
    decreases s,
{
    if s.len() == 0 {
        seq![]
    } else {
        elements_text(s.drop_last()) + element_text(s.last())
    }
}

/// The text of a node.
pub open spec fn node_text(n: CstNode) -> Seq<char> {
    elements_text(n.children@)
}

/// The number of leaf tokens of an element.
pub open spec fn element_leaves(e: CstElement) -> nat
    decreases e,
{
    match e {
        CstElement::Token(_) => 1,
        CstElement::Node(n) => elements_leaves(n.children@),
    }
}

/// The number of leaf tokens of elements.
pub open spec fn elements_leaves(s: Seq<CstElement>) -> nat
    decreases s,
{
    if s.len() == 0 {
        0
    } else {
        elements_leaves(s.drop_last()) + element_leaves(s.last())
    }
}

/// Whether element `e` is a node of kind `k`.
pub open spec fn is_node_of(e: CstElement, k: NodeKind) -> bool {
    e matches CstElement::Node(n) && n.kind == k
}

/// Element `e` as a token of kind `k`, if it is one.
pub open spec fn token_of(e: CstElement, k: TokenKind) -> Option<CstToken> {
    match e {
        CstElement::Token(t) => if t.kind == k {
            Some(t)
        } else {
            None
        },
        CstElement::Node(_) => None,
    }
}

/// The deepest node of `n` (or `n` itself) whose span contains `offset`,
/// looking at child nodes in order.
pub open spec fn spec_node_at_offset(n: CstNode, offset: nat) -> Option<CstNode>
    decreases n,
{
    if offset < n.span.start.offset || offset >= n.span.end.offset {
        None
    } else {
        match first_child_hit(n.children@, offset, 0) {
            Some(m) => Some(m),
            None => Some(n),
        }
    }
}

/// The first hit of [`spec_node_at_offset`] among the child nodes
/// `s[i..]`.
pub open spec fn first_child_hit(s: Seq<CstElement>, offset: nat, i: int) -> Option<CstNode>
    decreases s, s.len() - i,
{
    if i < 0 || i >= s.len() {
        None
    } else {
        match s[i] {
            CstElement::Node(m) => match spec_node_at_offset(m, offset) {
                Some(found) => Some(found),
                None => first_child_hit(s, offset, i + 1),
            },
            CstElement::Token(_) => first_child_hit(s, offset, i + 1),
        }
    }
}

/// The node found at an offset contains that offset.
pub proof fn lemma_node_at_offset_contains(n: CstNode, offset: nat)
    ensures
        spec_node_at_offset(n, offset) matches Some(m) ==> m.span.start.offset <= offset
            < m.span.end.offset,
    decreases n,
{
    if !(offset < n.span.start.offset || offset >= n.span.end.offset) {
        assert(decreases_to!(n => n.children));
        assert(decreases_to!(n.children => n.children@));
        lemma_child_hit_contains(n.children@, offset, 0);
    }
}

/// A node found among child nodes contains the offset.
pub proof fn lemma_child_hit_contains(s: Seq<CstElement>, offset: nat, i: int)
    ensures
        first_child_hit(s, offset, i) matches Some(m) ==> m.span.start.offset <= offset
            < m.span.end.offset,
    decreases s, s.len() - i,
{
    if 0 <= i < s.len() {
        match s[i] {
            CstElement::Node(m) => {
                assert(decreases_to!(s => s[i]));
                lemma_node_at_offset_contains(m, offset);
                lemma_child_hit_contains(s, offset, i + 1);
            },
            CstElement::Token(_) => {
                lemma_child_hit_contains(s, offset, i + 1);
            },
        }
    }
}

fn clone_token(t: &CstToken) -> (r: CstToken)
    ensures
        r == *t,
{
    CstToken { kind: t.kind, text: t.text.clone(), span: t.span }
}

impl CstNode {
    fn collect_text(&self, buf: &mut String)
        ensures
            final(buf)@ == old(buf)@ + node_text(*self),
        decreases self,
    {
        let ghost start = buf@;
        let mut i: usize = 0;
        while i < self.children.len()
            invariant
                i <= self.children@.len(),
                buf@ == start + elements_text(self.children@.take(i as int)),
            decreases self.children@.len() - i,
        {
            proof {
                assert(self.children@.take(i + 1).drop_last() =~= self.children@.take(i as int));
            }
            proof {
                assert(self.children@.take(i + 1).last() == self.children@[i as int]);
            }
            match &self.children[i] {
                CstElement::Node(node) => {
                    proof {
                        assert(decreases_to!(self => self.children));
                        assert(decreases_to!(self.children => self.children@));
                        assert(decreases_to!(self.children@ => self.children@[i as int]));
                    }
                    node.collect_text(buf);
                    assert(element_text(self.children@[i as int]) == node_text(*node));
                },
                CstElement::Token(token) => {
                    push_string(buf, &token.text);
                    assert(element_text(self.children@[i as int]) == token.text@);
                },
            }
            assert(buf@ =~= start + elements_text(self.children@.take(i + 1)));
            i = i + 1;
        }
        proof {
            assert(self.children@.take(self.children@.len() as int) =~= self.children@);
        }
    }

    /// The texts of all leaf tokens in tree order: for a tree built from a
    /// source, the source itself.
    pub fn to_text(&self) -> (r: String)
        ensures
            r@ == node_text(*self),
    {
        let mut buf = String::new();
        self.collect_text(&mut buf);
        assert(buf@ =~= node_text(*self));
        buf
    }

    /// The direct children.
    pub fn children(&self) -> (r: &[CstElement])
        ensures
            r@ == self.children@,
    {
        self.children.as_slice()
    }

    /// The first child node of kind `kind`.
    pub fn child_node(&self, kind: NodeKind) -> (r: Option<&CstNode>)
        ensures
            r matches Some(n) ==> exists|i: int|
                0 <= i < self.children@.len() && self.children@[i] == CstElement::Node(*n) && n.kind == kind
                    && forall|j: int| 0 <= j < i ==> !is_node_of(#[trigger] self.children@[j], kind),
            r is None ==> forall|j: int| 0 <= j < self.children@.len() ==> !is_node_of(#[trigger] self.children@[j], kind),
    {
        let mut i: usize = 0;
        while i < self.children.len()
            invariant
                i <= self.children@.len(),
                forall|j: int| 0 <= j < i ==> !is_node_of(#[trigger] self.children@[j], kind),
            decreases self.children@.len() - i,
        {
            match &self.children[i] {
                CstElement::Node(n) => {
                    if n.kind == kind {
                        return Some(n);
                    }
                },
                CstElement::Token(_) => {},
            }
            i = i + 1;
        }
        None
    }

    /// The child tokens of kind `kind`, in order.
    pub fn child_tokens(&self, kind: TokenKind) -> (r: Vec<CstToken>)
        ensures
            r@ == self.children@.filter_map(|e: CstElement| token_of(e, kind)),
    {
        let mut out: Vec<CstToken> = Vec::new();
        let mut i: usize = 0;
        while i < self.children.len()
            invariant
                i <= self.children@.len(),
                out@ == self.children@.take(i as int).filter_map(|e: CstElement| token_of(e, kind)),
            decreases self.children@.len() - i,
        {
            proof {
                let s = self.children@.take(i + 1);
                assert(s.drop_last() =~= self.children@.take(i as int));
                assert(s.last() == self.children@[i as int]);
            }
            match &self.children[i] {
                CstElement::Token(t) => {
                    if t.kind == kind {
                        out.push(clone_token(t));
                    }
                },
                CstElement::Node(_) => {},
            }
            i = i + 1;
            proof {
                let f = |e: CstElement| token_of(e, kind);
                let s = self.children@.take(i as int);
                assert(out@ =~= s.filter_map(f));
            }
        }
        proof {
            assert(self.children@.take(self.children@.len() as int) =~= self.children@);
        }
        out
    }

    /// The deepest node containing byte offset `offset`, searching child
    /// nodes depth-first in order; `None` when this node's span does not
    /// contain it.
    pub fn node_at_offset(&self, offset: usize) -> (r: Option<&CstNode>)
        ensures
            match spec_node_at_offset(*self, offset as nat) {
                Some(m) => r matches Some(n) && *n == m,
                None => r is None,
            },
        decreases self,
    {
        if offset < self.span.start.offset || offset >= self.span.end.offset {
            return None;
        }
        let mut i: usize = 0;
        while i < self.children.len()
            invariant
                i <= self.children@.len(),
                self.span.start.offset <= offset < self.span.end.offset,
                first_child_hit(self.children@, offset as nat, 0) == first_child_hit(
                    self.children@,
                    offset as nat,
                    i as int,
                ),
            decreases self.children@.len() - i,
        {
            match &self.children[i] {
                CstElement::Node(node) => {
                    proof {
                        assert(decreases_to!(self => self.children));
                        assert(decreases_to!(self.children => self.children@));
                        assert(decreases_to!(self.children@ => self.children@[i as int]));
                    }
                    match node.node_at_offset(offset) {
                        Some(found) => {
                            return Some(found);
                        },
                        None => {},
                    }
                },
                CstElement::Token(_) => {},
            }
            i = i + 1;
        }
        Some(self)
    }

    /// The number of leaf tokens in the tree.
    pub fn leaf_count(&self) -> (r: usize)
        requires
            elements_leaves(self.children@) <= usize::MAX,
        ensures
            r == elements_leaves(self.children@),
        decreases self,
    {
        let mut total: usize = 0;
        let mut i: usize = 0;
        while i < self.children.len()
            invariant
                i <= self.children@.len(),
                total == elements_leaves(self.children@.take(i as int)),
                elements_leaves(self.children@) <= usize::MAX,
            decreases self.children@.len() - i,
        {
            proof {
                assert(self.children@.take(i + 1).drop_last() =~= self.children@.take(i as int));
                lemma_leaves_prefix(self.children@, i + 1);
            }
            match &self.children[i] {
                CstElement::Node(node) => {
                    proof {
                        assert(decreases_to!(self => self.children));
                        assert(decreases_to!(self.children => self.children@));
                        assert(decreases_to!(self.children@ => self.children@[i as int]));
                    }
                    assert(self.children@.take(i + 1).last() == self.children@[i as int]);
                    assert(element_leaves(self.children@[i as int]) == elements_leaves(node.children@));
                    let c = node.leaf_count();
                    total = total + c;
                },
                CstElement::Token(_) => {
                    assert(self.children@.take(i + 1).last() == self.children@[i as int]);
                    assert(element_leaves(self.children@[i as int]) == 1);
                    total = total + 1;
                },
            }
            i = i + 1;
        }
        proof {
            assert(self.children@.take(self.children@.len() as int) =~= self.children@);
        }
        total
    }
}

proof fn lemma_leaves_prefix(s: Seq<CstElement>, i: int)
    requires
        0 <= i <= s.len(),
    ensures
        elements_leaves(s.take(i)) <= elements_leaves(s),
    decreases s.len() - i,
{
    if i < s.len() {
        lemma_leaves_prefix(s, i + 1);
        assert(s.take(i + 1).drop_last() =~= s.take(i));
    } else {
        assert(s.take(i) =~= s);
    }
}


/// The end mark of an element's span.
pub open spec fn element_end(e: CstElement) -> Mark {
    match e {
        CstElement::Token(t) => t.span.end,
        CstElement::Node(n) => n.span.end,
    }
}

/// A node as closed by the builder: its span is stretched to the end of its
/// last child, if it has any.
pub open spec fn closed_node(n: CstNode) -> CstNode {
    CstNode {
        kind: n.kind,
        span: Span {
            start: n.span.start,
            end: if n.children@.len() > 0 {
                element_end(n.children@.last())
            } else {
                n.span.end
            },
        },
        children: n.children,
    }
}

/// An element as plain values: a node, or a token's kind, text and span.
pub enum ElementView {
    /// An interior node.
    Node(NodeView),
    /// A leaf token.
    Token(TokenKind, Seq<char>, Span),
}

/// A node as plain values.
pub struct NodeView {
    /// What construct it is.
    pub kind: NodeKind,
    /// Its span.
    pub span: Span,
    /// Its children, in order.
    pub children: Seq<ElementView>,
}

/// The plain view of an element.
pub open spec fn element_view(e: CstElement) -> ElementView
    decreases e,
{
    match e {
        CstElement::Node(n) => {
            proof {
                assert(decreases_to!(e => n));
                assert(decreases_to!(n => n.children));
                assert(decreases_to!(n.children => n.children@));
            }
            ElementView::Node(NodeView { kind: n.kind, span: n.span, children: elements_view(n.children@, 0) })
        },
        CstElement::Token(t) => ElementView::Token(t.kind, t.text@, t.span),
    }
}

/// The plain views of `s[i..]`.
pub open spec fn elements_view(s: Seq<CstElement>, i: int) -> Seq<ElementView>
    decreases s, s.len() - i,
{
    if i < 0 || i >= s.len() {
        seq![]
    } else {
        proof {
            assert(decreases_to!(s => s[i]));
        }
        seq![element_view(s[i])] + elements_view(s, i + 1)
    }
}

/// The plain view of a node.
pub open spec fn node_view(n: CstNode) -> NodeView {
    NodeView { kind: n.kind, span: n.span, children: elements_view(n.children@, 0) }
}

/// The plain views of a stack of nodes.
pub open spec fn stack_view(s: Seq<CstNode>) -> Seq<NodeView> {
    s.map_values(|n: CstNode| node_view(n))
}

/// The end mark of an element view's span.
pub open spec fn view_end(e: ElementView) -> Mark {
    match e {
        ElementView::Token(_, _, span) => span.end,
        ElementView::Node(n) => n.span.end,
    }
}

/// A node view as closed: its span stretched to the end of its last child.
pub open spec fn closed_view(n: NodeView) -> NodeView {
    NodeView {
        kind: n.kind,
        span: Span {
            start: n.span.start,
            end: if n.children.len() > 0 {
                view_end(n.children.last())
            } else {
                n.span.end
            },
        },
        children: n.children,
    }
}

/// A stack with a new empty node on top.
pub open spec fn open_view(st: Seq<NodeView>, kind: NodeKind, span: Span) -> Seq<NodeView> {
    st.push(NodeView { kind, span, children: seq![] })
}

/// A stack with an element added to its top node (unchanged when empty).
pub open spec fn add_view(st: Seq<NodeView>, e: ElementView) -> Seq<NodeView> {
    if st.len() == 0 {
        st
    } else {
        let top = st.last();
        st.update(
            st.len() - 1,
            NodeView { kind: top.kind, span: top.span, children: top.children.push(e) },
        )
    }
}

/// A stack with its top node closed into the node below it (the root
/// stays, closed).
pub open spec fn close_view(st: Seq<NodeView>) -> Seq<NodeView> {
    if st.len() == 0 {
        st
    } else if st.len() == 1 {
        seq![closed_view(st[0])]
    } else {
        add_view(st.drop_last(), ElementView::Node(closed_view(st.last())))
    }
}

/// Nodes closed from the top until one of kind `kind` is closed, keeping
/// the root.
pub open spec fn close_to_view(st: Seq<NodeView>, kind: NodeKind) -> Seq<NodeView>
    decreases st.len(),
{
    if st.len() > 1 && st.last().kind != kind {
        close_to_view(close_view(st), kind)
    } else if st.len() > 0 && st.last().kind == kind {
        close_view(st)
    } else {
        st
    }
}

/// The top node closed when it is of kind `kind`.
pub open spec fn maybe_close_view(st: Seq<NodeView>, kind: NodeKind) -> Seq<NodeView> {
    if st.len() > 0 && st.last().kind == kind {
        close_view(st)
    } else {
        st
    }
}

/// The mark at byte offset `off` as the builder writes it.
pub open spec fn offset_mark(off: nat) -> Mark {
    Mark { line: 0, column: 0, offset: off as usize }
}

/// The builder's state: the open nodes and the bytes read.
pub open spec fn ws_step(src: Seq<char>, st: Seq<NodeView>, last: nat, span: Span) -> (Seq<NodeView>, nat) {
    let a = last;
    let b = span.start.offset as nat;
    if span.start.offset != span.end.offset && b > a && is_boundary(src, a) && is_boundary(src, b) {
        (
            add_view(
                st,
                ElementView::Token(
                    TokenKind::Whitespace,
                    source_slice(src, a, b),
                    Span { start: offset_mark(a), end: offset_mark(b) },
                ),
            ),
            b,
        )
    } else {
        (st, last)
    }
}

/// A token added to the top node.
pub open spec fn token_step(st: Seq<NodeView>, last: nat, kind: TokenKind, text: Seq<char>, span: Span) -> (
    Seq<NodeView>,
    nat,
) {
    (add_view(st, ElementView::Token(kind, text, span)), span_after(last, span))
}

/// A token of the source text of a non-empty span added to the top node.
pub open spec fn source_token_step(src: Seq<char>, st: Seq<NodeView>, last: nat, kind: TokenKind, span: Span) -> (
    Seq<NodeView>,
    nat,
) {
    if span.start.offset == span.end.offset {
        (st, last)
    } else {
        token_step(st, last, kind, span_source(src, span), span)
    }
}

/// Whitespace before `span`, then a token of its source text.
pub open spec fn text_step(src: Seq<char>, st: Seq<NodeView>, last: nat, kind: TokenKind, span: Span) -> (
    Seq<NodeView>,
    nat,
) {
    let (s1, l1) = ws_step(src, st, last, span);
    token_step(s1, l1, kind, span_source(src, span), span)
}

/// Whitespace before `span`, then an opened node and a token of the span's
/// source text in it.
pub open spec fn open_text_step(
    src: Seq<char>,
    st: Seq<NodeView>,
    last: nat,
    node: NodeKind,
    kind: TokenKind,
    span: Span,
) -> (Seq<NodeView>, nat) {
    let (s1, l1) = ws_step(src, st, last, span);
    source_token_step(src, open_view(s1, node, span), l1, kind, span)
}

/// Whitespace before `span`, then a token of its source text, then nodes
/// closed up to one of kind `node`.
pub open spec fn end_step(
    src: Seq<char>,
    st: Seq<NodeView>,
    last: nat,
    entry: NodeKind,
    kind: TokenKind,
    node: NodeKind,
    span: Span,
) -> (Seq<NodeView>, nat) {
    let s0 = maybe_close_view(st, entry);
    let (s1, l1) = ws_step(src, s0, last, span);
    let (s2, l2) = source_token_step(src, s1, l1, kind, span);
    (close_to_view(s2, node), l2)
}

/// What the builder does with one event.
pub open spec fn event_step(src: Seq<char>, st: Seq<NodeView>, last: nat, e: Event) -> (Seq<NodeView>, nat) {
    match e {
        Event::StreamStart => (open_view(st, NodeKind::Stream, span_zero()), last),
        Event::StreamEnd => (close_to_view(st, NodeKind::Stream), last),
        Event::VersionDirective { span, .. } => text_step(src, st, last, TokenKind::VersionDirective, span),
        Event::TagDirective { span, .. } => text_step(src, st, last, TokenKind::TagDirective, span),
        Event::DocumentStart { implicit, span } => {
            let s0 = open_view(st, NodeKind::Document, span);
            if implicit {
                (s0, last)
            } else {
                let (s1, l1) = ws_step(src, s0, last, span);
                source_token_step(src, s1, l1, TokenKind::DocumentStart, span)
            }
        },
        Event::DocumentEnd { implicit, span } => {
            let s0 = maybe_close_view(maybe_close_view(st, NodeKind::MappingEntry), NodeKind::SequenceEntry);
            if implicit {
                (close_to_view(s0, NodeKind::Document), last)
            } else {
                let (s1, l1) = ws_step(src, s0, last, span);
                let (s2, l2) = source_token_step(src, s1, l1, TokenKind::DocumentEnd, span);
                (close_to_view(s2, NodeKind::Document), l2)
            }
        },
        Event::SequenceStart { span, .. } => open_text_step(
            src,
            st,
            last,
            NodeKind::Sequence,
            TokenKind::FlowSeqStart,
            span,
        ),
        Event::SequenceEnd { span } => end_step(
            src,
            st,
            last,
            NodeKind::SequenceEntry,
            TokenKind::FlowSeqEnd,
            NodeKind::Sequence,
            span,
        ),
        Event::MappingStart { span, .. } => open_text_step(
            src,
            st,
            last,
            NodeKind::Mapping,
            TokenKind::FlowMapStart,
            span,
        ),
        Event::MappingEnd { span } => end_step(
            src,
            st,
            last,
            NodeKind::MappingEntry,
            TokenKind::FlowMapEnd,
            NodeKind::Mapping,
            span,
        ),
        Event::BlockEntry { span } => open_text_step(
            src,
            maybe_close_view(st, NodeKind::SequenceEntry),
            last,
            NodeKind::SequenceEntry,
            TokenKind::BlockEntry,
            span,
        ),
        Event::KeyIndicator { span } => open_text_step(
            src,
            maybe_close_view(st, NodeKind::MappingEntry),
            last,
            NodeKind::MappingEntry,
            TokenKind::Key,
            span,
        ),
        Event::ValueIndicator { span } => {
            let (s1, l1) = ws_step(src, st, last, span);
            source_token_step(src, s1, l1, TokenKind::Value, span)
        },
        Event::Scalar { value, style, span, .. } => if value@.len() == 0 && style == ScalarStyle::Plain {
            (st, last)
        } else {
            text_step(src, st, last, TokenKind::Scalar, span)
        },
        Event::Alias { span, .. } => text_step(src, st, last, TokenKind::Alias, span),
        Event::Comment { text, span } => if (span.start.offset as nat) < last {
            (st, last)
        } else {
            let (s1, l1) = ws_step(src, st, last, span);
            token_step(s1, l1, TokenKind::Comment, text@, span)
        },
    }
}

/// What the builder does on a parse error: the unread rest of the source,
/// when there is any, goes into the top node as an error node holding one
/// whitespace token, and counts as read.
pub open spec fn error_step(src: Seq<char>, st: Seq<NodeView>, last: nat) -> (Seq<NodeView>, nat) {
    let len = utf8_len(src);
    if last < len && is_boundary(src, last) {
        let span = Span { start: offset_mark(last), end: offset_mark(len) };
        (
            add_view(
                st,
                ElementView::Node(
                    NodeView {
                        kind: NodeKind::Error,
                        span,
                        children: seq![
                            ElementView::Token(TokenKind::Whitespace, source_slice(src, last, len), span),
                        ],
                    },
                ),
            ),
            len,
        )
    } else {
        (st, last)
    }
}

/// The builder's state after taking the results in order, up to and
/// including the first error.
pub open spec fn run_view(src: Seq<char>, st: Seq<NodeView>, last: nat, rs: Seq<Result<Event, ParseError>>) -> (
    Seq<NodeView>,
    nat,
)
    decreases rs.len(),
{
    if rs.len() == 0 {
        (st, last)
    } else {
        match rs[0] {
            Ok(e) => {
                let (s1, l1) = event_step(src, st, last, e);
                run_view(src, s1, l1, rs.drop_first())
            },
            Err(_) => error_step(src, st, last),
        }
    }
}

/// The source after the last byte read, added to the top node as
/// whitespace.
pub open spec fn tail_view(src: Seq<char>, st: Seq<NodeView>, last: nat) -> Seq<NodeView> {
    let len = utf8_len(src);
    if last < len && is_boundary(src, last) {
        add_view(
            st,
            ElementView::Token(
                TokenKind::Whitespace,
                source_slice(src, last, len),
                Span { start: offset_mark(last), end: offset_mark(len) },
            ),
        )
    } else {
        st
    }
}

/// Every node above the root closed, one into the other.
pub open spec fn close_all_view(st: Seq<NodeView>) -> Seq<NodeView>
    decreases st.len(),
{
    if st.len() > 1 {
        close_all_view(close_view(st))
    } else {
        st
    }
}

/// The tree that [`CstBuilder::build`] returns for source `src` and the
/// parser results `rs`: the results taken in order, the rest of the source
/// added as whitespace, the open nodes closed, and the root; an empty
/// stream node when no node was ever opened.
pub open spec fn built_view(src: Seq<char>, rs: Seq<Result<Event, ParseError>>) -> NodeView {
    let (s, l) = run_view(src, seq![], 0, rs);
    let c = close_all_view(tail_view(src, s, l));
    if c.len() > 0 {
        c[0]
    } else {
        NodeView { kind: NodeKind::Stream, span: span_zero(), children: seq![] }
    }
}

proof fn lemma_elements_view_index(s: Seq<CstElement>, i: int)
    requires
        0 <= i <= s.len(),
    ensures
        elements_view(s, i).len() == s.len() - i,
        forall|k: int| 0 <= k < s.len() - i ==> #[trigger] elements_view(s, i)[k] == element_view(s[i + k]),
    decreases s.len() - i,
{
    if i < s.len() {
        lemma_elements_view_index(s, i + 1);
        assert forall|k: int| 0 <= k < s.len() - i implies #[trigger] elements_view(s, i)[k] == element_view(s[i + k]) by {
            if k > 0 {
                assert(elements_view(s, i)[k] == elements_view(s, i + 1)[k - 1]);
            }
        }
    }
}

proof fn lemma_elements_view_push(s: Seq<CstElement>, e: CstElement)
    ensures
        elements_view(s.push(e), 0) == elements_view(s, 0).push(element_view(e)),
{
    lemma_elements_view_index(s, 0);
    lemma_elements_view_index(s.push(e), 0);
    assert(elements_view(s.push(e), 0) =~= elements_view(s, 0).push(element_view(e)));
}

/// Closing a node and viewing it is viewing it and closing the view.
proof fn lemma_closed_view(n: CstNode)
    ensures
        node_view(closed_node(n)) == closed_view(node_view(n)),
        element_view(CstElement::Node(closed_node(n))) == ElementView::Node(closed_view(node_view(n))),
{
    let c = n.children@;
    lemma_elements_view_index(c, 0);
    if c.len() > 0 {
        assert(elements_view(c, 0).last() == element_view(c[c.len() - 1]));
    }
}

/// The view of a stack whose top node got one more child.
proof fn lemma_add_top(s: Seq<CstNode>, t: CstNode, e: CstElement)
    requires
        s.len() > 0,
        t.kind == s.last().kind,
        t.span == s.last().span,
        t.children@ == s.last().children@.push(e),
    ensures
        stack_view(s.drop_last().push(t)) == add_view(stack_view(s), element_view(e)),
{
    lemma_elements_view_push(s.last().children@, e);
    assert(stack_view(s.drop_last().push(t)) =~= add_view(stack_view(s), element_view(e)));
}

proof fn lemma_stack_view_push(s: Seq<CstNode>, n: CstNode)
    ensures
        stack_view(s.push(n)) == stack_view(s).push(node_view(n)),
        s.len() > 0 ==> stack_view(s.drop_last()) == stack_view(s).drop_last(),
{
    assert(stack_view(s.push(n)) =~= stack_view(s).push(node_view(n)));
    if s.len() > 0 {
        assert(stack_view(s.drop_last()) =~= stack_view(s).drop_last());
    }
}

/// The text that the open nodes of a builder's stack hold, bottom first:
/// closing them all one into the other yields a node with this text.
pub open spec fn stack_text(s: Seq<CstNode>) -> Seq<char>
    decreases s.len(),
{
    if s.len() == 0 {
        seq![]
    } else {
        stack_text(s.drop_last()) + node_text(s.last())
    }
}

/// The characters between byte offsets `a` and `b`; empty unless
/// `a <= b` and both fall on character boundaries.
pub open spec fn source_slice(src: Seq<char>, a: nat, b: nat) -> Seq<char> {
    if a <= b && is_boundary(src, a) && is_boundary(src, b) {
        src.subrange(boundary_index(src, a), boundary_index(src, b))
    } else {
        seq![]
    }
}

/// The source text of a span as the builder takes it: the characters from
/// its start to its end (cut at the end of the source), or nothing.
pub open spec fn span_source(src: Seq<char>, span: Span) -> Seq<char> {
    let end = if span.end.offset <= utf8_len(src) {
        span.end.offset as nat
    } else {
        utf8_len(src)
    };
    if (span.start.offset as nat) < end {
        source_slice(src, span.start.offset as nat, end)
    } else {
        seq![]
    }
}

/// Whether a token over `span` keeps the tree's text equal to the source
/// read so far, when `last` bytes have been read: the span is empty, or it
/// starts at or after `last`, ends within the source, and both its ends
/// fall on character boundaries.
pub open spec fn span_fits(src: Seq<char>, last: nat, span: Span) -> bool {
    ||| span.start.offset == span.end.offset
    ||| {
        &&& last <= span.start.offset
        &&& span.start.offset < span.end.offset
        &&& span.end.offset <= utf8_len(src)
        &&& is_boundary(src, span.start.offset as nat)
        &&& is_boundary(src, span.end.offset as nat)
    }
}

/// The bytes read after a token over `span`.
pub open spec fn span_after(last: nat, span: Span) -> nat {
    if span.start.offset != span.end.offset && span.end.offset > last {
        span.end.offset as nat
    } else {
        last
    }
}

/// The span of the source text an event puts in the tree, if any.
pub open spec fn event_text_span(e: Event) -> Option<Span> {
    match e {
        Event::StreamStart => None,
        Event::StreamEnd => None,
        Event::VersionDirective { span, .. } => Some(span),
        Event::TagDirective { span, .. } => Some(span),
        Event::DocumentStart { implicit, span } => if implicit {
            None
        } else {
            Some(span)
        },
        Event::DocumentEnd { implicit, span } => if implicit {
            None
        } else {
            Some(span)
        },
        Event::SequenceStart { span, .. } => Some(span),
        Event::SequenceEnd { span } => Some(span),
        Event::MappingStart { span, .. } => Some(span),
        Event::MappingEnd { span } => Some(span),
        Event::Scalar { value, style, span, .. } => if value@.len() == 0 && style
            == ScalarStyle::Plain {
            None
        } else {
            Some(span)
        },
        Event::Alias { span, .. } => Some(span),
        Event::Comment { span, .. } => Some(span),
        Event::BlockEntry { span } => Some(span),
        Event::KeyIndicator { span } => Some(span),
        Event::ValueIndicator { span } => Some(span),
    }
}

/// Whether the builder, having read `last` bytes, keeps the tree's text
/// equal to the source read so far when it takes event `e`. A comment that
/// starts before `last` is skipped; one that is kept must carry its source
/// text.
pub open spec fn event_fits(src: Seq<char>, last: nat, e: Event) -> bool {
    match e {
        Event::Comment { text, span } => span.start.offset < last || (span_fits(src, last, span)
            && text@ == source_slice(src, span.start.offset as nat, span.end.offset as nat)),
        _ => match event_text_span(e) {
            Some(span) => span_fits(src, last, span),
            None => true,
        },
    }
}

/// The bytes read after event `e`, `last` having been read before.
pub open spec fn offset_after(last: nat, e: Event) -> nat {
    match e {
        Event::Comment { span, .. } => if span.start.offset < last {
            last
        } else {
            span_after(last, span)
        },
        _ => match event_text_span(e) {
            Some(span) => span_after(last, span),
            None => last,
        },
    }
}

/// Whether every event up to the first error fits, in turn.
pub open spec fn results_fit(src: Seq<char>, last: nat, rs: Seq<Result<Event, ParseError>>) -> bool
    decreases rs.len(),
{
    if rs.len() == 0 {
        true
    } else {
        match rs[0] {
            Ok(e) => event_fits(src, last, e) && results_fit(
                src,
                offset_after(last, e),
                rs.drop_first(),
            ),
            Err(_) => true,
        }
    }
}

proof fn lemma_ends(src: Seq<char>)
    ensures
        is_boundary(src, 0),
        boundary_index(src, 0) == 0,
        is_boundary(src, utf8_len(src)),
        boundary_index(src, utf8_len(src)) == src.len(),
{
    assert(src.take(0) =~= Seq::<char>::empty());
    lemma_boundary_index(src, 0);
    assert(src.take(src.len() as int) =~= src);
    lemma_boundary_index(src, src.len() as int);
}

/// Slices between boundaries `a <= b <= c` join up.
proof fn lemma_slice_join(src: Seq<char>, a: nat, b: nat, c: nat)
    requires
        a <= b <= c,
        is_boundary(src, a),
        is_boundary(src, b),
        is_boundary(src, c),
    ensures
        source_slice(src, a, c) == source_slice(src, a, b) + source_slice(src, b, c),
        boundary_index(src, a) <= boundary_index(src, b) <= boundary_index(src, c),
{
    let ia = boundary_index(src, a);
    let ib = boundary_index(src, b);
    let ic = boundary_index(src, c);
    if ib < ia {
        lemma_utf8_len_take_mono(src, ib, ia);
        lemma_boundary_unique(src, ib, ia);
    }
    if ic < ib {
        lemma_utf8_len_take_mono(src, ic, ib);
        lemma_boundary_unique(src, ic, ib);
    }
    assert(src.subrange(ia, ic) =~= src.subrange(ia, ib) + src.subrange(ib, ic));
}

proof fn lemma_elements_push(s: Seq<CstElement>, e: CstElement)
    ensures
        elements_text(s.push(e)) == elements_text(s) + element_text(e),
{
    assert(s.push(e).drop_last() =~= s);
}

proof fn lemma_stack_text_push(s: Seq<CstNode>, n: CstNode)
    ensures
        stack_text(s.push(n)) == stack_text(s) + node_text(n),
{
    assert(s.push(n).drop_last() =~= s);
}

/// A token over a fitting span, placed after `last` bytes (its start once
/// the whitespace before it is in), continues the source.
proof fn lemma_token_after(src: Seq<char>, last: nat, span: Span)
    ensures
        is_boundary(src, last) && span_fits(src, last, span) ==> {
            let at = if span.start.offset == span.end.offset {
                last
            } else {
                span.start.offset as nat
            };
            &&& is_boundary(src, at)
            &&& is_boundary(src, span_after(at, span))
            &&& span_after(at, span) == span_after(last, span)
            &&& source_slice(src, 0, at) + span_source(src, span) == source_slice(
                src,
                0,
                span_after(at, span),
            )
            &&& (span.start.offset != span.end.offset ==> span_source(src, span) == source_slice(
                src,
                span.start.offset as nat,
                span.end.offset as nat,
            ))
        },
{
    if is_boundary(src, last) && span_fits(src, last, span) {
        lemma_ends(src);
        if span.start.offset == span.end.offset {
            assert(source_slice(src, 0, last) + span_source(src, span) =~= source_slice(src, 0, last));
        } else {
            lemma_slice_join(src, 0, span.start.offset as nat, span.end.offset as nat);
        }
    }
}

/// Builds a [`CstNode`] tree from a parser event stream. It keeps the
/// source so that it can put the text between event spans into the tree as
/// whitespace tokens.
pub struct CstBuilder {
    source: Reader,
    len: usize,
    stack: Vec<CstNode>,
    last_offset: usize,
}

impl CstBuilder {
    /// The source characters.
    pub closed spec fn src(&self) -> Seq<char> {
        self.source.input()
    }

    /// The open nodes, outermost first.
    pub closed spec fn nodes(&self) -> Seq<CstNode> {
        self.stack@
    }

    /// The number of source bytes already in the tree.
    pub closed spec fn last(&self) -> nat {
        self.last_offset as nat
    }

    /// Internal consistency.
    pub closed spec fn wf(&self) -> bool {
        &&& self.source.wf()
        &&& self.len == utf8_len(self.source.input())
    }

    /// The tree's text is exactly the source up to `last()`, which falls on
    /// a character boundary.
    pub open spec fn text_ok(&self) -> bool {
        &&& self.nodes().len() > 0
        &&& is_boundary(self.src(), self.last())
        &&& stack_text(self.nodes()) == source_slice(self.src(), 0, self.last())
    }

    /// A builder for the given source text.
    pub fn new(source: &str) -> (r: Self)
        requires
            source@.len() <= max_input_chars(),
        ensures
            r.wf(),
            r.src() == source@,
            r.nodes().len() == 0,
            r.last() == 0,
    {
        let len = str_byte_len(source);
        CstBuilder { source: Reader::new(source), len, stack: Vec::new(), last_offset: 0 }
    }

    /// The source between two byte offsets, if both fall on character
    /// boundaries in that order.
    fn slice_source(&self, a: usize, b: usize) -> (r: Option<String>)
        requires
            self.wf(),
        ensures
            r is Some <==> (a <= b && is_boundary(self.src(), a as nat) && is_boundary(
                self.src(),
                b as nat,
            )),
            r matches Some(s) ==> s@ == source_slice(self.src(), a as nat, b as nat),
    {
        let r = self.source.slice(a, b);
        proof {
            let src = self.src();
            match &r {
                Some(s) => {
                    let (i, j) = choose|i: int, j: int|
                        0 <= i <= j <= src.len() && utf8_len(src.take(i)) == a && utf8_len(
                            src.take(j),
                        ) == b && s@ == src.subrange(i, j);
                    lemma_boundary_index(src, i);
                    lemma_boundary_index(src, j);
                    lemma_utf8_len_take_mono(src, i, j);
                },
                None => {
                    if a <= b && is_boundary(src, a as nat) && is_boundary(src, b as nat) {
                        let i = boundary_index(src, a as nat);
                        let j = boundary_index(src, b as nat);
                        if j < i {
                            lemma_utf8_len_take_mono(src, j, i);
                            lemma_boundary_unique(src, i, j);
                        }
                        assert(0 <= i <= j <= src.len() && utf8_len(src.take(i)) == a && utf8_len(
                            src.take(j),
                        ) == b);
                    }
                },
            }
        }
        r
    }

    /// Opens a new node on top of the stack.
    fn open_node(&mut self, kind: NodeKind, span: Span)
        ensures
            final(self).src() == old(self).src(),
            final(self).wf() == old(self).wf(),
            final(self).last() == old(self).last(),
            final(self).nodes().len() == old(self).nodes().len() + 1,
            final(self).nodes().drop_last() == old(self).nodes(),
            final(self).nodes().last().kind == kind,
            final(self).nodes().last().span == span,
            final(self).nodes().last().children@.len() == 0,
            stack_text(final(self).nodes()) == stack_text(old(self).nodes()),
            stack_view(final(self).nodes()) == open_view(stack_view(old(self).nodes()), kind, span),
    {
        self.stack.push(CstNode { kind, span, children: Vec::new() });
        proof {
            lemma_stack_view_push(old(self).nodes(), self.nodes().last());
            assert(self.nodes() =~= old(self).nodes().push(self.nodes().last()));
            assert(elements_view(self.nodes().last().children@, 0) =~= Seq::<ElementView>::empty());
            lemma_stack_text_push(old(self).nodes(), self.nodes().last());
            assert(elements_text(self.nodes().last().children@) =~= Seq::<char>::empty());
            assert(self.nodes().drop_last() =~= old(self).nodes());
        }
    }

    /// Closes the top node: it becomes the last child of the node below,
    /// with its span stretched to its last child. The root stays on the
    /// stack.
    fn close_node(&mut self)
        ensures
            final(self).src() == old(self).src(),
            final(self).wf() == old(self).wf(),
            final(self).last() == old(self).last(),
            old(self).nodes().len() == 0 ==> final(self).nodes() == old(self).nodes(),
            old(self).nodes().len() == 1 ==> final(self).nodes() == seq![
                closed_node(old(self).nodes()[0]),
            ],
            old(self).nodes().len() > 1 ==> {
                let n = old(self).nodes().len();
                let parent = old(self).nodes()[n - 2];
                let top = final(self).nodes().last();
                &&& final(self).nodes().len() == n - 1
                &&& final(self).nodes().drop_last() == old(self).nodes().take(n - 2)
                &&& top.kind == parent.kind
                &&& top.span == parent.span
                &&& top.children@ == parent.children@.push(
                    CstElement::Node(closed_node(old(self).nodes().last())),
                )
            },
            stack_text(final(self).nodes()) == stack_text(old(self).nodes()),
            stack_view(final(self).nodes()) == close_view(stack_view(old(self).nodes())),
    {
        proof {
            lemma_closed_view(old(self).nodes().last());
        }
        match self.stack.pop() {
            Some(node) => {
                let mut node = node;
                let n = node.children.len();
                if n > 0 {
                    let end = match &node.children[n - 1] {
                        CstElement::Token(t) => t.span.end,
                        CstElement::Node(m) => m.span.end,
                    };
                    node.span.end = end;
                }
                let ghost closed = node;
                assert(closed == closed_node(old(self).nodes().last()));
                match self.stack.pop() {
                    Some(parent) => {
                        let mut parent = parent;
                        let ghost p0 = parent;
                        parent.children.push(CstElement::Node(node));
                        self.stack.push(parent);
                        proof {
                            let s = old(self).nodes();
                            let k = s.len();
                            assert(s.drop_last().drop_last() =~= s.take(k - 2));
                            assert(self.nodes().drop_last() =~= s.take(k - 2));
                            lemma_elements_push(p0.children@, CstElement::Node(closed));
                            lemma_stack_text_push(s.take(k - 2), parent);
                            lemma_stack_text_push(s.take(k - 2), p0);
                            assert(s.take(k - 2).push(p0) =~= s.drop_last());
                            assert(s.drop_last().push(s.last()) =~= s);
                            assert(self.nodes() =~= s.take(k - 2).push(parent));
                            assert(s.drop_last().drop_last() =~= s.take(k - 2));
                            lemma_add_top(s.drop_last(), parent, CstElement::Node(closed));
                            lemma_stack_view_push(s, closed);
                            lemma_stack_view_push(s.drop_last(), closed);
                        }
                    },
                    None => {
                        self.stack.push(node);
                        proof {
                            let s = old(self).nodes();
                            assert(s.drop_last() =~= Seq::<CstNode>::empty());
                            assert(self.nodes() =~= seq![closed]);
                            assert(seq![closed].drop_last() =~= Seq::<CstNode>::empty());
                            assert(stack_view(self.nodes()) =~= seq![node_view(closed)]);
                        }
                    },
                }
            },
            None => {},
        }
    }

    /// Closes nodes from the top until one of kind `kind` has been closed,
    /// keeping the root.
    fn close_to(&mut self, kind: NodeKind)
        ensures
            final(self).src() == old(self).src(),
            final(self).wf() == old(self).wf(),
            final(self).last() == old(self).last(),
            final(self).nodes().len() <= old(self).nodes().len(),
            old(self).nodes().len() > 0 ==> final(self).nodes().len() > 0 && final(self).nodes()[0].kind
                == old(self).nodes()[0].kind,
            stack_text(final(self).nodes()) == stack_text(old(self).nodes()),
            stack_view(final(self).nodes()) == close_to_view(stack_view(old(self).nodes()), kind),
    {
        let mut going = true;
        while going && self.stack.len() > 1
            invariant
                self.src() == old(self).src(),
                self.wf() == old(self).wf(),
                self.last() == old(self).last(),
                self.nodes().len() <= old(self).nodes().len(),
                old(self).nodes().len() > 0 ==> self.nodes().len() > 0 && self.nodes()[0].kind
                    == old(self).nodes()[0].kind,
                stack_text(self.nodes()) == stack_text(old(self).nodes()),
                close_to_view(stack_view(self.nodes()), kind) == close_to_view(stack_view(old(self).nodes()), kind),
                !going ==> self.nodes().len() > 1 && self.nodes().last().kind == kind,
            decreases self.nodes().len() + (if going {
                1int
            } else {
                0int
            }),
        {
            let top = self.stack.len() - 1;
            if self.stack[top].kind == kind {
                going = false;
            } else {
                let ghost before = self.nodes();
                self.close_node();
                proof {
                    if before.len() > 2 {
                        assert(self.nodes()[0] == before.take(before.len() - 2)[0]);
                    }
                }
            }
        }
        let n = self.stack.len();
        if n > 0 && self.stack[n - 1].kind == kind {
            let ghost before = self.nodes();
            self.close_node();
            proof {
                if before.len() > 2 {
                    assert(self.nodes()[0] == before.take(before.len() - 2)[0]);
                }
            }
        }
    }

    /// Closes the top node if it is of kind `kind`.
    fn maybe_close(&mut self, kind: NodeKind)
        ensures
            final(self).src() == old(self).src(),
            final(self).wf() == old(self).wf(),
            final(self).last() == old(self).last(),
            final(self).nodes().len() <= old(self).nodes().len(),
            old(self).nodes().len() > 0 ==> final(self).nodes().len() > 0 && final(self).nodes()[0].kind
                == old(self).nodes()[0].kind,
            stack_text(final(self).nodes()) == stack_text(old(self).nodes()),
            !(old(self).nodes().len() > 0 && old(self).nodes().last().kind == kind) ==> final(self).nodes()
                == old(self).nodes(),
            stack_view(final(self).nodes()) == maybe_close_view(stack_view(old(self).nodes()), kind),
    {
        let n = self.stack.len();
        if n > 0 && self.stack[n - 1].kind == kind {
            let ghost before = self.nodes();
            self.close_node();
            proof {
                if before.len() > 2 {
                    assert(self.nodes()[0] == before.take(before.len() - 2)[0]);
                }
            }
        }
    }

    /// Adds a leaf token to the top node; the bytes read advance to the end
    /// of a non-empty span.
    fn push_token(&mut self, kind: TokenKind, text: String, span: Span)
        ensures
            final(self).src() == old(self).src(),
            final(self).wf() == old(self).wf(),
            final(self).last() == span_after(old(self).last(), span),
            final(self).nodes().len() == old(self).nodes().len(),
            old(self).nodes().len() == 0 ==> final(self).nodes() == old(self).nodes(),
            old(self).nodes().len() > 0 ==> {
                let top = final(self).nodes().last();
                let top0 = old(self).nodes().last();
                &&& final(self).nodes().drop_last() == old(self).nodes().drop_last()
                &&& top.kind == top0.kind
                &&& top.span == top0.span
                &&& top.children@ == top0.children@.push(
                    CstElement::Token(CstToken { kind, text, span }),
                )
                &&& final(self).nodes()[0].kind == old(self).nodes()[0].kind
                &&& stack_text(final(self).nodes()) == stack_text(old(self).nodes()) + text@
            },
            stack_view(final(self).nodes()) == add_view(
                stack_view(old(self).nodes()),
                ElementView::Token(kind, text@, span),
            ),
    {
        if span.start.offset != span.end.offset && span.end.offset > self.last_offset {
            self.last_offset = span.end.offset;
        }
        let ghost t = text;
        let token = CstToken { kind, text, span };
        match self.stack.pop() {
            Some(parent) => {
                let mut parent = parent;
                let ghost p0 = parent;
                parent.children.push(CstElement::Token(token));
                self.stack.push(parent);
                proof {
                    let s = old(self).nodes();
                    lemma_elements_push(p0.children@, CstElement::Token(token));
                    lemma_stack_text_push(s.drop_last(), parent);
                    assert(s.drop_last().push(s.last()) =~= s);
                    assert(self.nodes() =~= s.drop_last().push(parent));
                    assert(self.nodes().drop_last() =~= s.drop_last());
                    lemma_add_top(s, parent, CstElement::Token(token));
                    if s.len() > 1 {
                        assert(self.nodes()[0] == s[0]);
                    }
                }
            },
            None => {},
        }
    }

    /// The source text of `span`, from its start to its end cut at the end
    /// of the source; empty when the span is empty or its ends do not fall
    /// on character boundaries.
    fn source_text(&self, span: Span) -> (r: String)
        requires
            self.wf(),
        ensures
            r@ == span_source(self.src(), span),
    {
        let start = span.start.offset;
        let end = if span.end.offset <= self.len {
            span.end.offset
        } else {
            self.len
        };
        if start < end {
            match self.slice_source(start, end) {
                Some(s) => s,
                None => String::new(),
            }
        } else {
            String::new()
        }
    }

    /// Adds a token of the source text of `span`, unless the span is empty.
    fn push_source_token(&mut self, kind: TokenKind, span: Span)
        requires
            old(self).wf(),
        ensures
            final(self).src() == old(self).src(),
            final(self).wf(),
            final(self).nodes().len() == old(self).nodes().len(),
            old(self).nodes().len() > 0 ==> final(self).nodes()[0].kind == old(self).nodes()[0].kind,
            span.start.offset == span.end.offset ==> *final(self) == *old(self),
            span.start.offset != span.end.offset ==> final(self).last() == span_after(
                old(self).last(),
                span,
            ) && (old(self).nodes().len() > 0 ==> stack_text(final(self).nodes()) == stack_text(
                old(self).nodes(),
            ) + span_source(old(self).src(), span)),
            (stack_view(final(self).nodes()), final(self).last()) == source_token_step(
                old(self).src(),
                stack_view(old(self).nodes()),
                old(self).last(),
                kind,
                span,
            ),
    {
        if span.start.offset == span.end.offset {
            return;
        }
        let text = self.source_text(span);
        self.push_token(kind, text, span);
    }

    /// Adds a whitespace token for the source between the bytes read and the
    /// start of a non-empty span, and counts those bytes as read.
    fn insert_whitespace_before(&mut self, span: Span)
        requires
            old(self).wf(),
        ensures
            final(self).src() == old(self).src(),
            final(self).wf(),
            final(self).nodes().len() == old(self).nodes().len(),
            old(self).nodes().len() > 0 ==> final(self).nodes()[0].kind == old(self).nodes()[0].kind,
            span.start.offset == span.end.offset ==> *final(self) == *old(self),
            old(self).text_ok() && span_fits(old(self).src(), old(self).last(), span) ==> final(self).text_ok() && (span.start.offset != span.end.offset ==> final(self).last()
                == span.start.offset),
            (stack_view(final(self).nodes()), final(self).last()) == ws_step(
                old(self).src(),
                stack_view(old(self).nodes()),
                old(self).last(),
                span,
            ),
    {
        if span.start.offset == span.end.offset {
            return;
        }
        if span.start.offset > self.last_offset {
            let ws_start = self.last_offset;
            let ws_end = span.start.offset;
            match self.slice_source(ws_start, ws_end) {
                Some(ws_text) => {
                    let ws_span = Span {
                        start: Mark { line: 0, column: 0, offset: ws_start },
                        end: Mark { line: 0, column: 0, offset: ws_end },
                    };
                    let ghost t = ws_text@;
                    self.push_token(TokenKind::Whitespace, ws_text, ws_span);
                    proof {
                        if old(self).text_ok() {
                            lemma_ends(self.src());
                            lemma_slice_join(self.src(), 0, ws_start as nat, ws_end as nat);
                        }
                    }
                },
                None => {},
            }
        }
    }

    /// Puts one event into the tree.
    fn process_event(&mut self, event: Event)
        requires
            old(self).wf(),
        ensures
            final(self).src() == old(self).src(),
            final(self).wf(),
            old(self).nodes().len() > 0 ==> final(self).nodes().len() > 0 && final(self).nodes()[0].kind
                == old(self).nodes()[0].kind,
            old(self).nodes().len() == 0 && event is StreamStart ==> final(self).nodes().len() == 1
                && final(self).nodes()[0].kind == NodeKind::Stream && final(self).last() == old(self).last(),
            old(self).nodes().len() == 0 && old(self).last() == 0 && event is StreamStart ==> final(self).text_ok(),
            old(self).text_ok() && event_fits(old(self).src(), old(self).last(), event) ==> final(self).text_ok() && final(self).last() == offset_after(old(self).last(), event),
            (stack_view(final(self).nodes()), final(self).last()) == event_step(
                old(self).src(),
                stack_view(old(self).nodes()),
                old(self).last(),
                event,
            ),
    {
        let ghost e = event;
        match event {
            Event::StreamStart => {
                self.open_node(NodeKind::Stream, Span::default());
                proof {
                    let src = self.src();
                    lemma_ends(src);
                    if old(self).nodes().len() == 0 {
                        assert(old(self).nodes() =~= Seq::<CstNode>::empty());
                        assert(source_slice(src, 0, 0) =~= Seq::<char>::empty());
                    }
                }
            },
            Event::StreamEnd => {
                self.close_to(NodeKind::Stream);
            },
            Event::VersionDirective { span, .. } => {
                self.insert_whitespace_before(span);
                let text = self.source_text(span);
                self.push_token(TokenKind::VersionDirective, text, span);
                proof {
                    lemma_token_after(old(self).src(), old(self).last(), span);
                }
            },
            Event::TagDirective { span, .. } => {
                self.insert_whitespace_before(span);
                let text = self.source_text(span);
                self.push_token(TokenKind::TagDirective, text, span);
                proof {
                    lemma_token_after(old(self).src(), old(self).last(), span);
                }
            },
            Event::DocumentStart { implicit, span } => {
                self.open_node(NodeKind::Document, span);
                if !implicit {
                    self.insert_whitespace_before(span);
                    self.push_source_token(TokenKind::DocumentStart, span);
                    proof {
                    lemma_token_after(old(self).src(), old(self).last(), span);
                }
                }
            },
            Event::DocumentEnd { implicit, span } => {
                self.maybe_close(NodeKind::MappingEntry);
                self.maybe_close(NodeKind::SequenceEntry);
                if !implicit {
                    self.insert_whitespace_before(span);
                    self.push_source_token(TokenKind::DocumentEnd, span);
                    proof {
                    lemma_token_after(old(self).src(), old(self).last(), span);
                }
                }
                self.close_to(NodeKind::Document);
            },
            Event::SequenceStart { span, .. } => {
                self.insert_whitespace_before(span);
                self.open_node(NodeKind::Sequence, span);
                self.push_source_token(TokenKind::FlowSeqStart, span);
                proof {
                    lemma_token_after(old(self).src(), old(self).last(), span);
                }
            },
            Event::SequenceEnd { span } => {
                self.maybe_close(NodeKind::SequenceEntry);
                self.insert_whitespace_before(span);
                self.push_source_token(TokenKind::FlowSeqEnd, span);
                proof {
                    lemma_token_after(old(self).src(), old(self).last(), span);
                }
                self.close_to(NodeKind::Sequence);
            },
            Event::MappingStart { span, .. } => {
                self.insert_whitespace_before(span);
                self.open_node(NodeKind::Mapping, span);
                self.push_source_token(TokenKind::FlowMapStart, span);
                proof {
                    lemma_token_after(old(self).src(), old(self).last(), span);
                }
            },
            Event::MappingEnd { span } => {
                self.maybe_close(NodeKind::MappingEntry);
                self.insert_whitespace_before(span);
                self.push_source_token(TokenKind::FlowMapEnd, span);
                proof {
                    lemma_token_after(old(self).src(), old(self).last(), span);
                }
                self.close_to(NodeKind::Mapping);
            },
            Event::BlockEntry { span } => {
                self.maybe_close(NodeKind::SequenceEntry);
                self.insert_whitespace_before(span);
                self.open_node(NodeKind::SequenceEntry, span);
                self.push_source_token(TokenKind::BlockEntry, span);
                proof {
                    lemma_token_after(old(self).src(), old(self).last(), span);
                }
            },
            Event::KeyIndicator { span } => {
                self.maybe_close(NodeKind::MappingEntry);
                self.insert_whitespace_before(span);
                self.open_node(NodeKind::MappingEntry, span);
                self.push_source_token(TokenKind::Key, span);
                proof {
                    lemma_token_after(old(self).src(), old(self).last(), span);
                }
            },
            Event::ValueIndicator { span } => {
                self.insert_whitespace_before(span);
                self.push_source_token(TokenKind::Value, span);
                proof {
                    lemma_token_after(old(self).src(), old(self).last(), span);
                }
            },
            Event::Scalar { span, value, style, .. } => {
                if string_is_empty(&value) && style == ScalarStyle::Plain {
                    return;
                }
                self.insert_whitespace_before(span);
                let text = self.source_text(span);
                self.push_token(TokenKind::Scalar, text, span);
                proof {
                    lemma_token_after(old(self).src(), old(self).last(), span);
                }
            },
            Event::Alias { span, .. } => {
                self.insert_whitespace_before(span);
                let text = self.source_text(span);
                self.push_token(TokenKind::Alias, text, span);
                proof {
                    lemma_token_after(old(self).src(), old(self).last(), span);
                }
            },
            Event::Comment { text, span } => {
                if span.start.offset < self.last_offset {
                    return;
                }
                self.insert_whitespace_before(span);
                let ghost t = text@;
                self.push_token(TokenKind::Comment, text, span);
                proof {
                    lemma_token_after(old(self).src(), old(self).last(), span);
                    if span.start.offset == span.end.offset && event_fits(old(self).src(), old(self).last(), e) {
                        let src = old(self).src();
                        assert(t =~= span_source(src, span));
                    }
                }
            },
        }
    }

    /// On a parse error, puts the unread rest of the source into the tree as
    /// an error node.
    fn handle_error(&mut self, error: ParseError)
        requires
            old(self).wf(),
        ensures
            final(self).src() == old(self).src(),
            final(self).wf(),
            final(self).nodes().len() == old(self).nodes().len(),
            old(self).nodes().len() > 0 ==> final(self).nodes()[0].kind == old(self).nodes()[0].kind,
            old(self).text_ok() ==> final(self).text_ok() && final(self).last() == utf8_len(
                old(self).src(),
            ),
            (stack_view(final(self).nodes()), final(self).last()) == error_step(
                old(self).src(),
                stack_view(old(self).nodes()),
                old(self).last(),
            ),
    {
        proof {
            lemma_ends(self.src());
        }
        if self.last_offset < self.len {
            match self.slice_source(self.last_offset, self.len) {
                Some(remaining) => {
                    let err_span = Span {
                        start: Mark { line: 0, column: 0, offset: self.last_offset },
                        end: Mark { line: 0, column: 0, offset: self.len },
                    };
                    let ghost rest = remaining@;
                    let mut children: Vec<CstElement> = Vec::new();
                    children.push(
                        CstElement::Token(
                            CstToken { kind: TokenKind::Whitespace, text: remaining, span: err_span },
                        ),
                    );
                    let err_node = CstNode { kind: NodeKind::Error, span: err_span, children };
                    proof {
                        lemma_elements_push(Seq::<CstElement>::empty(), err_node.children@[0]);
                        assert(err_node.children@ =~= Seq::<CstElement>::empty().push(
                            err_node.children@[0],
                        ));
                        assert(node_text(err_node) =~= rest);
                        lemma_elements_view_index(err_node.children@, 0);
                        assert(elements_view(err_node.children@, 0) =~= seq![
                            element_view(err_node.children@[0]),
                        ]);
                    }
                    match self.stack.pop() {
                        Some(parent) => {
                            let mut parent = parent;
                            let ghost p0 = parent;
                            let ghost en = err_node;
                            parent.children.push(CstElement::Node(err_node));
                            self.stack.push(parent);
                            proof {
                                let s = old(self).nodes();
                                lemma_elements_push(p0.children@, CstElement::Node(en));
                                lemma_stack_text_push(s.drop_last(), parent);
                                assert(s.drop_last().push(s.last()) =~= s);
                                assert(self.nodes() =~= s.drop_last().push(parent));
                                lemma_add_top(s, parent, CstElement::Node(en));
                                if s.len() > 1 {
                                    assert(self.nodes()[0] == s[0]);
                                }
                            }
                        },
                        None => {},
                    }
                    self.last_offset = self.len;
                    proof {
                        if old(self).text_ok() {
                            let src = self.src();
                            lemma_ends(src);
                            lemma_slice_join(src, 0, old(self).last(), utf8_len(src));
                            let s = old(self).nodes();
                            assert(stack_text(s) == stack_text(s.drop_last()) + node_text(s.last()));
                            assert(stack_text(self.nodes()) =~= stack_text(s) + rest);
                        }
                    }
                },
                None => {
                    proof {
                        lemma_ends(self.src());
                    }
                },
            }
        } else {
            proof {
                if old(self).text_ok() {
                    let src = self.src();
                    let i = boundary_index(src, self.last());
                    lemma_utf8_len_take_le(src, i);
                }
            }
        }
        let _ = error;
    }

    /// Puts the events into the tree, in order, up to the first error (which
    /// puts the rest of the source into an error node); then adds the source
    /// after the last event as whitespace, closes the open nodes and returns
    /// the root.
    pub fn build(self, events: Vec<Result<Event, ParseError>>) -> (r: CstNode)
        requires
            self.wf(),
            self.nodes().len() == 0,
            self.last() == 0,
        ensures
            events@.len() == 0 ==> r.kind == NodeKind::Stream && r.span == span_zero()
                && r.children@.len() == 0,
            events@.len() > 0 && events@[0] is Err ==> r.kind == NodeKind::Stream,
            events@.len() > 0 && events@[0] == Ok::<Event, ParseError>(Event::StreamStart) ==> r.kind
                == NodeKind::Stream,
            events@.len() > 0 && events@[0] == Ok::<Event, ParseError>(Event::StreamStart)
                && results_fit(self.src(), 0, events@.drop_first()) ==> node_text(r) == self.src(),
            node_view(r) == built_view(self.src(), events@),
    {
        let mut b = self;
        let ghost evs = events@;
        let n = events.len();
        let mut rev: Vec<Result<Event, ParseError>> = Vec::new();
        let mut events = events;
        while events.len() > 0
            invariant
                events@ + rev@.reverse() == evs,
            decreases events@.len(),
        {
            let ghost before = events@;
            match events.pop() {
                Some(x) => {
                    rev.push(x);
                    proof {
                        assert(rev@.reverse() =~= seq![x] + rev@.drop_last().reverse());
                        assert(before =~= events@.push(x));
                    }
                },
                None => {},
            }
        }
        assert(rev@.reverse() =~= evs);
        let ghost first = evs.len() > 0 && evs[0] == Ok::<Event, ParseError>(Event::StreamStart);
        let ghost fits = first && results_fit(b.src(), 0, evs.drop_first());
        let ghost run = run_view(self.src(), seq![], 0, evs);
        proof {
            assert(stack_view(b.nodes()) =~= Seq::<NodeView>::empty());
            assert(evs.skip(0) =~= evs);
        }
        let mut stopped = false;
        let mut count: usize = 0;
        while !stopped && rev.len() > 0
            invariant
                b.wf(),
                b.src() == self.src(),
                first == (evs.len() > 0 && evs[0] == Ok::<Event, ParseError>(Event::StreamStart)),
                fits == (first && results_fit(self.src(), 0, evs.drop_first())),
                rev@.reverse() == evs.skip(count as int),
                count + rev@.len() == evs.len(),
                n == evs.len(),
                count == 0 ==> !stopped,
                count == 0 ==> b.nodes().len() == 0 && b.last() == 0,
                first && count > 0 ==> b.nodes().len() > 0 && b.nodes()[0].kind == NodeKind::Stream,
                evs.len() > 0 && evs[0] is Err && count > 0 ==> b.nodes().len() == 0 && stopped,
                fits && count > 0 && !stopped ==> b.text_ok() && results_fit(
                    b.src(),
                    b.last(),
                    evs.skip(count as int),
                ),
                fits && stopped ==> b.text_ok() && b.last() == utf8_len(b.src()),
                run == run_view(self.src(), seq![], 0, evs),
                !stopped ==> run_view(self.src(), stack_view(b.nodes()), b.last(), evs.skip(count as int)) == run,
                stopped ==> (stack_view(b.nodes()), b.last()) == run,
            decreases rev@.len(),
        {
            let ghost before = rev@;
            match rev.pop() {
                Some(item) => {
                    proof {
                        assert(before.reverse() =~= seq![item] + rev@.reverse());
                        assert(evs.skip(count as int)[0] == item);
                        assert(evs.skip(count as int).drop_first() =~= evs.skip(count + 1));
                        assert(evs.skip(0) =~= evs);
                        assert(evs.skip(1) =~= evs.drop_first());
                    }
                    let ghost b0 = b;
                    match item {
                        Ok(event) => {
                            proof {
                                if fits && count > 0 {
                                    let rs = evs.skip(count as int);
                                    assert(rs[0] == Ok::<Event, ParseError>(event));
                                    assert(event_fits(b0.src(), b0.last(), event));
                                    assert(results_fit(b0.src(), offset_after(b0.last(), event), rs.drop_first()));
                                }
                            }
                            b.process_event(event);
                            proof {
                                if count == 0 && first {
                                    assert(item == evs[0]);
                                }
                            }
                        },
                        Err(err) => {
                            b.handle_error(err);
                            stopped = true;
                        },
                    }
                    count = count + 1;
                },
                None => {},
            }
        }

        proof {
            if !stopped {
                assert(evs.skip(count as int) =~= Seq::<Result<Event, ParseError>>::empty());
            }
            lemma_ends(b.src());
        }
        let ghost tail = tail_view(self.src(), run.0, run.1);
        if b.last_offset < b.len {
            match b.slice_source(b.last_offset, b.len) {
                Some(ws) => {
                    let span = Span {
                        start: Mark { line: 0, column: 0, offset: b.last_offset },
                        end: Mark { line: 0, column: 0, offset: b.len },
                    };
                    let ghost last0 = b.last();
                    b.push_token(TokenKind::Whitespace, ws, span);
                    proof {
                        if fits {
                            let src = b.src();
                            lemma_ends(src);
                            lemma_slice_join(src, 0, last0, utf8_len(src));
                        }
                    }
                },
                None => {},
            }
        }
        proof {
            if fits {
                let src = b.src();
                lemma_ends(src);
                let i = boundary_index(src, b.last());
                lemma_utf8_len_take_le(src, i);
                assert(src.subrange(0, src.len() as int) =~= src);
            }
        }
        while b.stack.len() > 1
            invariant
                b.wf(),
                b.src() == self.src(),
                first == (evs.len() > 0 && evs[0] == Ok::<Event, ParseError>(Event::StreamStart)),
                fits == (first && results_fit(self.src(), 0, evs.drop_first())),
                first ==> b.nodes().len() > 0 && b.nodes()[0].kind == NodeKind::Stream,
                evs.len() > 0 && evs[0] is Err ==> b.nodes().len() == 0,
                evs.len() == 0 ==> b.nodes().len() == 0,
                fits ==> b.nodes().len() > 0 && stack_text(b.nodes()) == b.src(),
                close_all_view(stack_view(b.nodes())) == close_all_view(tail),
            decreases b.nodes().len(),
        {
            let ghost before = b.nodes();
            b.close_node();
            proof {
                if before.len() > 2 {
                    assert(b.nodes()[0] == before.take(before.len() - 2)[0]);
                }
            }
        }
        let ghost last_stack = b.nodes();
        proof {
            if last_stack.len() == 1 {
                assert(last_stack =~= seq![last_stack[0]]);
            }
        }
        match b.stack.pop() {
            Some(root) => {
                proof {
                    if fits {
                        assert(last_stack =~= seq![root]);
                        assert(last_stack.drop_last() =~= Seq::<CstNode>::empty());
                        assert(stack_text(last_stack) == stack_text(last_stack.drop_last())
                            + node_text(last_stack.last()));
                        assert(stack_text(last_stack) =~= node_text(root));
                    }
                }
                root
            },
            None => {
                let r = CstNode { kind: NodeKind::Stream, span: Span::default(), children: Vec::new() };
                proof {
                    assert(elements_view(r.children@, 0) =~= Seq::<ElementView>::empty());
                }
                r
            },
        }
    }
}

/// Parses YAML source into a lossless syntax tree in one call: the tree is
/// what [`CstBuilder::build`] makes of every result that a parser made by
/// [`Parser::new`] over `input` hands out, up to its end, so every document
/// of the input stands in it.
pub fn parse_to_cst(input: &str) -> (r: CstNode)
    requires
        input@.len() <= max_input_chars(),
    ensures
        r.kind == NodeKind::Stream,
        exists|evs: Seq<Result<Event, ParseError>>|
            evs.len() > 0 && evs[0] == Ok::<Event, ParseError>(Event::StreamStart) && node_view(r)
                == #[trigger] built_view(input@, evs) && (results_fit(input@, 0, evs.drop_first()) ==> node_text(r)
                == input@),
        exists|p: Parser|
            p.started_on(input@) && p.finished() && node_view(r) == #[trigger] built_view(input@, p.yielded()),
{
    let mut parser = Parser::new(input);
    let mut events: Vec<Result<Event, ParseError>> = Vec::new();
    loop
        invariant_except_break
            events@.len() == 0 ==> parser.fresh() && parser.fresh_stream(),
        invariant
            parser.wf(),
            parser.started_on(input@),
            events@ == parser.yielded(),
            events@.len() > 0 ==> events@[0] is Err || events@[0] == Ok::<Event, ParseError>(
                Event::StreamStart,
            ),
            events@.len() > 0 ==> events@[0] == Ok::<Event, ParseError>(Event::StreamStart),
        ensures
            events@.len() > 0 ==> events@[0] is Err || events@[0] == Ok::<Event, ParseError>(
                Event::StreamStart,
            ),
            events@.len() > 0,
            events@[0] == Ok::<Event, ParseError>(Event::StreamStart),
            parser.finished(),
        decreases parser.remaining(),
    {
        match parser.next() {
            Some(item) => events.push(item),
            None => break,
        }
    }
    let builder = CstBuilder::new(input);
    let ghost evs = events@;
    let r = builder.build(events);
    assert(node_view(r) == built_view(input@, evs));
    assert(node_view(r) == built_view(input@, parser.yielded()));
    r
}

fn string_is_empty(s: &String) -> (r: bool)
    ensures
        r == (s@.len() == 0),
{
    let n = string_len(s);
    proof {
        lemma_utf8_len_take_le(s@, s@.len() as int);
        assert(s@.take(s@.len() as int) =~= s@);
    }
    n == 0
}

} // verus!
