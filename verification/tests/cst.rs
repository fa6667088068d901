use yamalgam::cst::{parse_to_cst, CstBuilder, CstElement, NodeKind, TokenKind};
use yamalgam::diagnostic::{Mark, Span};
use yamalgam::parser::{Event, ParseError};


#[test]
fn empty_input_round_trip() {
    let input = "";
    let cst = parse_to_cst(input);
    assert_eq!(cst.to_text(), input);
    assert_eq!(cst.kind, NodeKind::Stream);
}

#[test]
fn plain_scalar_round_trip() {
    let input = "hello";
    let cst = parse_to_cst(input);
    assert_eq!(cst.to_text(), input);
}

#[test]
fn block_sequence_round_trip() {
    let input = "- a\n- b\n- c\n";
    let cst = parse_to_cst(input);
    assert_eq!(cst.to_text(), input);
}

#[test]
fn block_mapping_round_trip() {
    let input = "key: value\nother: stuff\n";
    let cst = parse_to_cst(input);
    assert_eq!(cst.to_text(), input);
}

#[test]
fn flow_sequence_round_trip() {
    let input = "[1, 2, 3]";
    let cst = parse_to_cst(input);
    assert_eq!(cst.to_text(), input);
}

#[test]
fn flow_mapping_round_trip() {
    let input = "{a: 1, b: 2}";
    let cst = parse_to_cst(input);
    assert_eq!(cst.to_text(), input);
}

#[test]
fn comment_preserved() {
    let input = "# comment\nkey: value\n";
    let cst = parse_to_cst(input);
    assert_eq!(cst.to_text(), input);
}

#[test]
fn inline_comment_preserved() {
    let input = "key: value # inline\n";
    let cst = parse_to_cst(input);
    assert_eq!(cst.to_text(), input);
}

#[test]
fn explicit_document_round_trip() {
    let input = "---\nfoo: bar\n...\n";
    let cst = parse_to_cst(input);
    assert_eq!(cst.to_text(), input);
}

#[test]
fn nested_structure_round_trip() {
    let input = "outer:\n  inner:\n    - a\n    - b\n";
    let cst = parse_to_cst(input);
    assert_eq!(cst.to_text(), input);
}

#[test]
fn quoted_scalar_round_trip() {
    let input = "'single quoted'\n";
    let cst = parse_to_cst(input);
    assert_eq!(cst.to_text(), input);
}

#[test]
fn double_quoted_scalar_round_trip() {
    let input = "\"double quoted\"\n";
    let cst = parse_to_cst(input);
    assert_eq!(cst.to_text(), input);
}

#[test]
fn stream_node_structure() {
    let cst = parse_to_cst("key: val");
    assert_eq!(cst.kind, NodeKind::Stream);
    // Stream should contain a Document.
    assert!(cst.child_node(NodeKind::Document).is_some());
}

#[test]
fn document_contains_mapping() {
    let cst = parse_to_cst("a: 1\nb: 2");
    let doc = cst.child_node(NodeKind::Document).expect("no document");
    assert!(doc.child_node(NodeKind::Mapping).is_some());
}

#[test]
fn mapping_contains_entries() {
    let cst = parse_to_cst("a: 1\nb: 2");
    let doc = cst.child_node(NodeKind::Document).expect("no document");
    let mapping = doc.child_node(NodeKind::Mapping).expect("no mapping");
    let entry_count = mapping
        .children()
        .iter()
        .filter(|c| matches!(c, CstElement::Node(n) if n.kind == NodeKind::MappingEntry))
        .count();
    assert_eq!(entry_count, 2, "expected 2 mapping entries");
}

#[test]
fn sequence_contains_entries() {
    let cst = parse_to_cst("- a\n- b\n- c");
    let doc = cst.child_node(NodeKind::Document).expect("no document");
    let seq = doc.child_node(NodeKind::Sequence).expect("no sequence");
    let entry_count = seq
        .children()
        .iter()
        .filter(|c| matches!(c, CstElement::Node(n) if n.kind == NodeKind::SequenceEntry))
        .count();
    assert_eq!(entry_count, 3, "expected 3 sequence entries");
}

#[test]
fn node_at_offset_finds_scalar() {
    let input = "key: value";
    let cst = parse_to_cst(input);
    // "value" starts at offset 5.
    let node = cst.node_at_offset(5);
    assert!(node.is_some());
}

#[test]
fn error_recovery_produces_partial_cst() {
    let input = "'unterminated";
    let cst = parse_to_cst(input);
    // Should still produce a tree (with error node).
    assert_eq!(cst.kind, NodeKind::Stream);
    assert_eq!(cst.to_text(), input);
}

#[test]
fn anchor_and_alias_round_trip() {
    let input = "a: &ref hello\nb: *ref\n";
    let cst = parse_to_cst(input);
    assert_eq!(cst.to_text(), input);
}

#[test]
fn multiline_block_scalar_round_trip() {
    let input = "text: |\n  line1\n  line2\n";
    let cst = parse_to_cst(input);
    assert_eq!(cst.to_text(), input);
}

#[test]
fn leaf_count_nonzero() {
    let cst = parse_to_cst("a: 1");
    assert!(cst.leaf_count() > 0);
}

fn span(start: usize, end: usize) -> Span {
    Span {
        start: Mark { line: 0, column: 0, offset: start },
        end: Mark { line: 0, column: 0, offset: end },
    }
}

#[test]
fn build_without_events_gives_empty_stream() {
    let cst = CstBuilder::new("abc").build(Vec::new());
    assert_eq!(cst.kind, NodeKind::Stream);
    assert_eq!(cst.children().len(), 0);
    assert_eq!(cst.to_text(), "");
}

#[test]
fn build_error_wraps_rest_in_error_node() {
    let events: Vec<Result<Event, ParseError>> = vec![
        Ok(Event::StreamStart),
        Ok(Event::Scalar {
            anchor: None,
            tag: None,
            value: "ab".to_string(),
            style: yamalgam::token::ScalarStyle::Plain,
            span: span(0, 2),
        }),
        Err(ParseError::UnexpectedEof { expected: "more", span: span(2, 2) }),
    ];
    let cst = CstBuilder::new("ab  rest").build(events);
    assert_eq!(cst.kind, NodeKind::Stream);
    assert_eq!(cst.to_text(), "ab  rest");
    let err = cst.child_node(NodeKind::Error).expect("error node");
    assert_eq!(err.to_text(), "  rest");
    assert_eq!(err.span.start.offset, 2);
    assert_eq!(err.span.end.offset, 8);
    assert_eq!(cst.child_tokens(TokenKind::Scalar).len(), 1);
    assert_eq!(cst.leaf_count(), 2);
}

#[test]
fn build_fills_gaps_with_whitespace() {
    let events: Vec<Result<Event, ParseError>> = vec![
        Ok(Event::StreamStart),
        Ok(Event::Comment { text: "# c".to_string(), span: span(2, 5) }),
        Ok(Event::StreamEnd),
    ];
    let cst = CstBuilder::new("  # c\n").build(events);
    assert_eq!(cst.to_text(), "  # c\n");
    let ws = cst.child_tokens(TokenKind::Whitespace);
    assert_eq!(ws.len(), 2);
    assert_eq!(ws[0].text, "  ");
    assert_eq!(ws[1].text, "\n");
    let comments = cst.child_tokens(TokenKind::Comment);
    assert_eq!(comments.len(), 1);
    assert_eq!(comments[0].span, span(2, 5));
}

#[test]
fn flow_sequence_has_bracket_tokens() {
    let cst = parse_to_cst("[1, 2]");
    let doc = cst.child_node(NodeKind::Document).expect("no document");
    let seq = doc.child_node(NodeKind::Sequence).expect("no sequence");
    let open = seq.child_tokens(TokenKind::FlowSeqStart);
    assert_eq!(open.len(), 1);
    assert_eq!(open[0].text, "[");
    let close = seq.child_tokens(TokenKind::FlowSeqEnd);
    assert_eq!(close.len(), 1);
    assert_eq!(close[0].text, "]");
    assert_eq!(seq.to_text(), "[1, 2]");
}

#[test]
fn node_at_offset_outside_span_is_none() {
    let cst = parse_to_cst("key: value");
    assert!(cst.node_at_offset(100).is_none());
    let found = cst.node_at_offset(5).expect("found");
    assert!(found.span.start.offset <= 5 && 5 < found.span.end.offset);
}

#[test]
fn round_trip_multi_document() {
    let input = "a: 1\n---\n- x\n- y # note\n...\n";
    assert_eq!(parse_to_cst(input).to_text(), input);
}
