use yamalgam::compare::{compare_token_streams, CompareResult, SpanSnapshot, TokenSnapshot};
use yamalgam::harness::{contains_ignoring_case, run_rust_scanner};

#[test]
fn identical_streams_match() {
    let tokens = vec![
        TokenSnapshot {
            kind: "StreamStart".to_string(),
            value: None,
            style: None,
            span: SpanSnapshot::default(),
        },
        TokenSnapshot {
            kind: "StreamEnd".to_string(),
            value: None,
            style: None,
            span: SpanSnapshot::default(),
        },
    ];
    let result = compare_token_streams(&tokens, &tokens);
    assert!(matches!(result, CompareResult::Match { token_count: 2 }));
}

#[test]
fn different_values_produce_mismatch() {
    let c_tokens = vec![TokenSnapshot {
        kind: "Scalar".to_string(),
        value: Some("foo".to_string()),
        style: Some("Plain".to_string()),
        span: SpanSnapshot::default(),
    }];
    let rust_tokens = vec![TokenSnapshot {
        kind: "Scalar".to_string(),
        value: Some("bar".to_string()),
        style: Some("Plain".to_string()),
        span: SpanSnapshot::default(),
    }];
    let result = compare_token_streams(&c_tokens, &rust_tokens);
    assert!(matches!(
        result,
        CompareResult::TokenMismatch { index: 0, .. }
    ));
}

#[test]
fn different_lengths_produce_mismatch() {
    let c_tokens = vec![
        TokenSnapshot {
            kind: "StreamStart".to_string(),
            value: None,
            style: None,
            span: SpanSnapshot::default(),
        },
        TokenSnapshot {
            kind: "StreamEnd".to_string(),
            value: None,
            style: None,
            span: SpanSnapshot::default(),
        },
    ];
    let rust_tokens = vec![TokenSnapshot {
        kind: "StreamStart".to_string(),
        value: None,
        style: None,
        span: SpanSnapshot::default(),
    }];
    let result = compare_token_streams(&c_tokens, &rust_tokens);
    assert!(matches!(result, CompareResult::TokenMismatch { .. }));
}

#[test]
fn different_kinds_produce_mismatch() {
    let c_tokens = vec![TokenSnapshot {
        kind: "Scalar".to_string(),
        value: None,
        style: None,
        span: SpanSnapshot::default(),
    }];
    let rust_tokens = vec![TokenSnapshot {
        kind: "Anchor".to_string(),
        value: None,
        style: None,
        span: SpanSnapshot::default(),
    }];
    let result = compare_token_streams(&c_tokens, &rust_tokens);
    assert!(matches!(
        result,
        CompareResult::TokenMismatch { index: 0, .. }
    ));
}

#[test]
fn rust_scanner_produces_stream_and_block_tokens() {
    let tokens = run_rust_scanner(b"key: value").unwrap();
    assert_eq!(tokens[0].kind, "StreamStart");
    assert!(tokens.iter().any(|t| t.kind == "Value"));
    assert_eq!(tokens.last().unwrap().kind, "StreamEnd");
}

#[test]
fn filter_match_ignores_case() {
    assert!(contains_ignoring_case("Scalar token", "SCALAR"));
    assert!(contains_ignoring_case("229Q", "229q"));
    assert!(!contains_ignoring_case("StreamEnd", "start"));
    assert!(contains_ignoring_case("anything", ""));
}
