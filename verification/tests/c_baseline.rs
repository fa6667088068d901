use yamalgam::input::Input;
use yamalgam::loader::ResourceLimits;
use yamalgam::c_baseline::{batch_line, extract_all_yaml_inputs, extract_yaml_input, BatchLine, CacheEntry};
use yamalgam::compose::ComposeError;
use yamalgam::parser::ParseError;
use yamalgam::peers::{yamalgam_parse, yamalgam_scan};
use yamalgam::resolve::ResolveError;

#[test]
fn yaml_input_block() {
    let content = "---\n- name: x\n  yaml: |\n    a: 1\n    b: 2\n  tree: |\n    +STR\n";
    assert_eq!(extract_yaml_input(content), Some("a: 1\nb: 2".to_string()));
}

#[test]
fn yaml_input_inline_and_missing() {
    assert_eq!(extract_yaml_input("- yaml: foo\u{2423}bar\n"), Some("foo bar".to_string()));
    assert_eq!(extract_yaml_input("- name: none\n"), None);
    assert_eq!(extract_yaml_input("- yaml: |\n"), None);
}

#[test]
fn yaml_input_markers_and_end_of_proof() {
    let content = "- yaml: |\n    key:\u{00BB}v\u{220E}\n";
    assert_eq!(extract_yaml_input(content), Some("key:\tv".to_string()));
}

#[test]
fn all_yaml_inputs_per_element() {
    let content = "---\n- yaml: |\n    a\n- name: no yaml\n- yaml: c\n";
    let all = extract_all_yaml_inputs(content);
    assert_eq!(all, vec![(0, "a".to_string()), (2, "c".to_string())]);
}

#[test]
fn cache_entry_fields() {
    let e = CacheEntry { stdout: "{}\n".to_string(), error: None };
    let f = e.clone();
    assert_eq!(f.stdout, "{}\n");
    assert!(f.error.is_none());
}

#[test]
fn compose_error_display() {
    assert_eq!(ComposeError::UndefinedAlias("a".to_string()).display(), "undefined alias: *a");
    assert_eq!(ComposeError::UnexpectedEvent("x".to_string()).display(), "unexpected event: x");
    assert_eq!(ComposeError::LimitExceeded("n".to_string()).display(), "limit exceeded: n");
    let e = ComposeError::from(ParseError::LimitExceeded("m".to_string()));
    assert_eq!(e.display(), "limit exceeded: m");
    let e = ComposeError::from(ResolveError::Custom("c".to_string()));
    assert_eq!(e.display(), "c");
}

#[test]
fn peers_run_to_completion() {
    yamalgam_scan("key: [1, 2]\n");
    yamalgam_parse("key: [1, 2]\n");
    yamalgam_scan("'unterminated");
    yamalgam_parse("'unterminated");
}

#[test]
fn read_bytes_over_limit_is_refused() {
    let err = Input::from_read_bytes(b"abcdef", Some(4)).err().expect("refused");
    assert_eq!(err.message, "encoding error: input size 6 bytes exceeds maximum of 4 bytes");
    assert_eq!(err.code, "E0001");
    let ok = Input::from_read_bytes(b"abcd", Some(4)).ok().expect("accepted");
    assert_eq!(ok.as_str(), "abcd");
    let ok = Input::from_read_bytes(b"\xEF\xBB\xBFab", None).ok().expect("accepted");
    assert_eq!(ok.as_str(), "ab");
    assert!(Input::from_read_bytes(b"\xFF\xFE\x00", None).is_err());
}

#[test]
fn composition_limit_checks() {
    let mut l = ResourceLimits::none();
    assert!(l.check_anchor_count(1_000_000).is_ok());
    l.max_anchor_count = Some(2);
    l.max_alias_expansions = Some(1);
    l.max_merge_depth = Some(3);
    assert!(l.check_anchor_count(2).is_ok());
    assert_eq!(l.check_anchor_count(3), Err("anchor count 3 exceeds maximum of 2".to_string()));
    assert_eq!(l.check_alias_expansions(2), Err("alias expansions 2 exceeds maximum of 1".to_string()));
    assert_eq!(l.check_merge_depth(4), Err("merge depth 4 exceeds maximum of 3".to_string()));
    assert!(l.check_merge_depth(3).is_ok());
}

#[test]
fn batch_line_end_marker() {
    assert!(matches!(batch_line("---END\n"), BatchLine::End));
    assert!(matches!(batch_line("  ---END  "), BatchLine::End));
}

#[test]
fn batch_line_error_object() {
    match batch_line("{\"error\": \"parse failed\"}\n") {
        BatchLine::Error(m) => assert_eq!(m, "parse failed"),
        other => panic!("expected an error, got {other:?}"),
    }
}

#[test]
fn batch_line_output() {
    assert!(matches!(batch_line("{\"type\": \"SCALAR\"}\n"), BatchLine::Output));
    assert!(matches!(batch_line("{\"error\": 3}\n"), BatchLine::Output));
    assert!(matches!(batch_line("not json \"error\"\n"), BatchLine::Output));
}
