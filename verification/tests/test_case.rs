use yamalgam::test_case::{extract_test_cases, replace_markers};


#[test]
fn replace_markers_em_dash() {
    assert_eq!(replace_markers("a\u{2014}b".to_string()), "ab");
}

#[test]
fn replace_markers_open_box() {
    assert_eq!(replace_markers("a\u{2423}b".to_string()), "a b");
}

#[test]
fn replace_markers_guillemet() {
    assert_eq!(replace_markers("a\u{00BB}b".to_string()), "a\tb");
}

#[test]
fn replace_markers_end_of_proof_strips_newline() {
    assert_eq!(replace_markers("hello\u{220E}\n".to_string()), "hello");
}

#[test]
fn replace_markers_no_markers_passthrough() {
    assert_eq!(replace_markers("plain text".to_string()), "plain text");
}

#[test]
fn extract_single_case() {
    let content = "\
---
- name: Simple test
  yaml: |
    key: value
  tree: |
    +STR
     +DOC
      +MAP
       =VAL :key
       =VAL :value
      -MAP
     -DOC
    -STR
";
    let cases = extract_test_cases(content);
    assert_eq!(cases.len(), 1);
    assert_eq!(cases[0].index, 0);
    assert_eq!(cases[0].yaml, "key: value");
    assert!(!cases[0].fail);
    let tree = cases[0].tree.as_ref().unwrap();
    assert!(tree.starts_with("+STR"));
    assert!(tree.contains("-STR"));
}

#[test]
fn extract_multi_case() {
    let content = "\
---
- name: First
  yaml: |
    a: 1
  tree: |
    +STR
    -STR

- yaml: |
    b: 2
  tree: |
    +STR
    -STR

- yaml: |
    c: 3
  tree: |
    +STR
    -STR
";
    let cases = extract_test_cases(content);
    assert_eq!(cases.len(), 3);
    assert_eq!(cases[0].index, 0);
    assert_eq!(cases[0].yaml, "a: 1");
    assert_eq!(cases[1].index, 1);
    assert_eq!(cases[1].yaml, "b: 2");
    assert_eq!(cases[2].index, 2);
    assert_eq!(cases[2].yaml, "c: 3");
}

#[test]
fn extract_fail_true_as_first_key() {
    let content = "\
---
- fail: true
  yaml: |
    bad: [
  tree: |
    +STR
";
    let cases = extract_test_cases(content);
    assert_eq!(cases.len(), 1);
    assert!(cases[0].fail);
    assert_eq!(cases[0].yaml, "bad: [");
}

#[test]
fn extract_fail_true_as_indented_key() {
    let content = "\
---
- name: Error case
  fail: true
  yaml: |
    broken
  tree: |
    +STR
";
    let cases = extract_test_cases(content);
    assert_eq!(cases.len(), 1);
    assert!(cases[0].fail);
}

#[test]
fn extract_fail_defaults_false() {
    let content = "\
---
- yaml: |
    ok: true
  tree: |
    +STR
    -STR
";
    let cases = extract_test_cases(content);
    assert_eq!(cases.len(), 1);
    assert!(!cases[0].fail);
}

#[test]
fn extract_tree_field() {
    let content = "\
---
- yaml: |
    hello
  tree: |
    +STR
     +DOC
      =VAL :hello
     -DOC
    -STR
";
    let cases = extract_test_cases(content);
    let tree = cases[0].tree.as_ref().unwrap();
    assert!(tree.starts_with("+STR"));
    assert!(tree.contains("=VAL :hello"));
    assert!(tree.ends_with("-STR"));
}

#[test]
fn extract_no_tree_field() {
    let content = "\
---
- yaml: |
    hello
";
    let cases = extract_test_cases(content);
    assert_eq!(cases.len(), 1);
    assert!(cases[0].tree.is_none());
}

#[test]
fn marker_replacement_in_yaml_field() {
    // \u{2014} = em-dash (removed), \u{00BB} = guillemet (tab)
    let content = "---\n- yaml: |\n    foo:\n     \u{2014}\u{2014}\u{2014}\u{00BB}bar\n";
    let cases = extract_test_cases(content);
    assert_eq!(cases.len(), 1);
    assert_eq!(cases[0].yaml, "foo:\n \tbar");
}

#[test]
fn marker_replacement_open_box_to_space() {
    let content = "---\n- yaml: |\n    hello\u{2423}world\n";
    let cases = extract_test_cases(content);
    assert_eq!(cases[0].yaml, "hello world");
}

#[test]
fn marker_end_of_proof_strips_trailing_newline() {
    let content = "---\n- yaml: |\n    data\u{220E}\n";
    let cases = extract_test_cases(content);
    assert_eq!(cases[0].yaml, "data");
}

#[test]
fn extract_yaml_block_scalar_with_indent_indicator() {
    // yaml: |2 is treated the same as yaml: | for test-file extraction:
    // indent is auto-detected from first content line. This mirrors how
    // DK95 case 3 works in the real test suite.
    let content = "\
---
- yaml: |2
    leading
    foo: 1
  tree: |
    +STR
    -STR
";
    let cases = extract_test_cases(content);
    assert_eq!(cases.len(), 1);
    assert!(cases[0].yaml.contains("leading"));
    assert!(cases[0].yaml.contains("foo: 1"));
    // tree: should NOT be consumed into yaml
    assert!(cases[0].tree.is_some());
}

#[test]
fn extract_mixed_fail_and_pass_multi_case() {
    let content = "\
---
- name: Pass case
  yaml: |
    a: 1
  tree: |
    +STR
    -STR

- fail: true
  yaml: |
    broken
  tree: |
    +STR

- yaml: |
    c: 3
  tree: |
    +STR
    -STR
";
    let cases = extract_test_cases(content);
    assert_eq!(cases.len(), 3);
    assert!(!cases[0].fail);
    assert!(cases[1].fail);
    assert!(!cases[2].fail);
}

#[test]
fn extract_explicit_indent_indicator_cuts_at_column() {
    let content = "- yaml: |2\n     five\n    four\n  tree: x\n";
    let cases = extract_test_cases(content);
    assert_eq!(cases.len(), 1);
    assert_eq!(cases[0].yaml, " five\nfour");
    assert_eq!(cases[0].tree.as_deref(), Some("x"));
}

#[test]
fn extract_later_field_replaces_earlier() {
    let content = "- yaml: a\n  yaml: b\n";
    let cases = extract_test_cases(content);
    assert_eq!(cases[0].yaml, "b");
    assert!(cases[0].tree.is_none());
}

#[test]
fn replace_markers_return_arrow_removed() {
    assert_eq!(replace_markers("a\u{21B5}\n".to_string()), "a\n");
    assert_eq!(replace_markers("x\n\u{220E}".to_string()), "x");
}
