use yamalgam::tree_format::{parse_tree, unescape_tree_value};


#[test]
fn unescape_basic() {
    assert_eq!(unescape_tree_value("hello"), "hello");
    assert_eq!(unescape_tree_value("a\\nb"), "a\nb");
    assert_eq!(unescape_tree_value("a\\tb"), "a\tb");
    assert_eq!(unescape_tree_value("a\\\\b"), "a\\b");
    assert_eq!(unescape_tree_value("a\\rb"), "a\rb");
    assert_eq!(unescape_tree_value("a\\bb"), "a\u{0008}b");
    assert_eq!(unescape_tree_value("a\\0b"), "a\0b");
}

#[test]
fn unescape_hex() {
    assert_eq!(unescape_tree_value("\\x41"), "A");
    assert_eq!(unescape_tree_value("\\x00"), "\0");
    assert_eq!(unescape_tree_value("\\x0a"), "\n");
}

#[test]
fn parse_empty_stream() {
    let tree = "+STR\n-STR\n";
    let events = parse_tree(tree);
    assert_eq!(events.len(), 2);
    assert_eq!(events[0].kind, "StreamStart");
    assert_eq!(events[1].kind, "StreamEnd");
}

#[test]
fn parse_implicit_doc() {
    let tree = "+STR\n +DOC\n  =VAL :hello\n -DOC\n-STR\n";
    let events = parse_tree(tree);
    assert_eq!(events.len(), 5);
    assert_eq!(events[1].kind, "DocumentStart");
    assert_eq!(events[1].implicit, Some(true));
    assert_eq!(events[3].kind, "DocumentEnd");
    assert_eq!(events[3].implicit, Some(true));
}

#[test]
fn parse_explicit_doc() {
    let tree = "+STR\n +DOC ---\n  =VAL :hello\n -DOC ...\n-STR\n";
    let events = parse_tree(tree);
    assert_eq!(events[1].kind, "DocumentStart");
    assert_eq!(events[1].implicit, Some(false));
    assert_eq!(events[3].kind, "DocumentEnd");
    assert_eq!(events[3].implicit, Some(false));
}

#[test]
fn parse_anchor_and_tag() {
    let tree = "+STR\n +DOC\n  +MAP &a1 <tag:yaml.org,2002:map>\n  -MAP\n -DOC\n-STR\n";
    let events = parse_tree(tree);
    let map_start = &events[2];
    assert_eq!(map_start.kind, "MappingStart");
    assert_eq!(map_start.anchor.as_deref(), Some("a1"));
    assert_eq!(map_start.tag.as_deref(), Some("tag:yaml.org,2002:map"));
}

#[test]
fn parse_alias() {
    let tree = "+STR\n +DOC\n  =ALI *anchor1\n -DOC\n-STR\n";
    let events = parse_tree(tree);
    let alias = &events[2];
    assert_eq!(alias.kind, "Alias");
    assert_eq!(alias.value.as_deref(), Some("anchor1"));
    assert!(alias.anchor.is_none());
}

#[test]
fn parse_scalar_with_anchor_and_tag() {
    let tree = "=VAL &a1 <tag:yaml.org,2002:str> :scalar1\n";
    let events = parse_tree(tree);
    assert_eq!(events.len(), 1);
    let s = &events[0];
    assert_eq!(s.kind, "Scalar");
    assert_eq!(s.anchor.as_deref(), Some("a1"));
    assert_eq!(s.tag.as_deref(), Some("tag:yaml.org,2002:str"));
    assert_eq!(s.value.as_deref(), Some("scalar1"));
}

#[test]
fn tree_simple_mapping() {
    let tree = "\
+STR
 +DOC
  +MAP
   =VAL :name
   =VAL :Mark McGwire
   =VAL :hr
   =VAL :65
  -MAP
 -DOC
-STR
";
    let events = parse_tree(tree);
    assert_eq!(events.len(), 10);
    assert_eq!(events[0].kind, "StreamStart");
    assert_eq!(events[1].kind, "DocumentStart");
    assert_eq!(events[1].implicit, Some(true));
    assert_eq!(events[2].kind, "MappingStart");
    assert_eq!(events[3].kind, "Scalar");
    assert_eq!(events[3].value.as_deref(), Some("name"));
    assert_eq!(events[4].value.as_deref(), Some("Mark McGwire"));
    assert_eq!(events[5].value.as_deref(), Some("hr"));
    assert_eq!(events[6].value.as_deref(), Some("65"));
    assert_eq!(events[7].kind, "MappingEnd");
    assert_eq!(events[8].kind, "DocumentEnd");
    assert_eq!(events[8].implicit, Some(true));
    assert_eq!(events[9].kind, "StreamEnd");
}

#[test]
fn tree_explicit_doc_markers() {
    let tree = "\
+STR
 +DOC ---
  =VAL :hello
 -DOC ...
-STR
";
    let events = parse_tree(tree);
    assert_eq!(events.len(), 5);
    assert_eq!(events[1].kind, "DocumentStart");
    assert_eq!(events[1].implicit, Some(false));
    assert_eq!(events[3].kind, "DocumentEnd");
    assert_eq!(events[3].implicit, Some(false));
}

#[test]
fn tree_implicit_doc_markers() {
    let tree = "\
+STR
 +DOC
  =VAL :hello
 -DOC
-STR
";
    let events = parse_tree(tree);
    assert_eq!(events[1].implicit, Some(true));
    assert_eq!(events[3].implicit, Some(true));
}

#[test]
fn tree_anchors_on_collections() {
    let tree = "\
+STR
 +DOC
  +MAP &node3
   =VAL :key
   =VAL :val
  -MAP
 -DOC
-STR
";
    let events = parse_tree(tree);
    let map_start = &events[2];
    assert_eq!(map_start.kind, "MappingStart");
    assert_eq!(map_start.anchor.as_deref(), Some("node3"));
    assert!(map_start.tag.is_none());
}

#[test]
fn tree_tags_on_collections() {
    let tree = "\
+STR
 +DOC ---
  +MAP <tag:yaml.org,2002:set>
   =VAL :key
   =VAL :
  -MAP
 -DOC
-STR
";
    let events = parse_tree(tree);
    let map_start = &events[2];
    assert_eq!(map_start.kind, "MappingStart");
    assert!(map_start.anchor.is_none());
    assert_eq!(map_start.tag.as_deref(), Some("tag:yaml.org,2002:set"));
}

#[test]
fn tree_anchor_and_tag_on_collection() {
    let tree = "\
+STR
 +DOC
  +MAP &a4 <tag:yaml.org,2002:map>
  -MAP
 -DOC
-STR
";
    let events = parse_tree(tree);
    let map_start = &events[2];
    assert_eq!(map_start.anchor.as_deref(), Some("a4"));
    assert_eq!(map_start.tag.as_deref(), Some("tag:yaml.org,2002:map"));
}

#[test]
fn tree_sequence_with_anchor() {
    let tree = "\
+STR
 +DOC
  +SEQ &items
   =VAL :one
   =VAL :two
  -SEQ
 -DOC
-STR
";
    let events = parse_tree(tree);
    let seq_start = &events[2];
    assert_eq!(seq_start.kind, "SequenceStart");
    assert_eq!(seq_start.anchor.as_deref(), Some("items"));
}

#[test]
fn tree_alias() {
    let tree = "\
+STR
 +DOC
  +MAP
   =ALI *alias1
   =VAL :scalar3
  -MAP
 -DOC
-STR
";
    let events = parse_tree(tree);
    let alias = &events[3];
    assert_eq!(alias.kind, "Alias");
    assert_eq!(alias.value.as_deref(), Some("alias1"));
    assert!(alias.anchor.is_none());
    assert!(alias.tag.is_none());
}

#[test]
fn tree_alias_with_colon_in_name() {
    // From test case 2SXE: anchors with colon in name.
    let tree = "=ALI *a:\n";
    let events = parse_tree(tree);
    assert_eq!(events.len(), 1);
    assert_eq!(events[0].kind, "Alias");
    assert_eq!(events[0].value.as_deref(), Some("a:"));
}

#[test]
fn tree_scalar_plain_style() {
    let events = parse_tree("=VAL :hello world\n");
    assert_eq!(events.len(), 1);
    assert_eq!(events[0].kind, "Scalar");
    assert_eq!(events[0].value.as_deref(), Some("hello world"));
}

#[test]
fn tree_scalar_single_quoted() {
    let events = parse_tree("=VAL 'hello world\n");
    assert_eq!(events.len(), 1);
    assert_eq!(events[0].value.as_deref(), Some("hello world"));
}

#[test]
fn tree_scalar_double_quoted() {
    let events = parse_tree("=VAL \"hello world\n");
    assert_eq!(events.len(), 1);
    assert_eq!(events[0].value.as_deref(), Some("hello world"));
}

#[test]
fn tree_scalar_literal_block() {
    let events = parse_tree("=VAL |hello\\nworld\\n\n");
    assert_eq!(events.len(), 1);
    assert_eq!(events[0].value.as_deref(), Some("hello\nworld\n"));
}

#[test]
fn tree_scalar_folded_block() {
    let events = parse_tree("=VAL >hello\\nworld\\n\n");
    assert_eq!(events.len(), 1);
    assert_eq!(events[0].value.as_deref(), Some("hello\nworld\n"));
}

#[test]
fn tree_scalar_empty_value() {
    let events = parse_tree("=VAL :\n");
    assert_eq!(events.len(), 1);
    assert_eq!(events[0].value.as_deref(), Some(""));
}

#[test]
fn tree_scalar_with_anchor() {
    let events = parse_tree("=VAL &alias1 :scalar1\n");
    assert_eq!(events.len(), 1);
    assert_eq!(events[0].anchor.as_deref(), Some("alias1"));
    assert_eq!(events[0].value.as_deref(), Some("scalar1"));
    assert!(events[0].tag.is_none());
}

#[test]
fn tree_scalar_with_tag() {
    let events = parse_tree("=VAL <tag:yaml.org,2002:int> :42\n");
    assert_eq!(events.len(), 1);
    assert!(events[0].anchor.is_none());
    assert_eq!(events[0].tag.as_deref(), Some("tag:yaml.org,2002:int"));
    assert_eq!(events[0].value.as_deref(), Some("42"));
}

#[test]
fn tree_scalar_with_anchor_and_tag() {
    let events = parse_tree("=VAL &a1 <tag:yaml.org,2002:str> :scalar1\n");
    assert_eq!(events.len(), 1);
    assert_eq!(events[0].anchor.as_deref(), Some("a1"));
    assert_eq!(events[0].tag.as_deref(), Some("tag:yaml.org,2002:str"));
    assert_eq!(events[0].value.as_deref(), Some("scalar1"));
}

#[test]
fn tree_escape_sequences() {
    // \n → newline, \t → tab, \\ → backslash, \r → CR, \b → BS, \0 → null
    let events = parse_tree("=VAL :a\\nb\\tc\\\\d\\re\\bf\\0g\n");
    assert_eq!(events.len(), 1);
    assert_eq!(
        events[0].value.as_deref(),
        Some("a\nb\tc\\d\re\u{0008}f\0g")
    );
}

#[test]
fn tree_hex_escape() {
    let events = parse_tree("=VAL :start\\x41end\n");
    assert_eq!(events.len(), 1);
    assert_eq!(events[0].value.as_deref(), Some("startAend"));
}

#[test]
fn tree_literal_backslash_n_in_value() {
    // \\n in tree format → literal backslash + n in the value (not a newline).
    let events = parse_tree("=VAL 'x\\\\ny\n");
    assert_eq!(events.len(), 1);
    assert_eq!(events[0].value.as_deref(), Some("x\\ny"));
}

#[test]
fn tree_full_229q_example() {
    // Spec Example 2.4: Sequence of Mappings — from the YAML Test Suite.
    let tree = "\
+STR
 +DOC
  +SEQ
   +MAP
    =VAL :name
    =VAL :Mark McGwire
    =VAL :hr
    =VAL :65
    =VAL :avg
    =VAL :0.278
   -MAP
   +MAP
    =VAL :name
    =VAL :Sammy Sosa
    =VAL :hr
    =VAL :63
    =VAL :avg
    =VAL :0.288
   -MAP
  -SEQ
 -DOC
-STR
";
    let events = parse_tree(tree);
    assert_eq!(events.len(), 22);

    // Spot-check structure.
    assert_eq!(events[0].kind, "StreamStart");
    assert_eq!(events[2].kind, "SequenceStart");
    assert_eq!(events[3].kind, "MappingStart");
    assert_eq!(events[4].value.as_deref(), Some("name"));
    assert_eq!(events[5].value.as_deref(), Some("Mark McGwire"));
    assert_eq!(events[10].kind, "MappingEnd");
    assert_eq!(events[11].kind, "MappingStart");
    assert_eq!(events[18].kind, "MappingEnd");
    assert_eq!(events[19].kind, "SequenceEnd");
    assert_eq!(events[21].kind, "StreamEnd");
}

#[test]
fn tree_blank_lines_ignored() {
    let tree = "\n+STR\n\n +DOC\n\n-STR\n\n";
    let events = parse_tree(tree);
    assert_eq!(events.len(), 3);
    assert_eq!(events[0].kind, "StreamStart");
    assert_eq!(events[1].kind, "DocumentStart");
    assert_eq!(events[2].kind, "StreamEnd");
}

#[test]
fn tree_anchor_with_colon_on_scalar() {
    // From test case 2SXE: anchor with colon.
    let events = parse_tree("=VAL &a: :key\n");
    assert_eq!(events.len(), 1);
    assert_eq!(events[0].anchor.as_deref(), Some("a:"));
    assert_eq!(events[0].value.as_deref(), Some("key"));
}

#[test]
fn tree_tagged_scalars() {
    // Multiple tagged scalars as in 33X3.
    let tree = "\
+STR
 +DOC ---
  +SEQ
   =VAL <tag:yaml.org,2002:int> :1
   =VAL <tag:yaml.org,2002:int> :-2
   =VAL <tag:yaml.org,2002:int> :33
  -SEQ
 -DOC
-STR
";
    let events = parse_tree(tree);
    assert_eq!(events.len(), 9);
    assert_eq!(events[3].tag.as_deref(), Some("tag:yaml.org,2002:int"));
    assert_eq!(events[3].value.as_deref(), Some("1"));
    assert_eq!(events[4].value.as_deref(), Some("-2"));
    assert_eq!(events[5].value.as_deref(), Some("33"));
}

#[test]
fn tree_literal_block_with_escapes() {
    // Literal block scalar: `|ab\n\n \n` → "ab\n\n \n"
    let events = parse_tree("=VAL |ab\\n\\n \\n\n");
    assert_eq!(events.len(), 1);
    assert_eq!(events[0].value.as_deref(), Some("ab\n\n \n"));
}

#[test]
fn tree_complex_26dv_example() {
    // From 26DV — anchors, aliases, mixed scalar styles.
    let tree = "\
+STR
 +DOC
  +MAP
   =VAL \"top1
   +MAP
    =VAL \"key1
    =VAL &alias1 :scalar1
   -MAP
   =VAL 'top2
   +MAP
    =VAL 'key2
    =VAL &alias2 :scalar2
   -MAP
   =VAL :top3
   +MAP &node3
    =ALI *alias1
    =VAL :scalar3
   -MAP
   =VAL :top4
   +MAP
    =ALI *alias2
    =VAL :scalar4
   -MAP
   =VAL :top5
   =VAL :scalar5
   =VAL :top6
   +MAP
    =VAL &anchor6 'key6
    =VAL :scalar6
   -MAP
  -MAP
 -DOC
-STR
";
    let events = parse_tree(tree);

    // 33 events: +STR +DOC +MAP (outer)
    //   =VAL"top1 +MAP =VAL"key1 =VAL&alias1:scalar1 -MAP
    //   =VAL'top2 +MAP =VAL'key2 =VAL&alias2:scalar2 -MAP
    //   =VAL:top3 +MAP&node3 =ALI*alias1 =VAL:scalar3 -MAP
    //   =VAL:top4 +MAP =ALI*alias2 =VAL:scalar4 -MAP
    //   =VAL:top5 =VAL:scalar5
    //   =VAL:top6 +MAP =VAL&anchor6'key6 =VAL:scalar6 -MAP
    //   -MAP (outer) -DOC -STR
    assert_eq!(events.len(), 33);

    // Check double-quoted scalar.
    assert_eq!(events[3].value.as_deref(), Some("top1"));

    // Check anchor on scalar value.
    let alias1_val = &events[6];
    assert_eq!(alias1_val.anchor.as_deref(), Some("alias1"));
    assert_eq!(alias1_val.value.as_deref(), Some("scalar1"));

    // Check single-quoted scalar.
    assert_eq!(events[8].value.as_deref(), Some("top2"));

    // Check anchor on mapping.
    let map_node3 = &events[14];
    assert_eq!(map_node3.kind, "MappingStart");
    assert_eq!(map_node3.anchor.as_deref(), Some("node3"));

    // Check alias.
    let ali1 = &events[15];
    assert_eq!(ali1.kind, "Alias");
    assert_eq!(ali1.value.as_deref(), Some("alias1"));

    // Check anchor on single-quoted scalar value.
    let anchor6_val = &events[27];
    assert_eq!(anchor6_val.anchor.as_deref(), Some("anchor6"));
    assert_eq!(anchor6_val.value.as_deref(), Some("key6"));
}

#[test]
fn unescape_edge_cases() {
    assert_eq!(unescape_tree_value("a\\"), "a\\");
    assert_eq!(unescape_tree_value("\\q"), "\\q");
    assert_eq!(unescape_tree_value("\\xzz!"), "\\xzz!");
    assert_eq!(unescape_tree_value("\\x4"), "@");
    assert_eq!(unescape_tree_value("\\x+a"), "\n");
    assert_eq!(unescape_tree_value("\\xe9"), "\u{e9}");
}

#[test]
fn tree_lines_with_crlf_and_unknown_lines() {
    let events = parse_tree("+STR\r\n# note\r\n =VAL :x\r\n-STR");
    assert_eq!(events.len(), 3);
    assert_eq!(events[1].value.as_deref(), Some("x"));
    assert_eq!(events[2].kind, "StreamEnd");
}

#[test]
fn tree_val_without_style_is_skipped() {
    assert!(parse_tree("=VAL &a\n").is_empty());
    assert!(parse_tree("=ALI alias\n").is_empty());
}

#[test]
fn tree_flow_indicator_before_properties() {
    let events = parse_tree("+SEQ [] &s <tag:x>\n+MAP {}\n");
    assert_eq!(events[0].anchor.as_deref(), Some("s"));
    assert_eq!(events[0].tag.as_deref(), Some("tag:x"));
    assert!(events[1].anchor.is_none() && events[1].tag.is_none());
}
