use yamalgam::compose::{
    compose_events, compose_str, compose_str_with_config, compose_with_resolver, from_str, from_str_single,
    single_document, ComposeError,
};
use yamalgam::resolve::{ResolveError, Resolver};
use yamalgam::loader::{LoaderConfig, ResourceLimits};
use yamalgam::parser::Event;
use yamalgam::tag_resolution::TagResolution;
use yamalgam::value_tree::{keys_equal, mapping_insert, ValueTree};

/// Structural equality of value trees; a float compares by the number its
/// spelling denotes.
fn same(a: &ValueTree, b: &ValueTree) -> bool {
    match (a, b) {
        (ValueTree::Null, ValueTree::Null) => true,
        (ValueTree::Bool(x), ValueTree::Bool(y)) => x == y,
        (ValueTree::Integer(x), ValueTree::Integer(y)) => x == y,
        (ValueTree::Float(x), ValueTree::Float(y)) => {
            x.parse::<f64>().ok() == y.parse::<f64>().ok()
        }
        (ValueTree::Infinity, ValueTree::Infinity) => true,
        (ValueTree::NegInfinity, ValueTree::NegInfinity) => true,
        (ValueTree::NaN, ValueTree::NaN) => true,
        (ValueTree::Str(x), ValueTree::Str(y)) => x == y,
        (ValueTree::Sequence(x), ValueTree::Sequence(y)) => {
            x.len() == y.len() && x.iter().zip(y.iter()).all(|(p, q)| same(p, q))
        }
        (ValueTree::Mapping(x), ValueTree::Mapping(y)) => {
            x.len() == y.len()
                && x.iter().zip(y.iter()).all(|(p, q)| same(&p.0, &q.0) && same(&p.1, &q.1))
        }
        _ => false,
    }
}

fn s(text: &str) -> ValueTree {
    ValueTree::Str(text.to_string())
}

/// The value under a string key of a mapping.
fn get<'a>(v: &'a ValueTree, key: &str) -> Option<&'a ValueTree> {
    match v {
        ValueTree::Mapping(entries) => entries.iter().find_map(|(k, val)| match k {
            ValueTree::Str(name) if name == key => Some(val),
            _ => None,
        }),
        _ => None,
    }
}

fn get_index(v: &ValueTree, i: usize) -> Option<&ValueTree> {
    match v {
        ValueTree::Sequence(items) => items.get(i),
        _ => None,
    }
}

fn assert_same(actual: Option<&ValueTree>, expected: &ValueTree) {
    match actual {
        Some(a) => assert!(same(a, expected), "expected {expected:?}, got {a:?}"),
        None => panic!("expected {expected:?}, got nothing"),
    }
}

fn compose(input: &str) -> Vec<ValueTree> {
    from_str(input).unwrap()
}

fn compose_one(input: &str) -> ValueTree {
    let docs = compose(input);
    assert_eq!(docs.len(), 1, "expected 1 document, got {}", docs.len());
    docs.into_iter().next().unwrap()
}

fn config_with(limits: ResourceLimits) -> LoaderConfig {
    LoaderConfig { limits, ..LoaderConfig::unchecked() }
}

#[test]
fn lib_empty_document() {
    let docs = compose("");
    assert!(docs.is_empty(), "expected no documents, got {docs:?}");
}

#[test]
fn null_document() {
    assert!(same(&compose_one("~"), &ValueTree::Null));
    assert!(same(&compose_one("null"), &ValueTree::Null));
}

#[test]
fn lib_plain_scalar() {
    assert!(same(&compose_one("hello"), &s("hello")));
}

#[test]
fn quoted_scalar_is_string() {
    assert!(same(&compose_one("'true'"), &s("true")));
    assert!(same(&compose_one("\"42\""), &s("42")));
}

#[test]
fn integer_scalar() {
    assert!(same(&compose_one("42"), &ValueTree::Integer(42)));
}

#[test]
fn float_scalar() {
    let v = compose_one("1.5");
    match v {
        ValueTree::Float(text) => assert_eq!(text.parse::<f64>().unwrap(), 1.5),
        other => panic!("expected a float, got {other:?}"),
    }
}

#[test]
fn bool_scalar() {
    assert!(same(&compose_one("true"), &ValueTree::Bool(true)));
}

#[test]
fn simple_sequence() {
    let val = compose_one("- a\n- b\n- c");
    assert!(same(&val, &ValueTree::Sequence(vec![s("a"), s("b"), s("c")])));
}

#[test]
fn simple_mapping() {
    let val = compose_one("name: Clay\nage: 25");
    assert_same(get(&val, "name"), &s("Clay"));
    assert_same(get(&val, "age"), &ValueTree::Integer(25));
}

#[test]
fn lib_nested_mapping() {
    let val = compose_one("outer:\n  inner: value");
    let outer = get(&val, "outer").expect("missing 'outer'");
    assert_same(get(outer, "inner"), &s("value"));
}

#[test]
fn lib_sequence_of_mappings() {
    let val = compose_one("- name: Alice\n  val: 1\n- name: Bob\n  val: 2");
    let seq = match &val {
        ValueTree::Sequence(items) => items,
        other => panic!("expected sequence, got {other:?}"),
    };
    assert_eq!(seq.len(), 2);
    assert_same(get(&seq[0], "name"), &s("Alice"));
    assert_same(get(&seq[0], "val"), &ValueTree::Integer(1));
    assert_same(get(&seq[1], "name"), &s("Bob"));
    assert_same(get(&seq[1], "val"), &ValueTree::Integer(2));
}

#[test]
fn lib_flow_sequence() {
    let val = compose_one("[1, 2, 3]");
    let expected = ValueTree::Sequence(vec![
        ValueTree::Integer(1),
        ValueTree::Integer(2),
        ValueTree::Integer(3),
    ]);
    assert!(same(&val, &expected));
}

#[test]
fn lib_flow_mapping() {
    let val = compose_one("{a: 1, b: 2}");
    assert_same(get(&val, "a"), &ValueTree::Integer(1));
    assert_same(get(&val, "b"), &ValueTree::Integer(2));
}

#[test]
fn anchor_and_alias() {
    let val = compose_one("a: &anchor hello\nb: *anchor");
    assert_same(get(&val, "a"), &s("hello"));
    assert_same(get(&val, "b"), &s("hello"));
}

#[test]
fn anchor_on_collection() {
    let val = compose_one("a: &items\n  - 1\n  - 2\nb: *items");
    let expected_seq = ValueTree::Sequence(vec![ValueTree::Integer(1), ValueTree::Integer(2)]);
    assert_same(get(&val, "a"), &expected_seq);
    assert_same(get(&val, "b"), &expected_seq);
}

#[test]
fn lib_multiple_documents() {
    let docs = compose("---\na: 1\n---\nb: 2");
    assert_eq!(docs.len(), 2);
    assert_same(get(&docs[0], "a"), &ValueTree::Integer(1));
    assert_same(get(&docs[1], "b"), &ValueTree::Integer(2));
}

#[test]
fn empty_mapping_value() {
    let val = compose_one("key:");
    assert_same(get(&val, "key"), &ValueTree::Null);
}

#[test]
fn block_literal_scalar() {
    let val = compose_one("text: |\n  line1\n  line2\n");
    let text = get(&val, "text").expect("missing 'text'");
    assert!(same(text, &s("line1\nline2\n")));
}

#[test]
fn merge_key() {
    let input = "\
defaults: &defaults
  adapter: postgres
  host: localhost
production:
  <<: *defaults
  host: prod-server
  database: myapp";
    let val = compose_one(input);
    let prod = get(&val, "production").expect("missing 'production'");
    // Merged from defaults.
    assert_same(get(prod, "adapter"), &s("postgres"));
    // Overridden by explicit key.
    assert_same(get(prod, "host"), &s("prod-server"));
    assert_same(get(prod, "database"), &s("myapp"));
}

#[test]
fn undefined_alias_errors() {
    let result = from_str("a: *undefined");
    assert!(result.is_err());
    let err = result.unwrap_err();
    assert!(
        matches!(err, ComposeError::UndefinedAlias(ref name) if name == "undefined"),
        "expected UndefinedAlias, got {err:?}"
    );
}

#[test]
fn anchor_count_limit() {
    let config = config_with(ResourceLimits { max_anchor_count: Some(2), ..ResourceLimits::none() });
    let result = compose_str_with_config("a: &a 1\nb: &b 2\nc: &c 3", &config, TagResolution::Yaml12);
    assert!(matches!(result, Err(ComposeError::LimitExceeded(_))));
}

#[test]
fn alias_expansion_limit() {
    let config =
        config_with(ResourceLimits { max_alias_expansions: Some(1), ..ResourceLimits::none() });
    let result =
        compose_str_with_config("a: &ref val\nb: *ref\nc: *ref", &config, TagResolution::Yaml12);
    assert!(matches!(result, Err(ComposeError::LimitExceeded(_))));
}

#[test]
fn invalid_merge_value_errors() {
    let result = from_str("a: 1\n<<: 2");
    assert!(
        matches!(result, Err(ComposeError::UnexpectedEvent(_))),
        "expected error for non-mapping merge value, got {result:?}"
    );
}

#[test]
fn invalid_merge_sequence_item_errors() {
    let result = from_str("<<:\n  - 42");
    assert!(
        matches!(result, Err(ComposeError::UnexpectedEvent(_))),
        "expected error for non-mapping item in merge sequence, got {result:?}"
    );
}

#[test]
fn compose_with_failsafe_schema() {
    let docs = compose_str("true", TagResolution::Failsafe).unwrap();
    assert_eq!(docs.len(), 1);
    assert!(same(&docs[0], &s("true")));
}

#[test]
fn compose_with_yaml11_booleans() {
    let docs = compose_str("yes", TagResolution::Yaml11).unwrap();
    assert_eq!(docs.len(), 1);
    assert!(same(&docs[0], &ValueTree::Bool(true)));
}

#[test]
fn compose_with_json_schema() {
    let docs = compose_str("True", TagResolution::Json).unwrap();
    assert_eq!(docs.len(), 1);
    assert!(same(&docs[0], &s("True")));
}

#[test]
fn compose_default_is_yaml12() {
    let docs = from_str("yes").unwrap();
    assert_eq!(docs.len(), 1);
    assert!(same(&docs[0], &s("yes")));
}

#[test]
fn parse_simple_mapping() {
    let v = from_str_single("name: yamalgam\nversion: 0.1").unwrap();
    assert_same(get(&v, "name"), &s("yamalgam"));
}

#[test]
fn parse_nested_config() {
    let input = "database:\n  host: localhost\n  port: 5432\n  credentials:\n    user: admin\n    pass: secret";
    let v = from_str_single(input).unwrap();
    let db = get(&v, "database").unwrap();
    assert_same(get(db, "host"), &s("localhost"));
    assert_same(get(db, "port"), &ValueTree::Integer(5432));
    let creds = get(db, "credentials").unwrap();
    assert_same(get(creds, "user"), &s("admin"));
}

#[test]
fn parse_sequence_of_strings() {
    let v = from_str_single("- alpha\n- bravo\n- charlie").unwrap();
    assert_same(get_index(&v, 0), &s("alpha"));
    assert_same(get_index(&v, 2), &s("charlie"));
}

#[test]
fn parse_mixed_types() {
    let input = "str: hello\nint: 42\nfloat: 3.14\nbool: true\nnull_val:";
    let v = from_str_single(input).unwrap();
    assert_same(get(&v, "str"), &s("hello"));
    assert_same(get(&v, "int"), &ValueTree::Integer(42));
    assert_same(get(&v, "float"), &ValueTree::Float("3.14".to_string()));
    assert_same(get(&v, "bool"), &ValueTree::Bool(true));
    assert_same(get(&v, "null_val"), &ValueTree::Null);
}

#[test]
fn parse_multi_document() {
    let docs = from_str("---\na: 1\n---\nb: 2\n...").unwrap();
    assert_eq!(docs.len(), 2);
}

#[test]
fn parse_anchor_alias_roundtrip() {
    let v = from_str_single("default: &cfg\n  timeout: 30\nservice:\n  <<: *cfg\n  name: api").unwrap();
    let svc = get(&v, "service").unwrap();
    assert_same(get(svc, "timeout"), &ValueTree::Integer(30));
    assert_same(get(svc, "name"), &s("api"));
}

#[test]
fn parse_flow_collections() {
    let v = from_str_single("{ports: [80, 443], tls: true}").unwrap();
    let ports = get(&v, "ports").unwrap();
    assert_same(get_index(ports, 0), &ValueTree::Integer(80));
    assert_same(get_index(ports, 1), &ValueTree::Integer(443));
}

#[test]
fn parse_empty_string() {
    let docs = from_str("").unwrap();
    assert!(docs.is_empty());
}

#[test]
fn undefined_alias_is_error() {
    assert!(from_str_single("*nope").is_err());
}

// Further cases of the composer's rules.

#[test]
fn merge_sequence_later_source_overrides() {
    let input = "a: &a {x: 1, y: 1}\nb: &b {x: 2, z: 2}\nc:\n  <<: [*a, *b]\n  w: 0";
    let v = compose_one(input);
    let c = get(&v, "c").unwrap();
    assert_same(get(c, "x"), &ValueTree::Integer(2));
    assert_same(get(c, "y"), &ValueTree::Integer(1));
    assert_same(get(c, "z"), &ValueTree::Integer(2));
    assert_same(get(c, "w"), &ValueTree::Integer(0));
    assert!(get(c, "<<").is_none());
}

#[test]
fn duplicate_key_keeps_first_position_last_value() {
    let v = compose_one("{a: 1, b: 2, a: 3}");
    match &v {
        ValueTree::Mapping(entries) => {
            assert_eq!(entries.len(), 2);
            assert!(same(&entries[0].0, &s("a")));
            assert!(same(&entries[0].1, &ValueTree::Integer(3)));
        }
        other => panic!("expected a mapping, got {other:?}"),
    }
}

#[test]
fn several_documents_are_refused_by_single() {
    let result = from_str_single("---\na\n---\nb");
    match result {
        Err(ComposeError::UnexpectedEvent(msg)) => assert_eq!(msg, "expected 1 document, got 2"),
        other => panic!("expected an error, got {other:?}"),
    }
}

#[test]
fn single_document_of_nothing_is_null() {
    assert!(same(&single_document(Vec::new()).unwrap(), &ValueTree::Null));
}

#[test]
fn stream_must_start_with_stream_start() {
    let result = compose_events(vec![Ok(Event::StreamEnd)], ResourceLimits::none(), TagResolution::Yaml12);
    assert!(matches!(result, Err(ComposeError::UnexpectedEvent(_))));
}

#[test]
fn alias_within_limit_is_accepted() {
    let config =
        config_with(ResourceLimits { max_alias_expansions: Some(2), ..ResourceLimits::none() });
    let docs =
        compose_str_with_config("a: &ref val\nb: *ref\nc: *ref", &config, TagResolution::Yaml12).unwrap();
    assert_same(get(&docs[0], "c"), &s("val"));
}

#[test]
fn nan_keys_never_match() {
    let mut m: Vec<(ValueTree, ValueTree)> = Vec::new();
    mapping_insert(&mut m, ValueTree::NaN, ValueTree::Integer(1));
    mapping_insert(&mut m, ValueTree::NaN, ValueTree::Integer(2));
    assert_eq!(m.len(), 2);
    assert!(!keys_equal(&ValueTree::NaN, &ValueTree::NaN));
    assert!(keys_equal(&s("k"), &s("k")));
}

/// A test resolver that uppercases all plain scalar values.
struct UppercaseResolver;

impl Resolver for UppercaseResolver {
    fn on_event(&mut self, event: Event) -> Result<Vec<Event>, ResolveError> {
        match event {
            Event::Scalar { anchor, tag, value, style, span } => {
                let upper = value.to_uppercase();
                Ok(vec![Event::Scalar { anchor, tag, value: upper, style, span }])
            }
            other => Ok(vec![other]),
        }
    }
}

#[test]
fn custom_resolver_transforms_events() {
    let docs = compose_with_resolver("key: value", UppercaseResolver, TagResolution::Yaml12).unwrap();
    // Both key and value are uppercased since both are plain scalars.
    assert_same(get(&docs[0], "KEY"), &s("VALUE"));
}
