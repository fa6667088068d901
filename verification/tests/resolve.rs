use yamalgam::parser::{Event, ParseError, Parser};
use yamalgam::resolve::{NoopResolver, ResolveError, ResolvedEvents, Resolver};

fn parse_all(input: &str) -> Vec<Result<Event, ParseError>> {
    let mut parser = Parser::new(input);
    let mut out = Vec::new();
    while let Some(r) = parser.next() {
        out.push(r);
    }
    out
}

fn upstream(input: &str) -> Vec<Result<Event, ResolveError>> {
    parse_all(input).into_iter().map(|r| r.map_err(ResolveError::Parse)).collect()
}

fn drain<R: Resolver>(mut events: ResolvedEvents<R>) -> Vec<Result<Event, ResolveError>> {
    let mut out = Vec::new();
    while let Some(r) = events.next() {
        out.push(r);
    }
    out
}

#[test]
fn noop_resolver_passes_all_events_through() {
    let input = "key: value";
    let direct: Vec<Event> = parse_all(input).into_iter().collect::<Result<Vec<_>, _>>().unwrap();
    let resolved: Vec<Event> = drain(ResolvedEvents::new(upstream(input), NoopResolver))
        .into_iter()
        .collect::<Result<Vec<_>, _>>()
        .unwrap();
    assert_eq!(direct, resolved);
}

#[test]
fn noop_resolver_preserves_event_count() {
    let input = "- a\n- b\n- c";
    let count = parse_all(input).len();
    let resolved_count = drain(ResolvedEvents::new(upstream(input), NoopResolver)).len();
    assert_eq!(count, resolved_count);
}

#[test]
fn noop_resolver_passes_errors_through() {
    let input = "'unterminated";
    let results = drain(ResolvedEvents::new(upstream(input), NoopResolver));
    assert!(results.iter().any(|r| r.is_err()));
}

#[test]
fn resolve_error_from_parse_error() {
    let input = "'bad";
    let results: Vec<Result<Event, ResolveError>> = upstream(input);
    assert!(results.iter().any(|r| matches!(r, Err(ResolveError::Parse(_)))));
}

/// Drops scalars and doubles every other event.
struct DropAndDouble;

impl Resolver for DropAndDouble {
    fn on_event(&mut self, event: Event) -> Result<Vec<Event>, ResolveError> {
        match event {
            Event::Scalar { .. } => Ok(Vec::new()),
            other => Ok(vec![other.clone(), other]),
        }
    }
}

#[test]
fn resolver_can_drop_and_expand_events() {
    let input = "[a, b]";
    let events: Vec<Event> = parse_all(input).into_iter().map(|r| r.unwrap()).collect();
    let kept: Vec<Event> = events
        .iter()
        .filter(|e| !matches!(e, Event::Scalar { .. }))
        .flat_map(|e| vec![e.clone(), e.clone()])
        .collect();
    let resolved: Vec<Event> = drain(ResolvedEvents::new(upstream(input), DropAndDouble))
        .into_iter()
        .map(|r| r.unwrap())
        .collect();
    assert_eq!(resolved, kept);
}

struct Refuse;

impl Resolver for Refuse {
    fn on_event(&mut self, _event: Event) -> Result<Vec<Event>, ResolveError> {
        Err(ResolveError::Custom("no".to_string()))
    }
}

#[test]
fn resolver_error_is_handed_out() {
    let mut events = ResolvedEvents::new(upstream("a"), Refuse);
    match events.next() {
        Some(Err(e)) => assert_eq!(e.display(), "no"),
        other => panic!("unexpected {:?}", other),
    }
}

#[test]
fn resolve_error_display() {
    let e = ResolveError::Include { path: "a.yaml".to_string(), message: "missing".to_string() };
    assert_eq!(e.display(), "include failed for a.yaml: missing");
    let e = ResolveError::Ref { target: "#/x".to_string(), message: "gone".to_string() };
    assert_eq!(e.display(), "ref resolution failed for \"#/x\": gone");
    let e = ResolveError::Cycle { chain: vec!["a".to_string(), "b".to_string(), "a".to_string()] };
    assert_eq!(e.display(), "circular reference: a -> b -> a");
    let e = ResolveError::LimitExceeded("depth".to_string());
    assert_eq!(e.display(), "limit exceeded: depth");
    let e = ResolveError::from(ParseError::LimitExceeded("x".to_string()));
    assert_eq!(e.display(), "limit exceeded: x");
}

#[test]
fn empty_upstream_gives_nothing() {
    let mut events = ResolvedEvents::new(Vec::new(), NoopResolver);
    assert!(events.next().is_none());
    assert!(events.next().is_none());
}
