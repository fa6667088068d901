use yamalgam::tag_resolution::{
    FailsafeTagResolver, JsonTagResolver, Scalar, TagResolution, Yaml11TagResolver, Yaml12TagResolver,
};

/// A resolved value, with floats read as `f64`.
#[derive(Debug, Clone, PartialEq)]
enum Value {
    Null,
    Bool(bool),
    Integer(i64),
    Float(f64),
    Text(String),
}

fn to_value(r: Scalar, text: &str) -> Value {
    match r {
        Scalar::Null => Value::Null,
        Scalar::Bool(b) => Value::Bool(b),
        Scalar::Integer(n) => Value::Integer(n),
        Scalar::Float(t) => match t.parse::<f64>() {
            Ok(f) => Value::Float(f),
            Err(_) => Value::Text(text.to_owned()),
        },
        Scalar::Infinity => Value::Float(f64::INFINITY),
        Scalar::NegInfinity => Value::Float(f64::NEG_INFINITY),
        Scalar::NaN => Value::Float(f64::NAN),
        Scalar::Str => Value::Text(text.to_owned()),
    }
}

fn resolve_plain_scalar(s: &str) -> Value {
    to_value(yamalgam::tag_resolution::resolve_plain_scalar(s), s)
}

trait ResolveScalar {
    fn resolve_scalar(&self, s: &str) -> Value;
}

impl ResolveScalar for FailsafeTagResolver {
    fn resolve_scalar(&self, s: &str) -> Value {
        to_value(self.resolve(s), s)
    }
}

impl ResolveScalar for JsonTagResolver {
    fn resolve_scalar(&self, s: &str) -> Value {
        to_value(self.resolve(s), s)
    }
}

impl ResolveScalar for Yaml12TagResolver {
    fn resolve_scalar(&self, s: &str) -> Value {
        to_value(self.resolve(s), s)
    }
}

impl ResolveScalar for Yaml11TagResolver {
    fn resolve_scalar(&self, s: &str) -> Value {
        to_value(self.resolve(s), s)
    }
}

impl ResolveScalar for TagResolution {
    fn resolve_scalar(&self, s: &str) -> Value {
        to_value(self.resolve(s), s)
    }
}


#[test]
fn null_variants() {
    assert_eq!(resolve_plain_scalar("null"), Value::Null);
    assert_eq!(resolve_plain_scalar("Null"), Value::Null);
    assert_eq!(resolve_plain_scalar("NULL"), Value::Null);
    assert_eq!(resolve_plain_scalar("~"), Value::Null);
    assert_eq!(resolve_plain_scalar(""), Value::Null);
}

#[test]
fn bool_true_variants() {
    assert_eq!(resolve_plain_scalar("true"), Value::Bool(true));
    assert_eq!(resolve_plain_scalar("True"), Value::Bool(true));
    assert_eq!(resolve_plain_scalar("TRUE"), Value::Bool(true));
}

#[test]
fn bool_false_variants() {
    assert_eq!(resolve_plain_scalar("false"), Value::Bool(false));
    assert_eq!(resolve_plain_scalar("False"), Value::Bool(false));
    assert_eq!(resolve_plain_scalar("FALSE"), Value::Bool(false));
}

#[test]
fn yaml_11_booleans_are_strings() {
    for s in &[
        "yes", "no", "on", "off", "Yes", "No", "On", "Off", "YES", "NO", "ON", "OFF",
    ] {
        assert_eq!(
            resolve_plain_scalar(s),
            Value::Text((*s).to_owned()),
            "{s:?} should be a string, not a boolean"
        );
    }
}

#[test]
fn integers_decimal() {
    assert_eq!(resolve_plain_scalar("0"), Value::Integer(0));
    assert_eq!(resolve_plain_scalar("42"), Value::Integer(42));
    assert_eq!(resolve_plain_scalar("-17"), Value::Integer(-17));
    assert_eq!(resolve_plain_scalar("+99"), Value::Integer(99));
}

#[test]
fn integers_octal() {
    assert_eq!(resolve_plain_scalar("0o17"), Value::Integer(0o17));
    assert_eq!(resolve_plain_scalar("0o0"), Value::Integer(0));
}

#[test]
fn integers_hex() {
    assert_eq!(resolve_plain_scalar("0xFF"), Value::Integer(0xFF));
    assert_eq!(resolve_plain_scalar("0x0"), Value::Integer(0));
    assert_eq!(resolve_plain_scalar("0xDEAD"), Value::Integer(0xDEAD));
}

#[test]
fn floats() {
    assert_eq!(resolve_plain_scalar("1.0"), Value::Float(1.0));
    assert_eq!(resolve_plain_scalar("-0.5"), Value::Float(-0.5));
    assert_eq!(resolve_plain_scalar("+12.5"), Value::Float(12.5));
    assert_eq!(resolve_plain_scalar("1e10"), Value::Float(1e10));
    assert_eq!(resolve_plain_scalar("1.5e-3"), Value::Float(1.5e-3));
}

#[test]
fn float_special_values() {
    assert_eq!(resolve_plain_scalar(".inf"), Value::Float(f64::INFINITY));
    assert_eq!(resolve_plain_scalar(".Inf"), Value::Float(f64::INFINITY));
    assert_eq!(resolve_plain_scalar(".INF"), Value::Float(f64::INFINITY));
    assert_eq!(resolve_plain_scalar("+.inf"), Value::Float(f64::INFINITY));
    assert_eq!(
        resolve_plain_scalar("-.inf"),
        Value::Float(f64::NEG_INFINITY)
    );

    // NaN doesn't equal itself, so check via is_nan()
    match resolve_plain_scalar(".nan") {
        Value::Float(f) => assert!(f.is_nan(), ".nan should be NaN"),
        other => panic!("expected Float, got {other:?}"),
    }
    match resolve_plain_scalar(".NaN") {
        Value::Float(f) => assert!(f.is_nan(), ".NaN should be NaN"),
        other => panic!("expected Float, got {other:?}"),
    }
    match resolve_plain_scalar(".NAN") {
        Value::Float(f) => assert!(f.is_nan(), ".NAN should be NaN"),
        other => panic!("expected Float, got {other:?}"),
    }
}

#[test]
fn plain_strings() {
    assert_eq!(
        resolve_plain_scalar("hello"),
        Value::Text("hello".to_owned())
    );
    assert_eq!(
        resolve_plain_scalar("hello world"),
        Value::Text("hello world".to_owned())
    );
    assert_eq!(
        resolve_plain_scalar("not-a-number"),
        Value::Text("not-a-number".to_owned())
    );
}

#[test]
fn edge_cases() {
    // Bare signs are strings
    assert_eq!(resolve_plain_scalar("+"), Value::Text("+".to_owned()));
    assert_eq!(resolve_plain_scalar("-"), Value::Text("-".to_owned()));
    // Leading zeros in decimal are still valid integers
    assert_eq!(resolve_plain_scalar("007"), Value::Integer(7));
    // 0x with uppercase X
    assert_eq!(resolve_plain_scalar("0XFF"), Value::Integer(0xFF));
}



#[test]
fn failsafe_always_returns_string() {
    let r = FailsafeTagResolver;
    assert_eq!(r.resolve_scalar("null"), Value::Text("null".into()));
    assert_eq!(r.resolve_scalar("true"), Value::Text("true".into()));
    assert_eq!(r.resolve_scalar("42"), Value::Text("42".into()));
    assert_eq!(r.resolve_scalar("3.14"), Value::Text("3.14".into()));
    assert_eq!(r.resolve_scalar("hello"), Value::Text("hello".into()));
    assert_eq!(r.resolve_scalar(""), Value::Text(String::new()));
    assert_eq!(r.resolve_scalar("~"), Value::Text("~".into()));
}

#[test]
fn json_null() {
    let r = JsonTagResolver;
    assert_eq!(r.resolve_scalar("null"), Value::Null);
    assert_eq!(r.resolve_scalar("Null"), Value::Text("Null".into()));
    assert_eq!(r.resolve_scalar("NULL"), Value::Text("NULL".into()));
    assert_eq!(r.resolve_scalar("~"), Value::Text("~".into()));
    assert_eq!(r.resolve_scalar(""), Value::Text(String::new()));
}

#[test]
fn json_bool() {
    let r = JsonTagResolver;
    assert_eq!(r.resolve_scalar("true"), Value::Bool(true));
    assert_eq!(r.resolve_scalar("false"), Value::Bool(false));
    assert_eq!(r.resolve_scalar("True"), Value::Text("True".into()));
    assert_eq!(r.resolve_scalar("FALSE"), Value::Text("FALSE".into()));
}

#[test]
fn json_integer() {
    let r = JsonTagResolver;
    assert_eq!(r.resolve_scalar("0"), Value::Integer(0));
    assert_eq!(r.resolve_scalar("42"), Value::Integer(42));
    assert_eq!(r.resolve_scalar("-17"), Value::Integer(-17));
    assert_eq!(r.resolve_scalar("0o17"), Value::Text("0o17".into()));
    assert_eq!(r.resolve_scalar("0xFF"), Value::Text("0xFF".into()));
    assert_eq!(r.resolve_scalar("+42"), Value::Text("+42".into()));
    // No leading zeros in JSON integers
    assert_eq!(r.resolve_scalar("017"), Value::Text("017".into()));
    assert_eq!(r.resolve_scalar("00"), Value::Text("00".into()));
}

#[test]
fn json_float() {
    let r = JsonTagResolver;
    assert_eq!(r.resolve_scalar("1.0"), Value::Float(1.0));
    assert_eq!(r.resolve_scalar("-0.5"), Value::Float(-0.5));
    assert_eq!(r.resolve_scalar("1e10"), Value::Float(1e10));
    assert_eq!(r.resolve_scalar("1.5e-3"), Value::Float(1.5e-3));
    assert_eq!(r.resolve_scalar(".inf"), Value::Text(".inf".into()));
    assert_eq!(r.resolve_scalar(".nan"), Value::Text(".nan".into()));
    assert_eq!(r.resolve_scalar(".Inf"), Value::Text(".Inf".into()));
    // No leading zeros in JSON floats
    assert_eq!(r.resolve_scalar("01.5"), Value::Text("01.5".into()));
    assert_eq!(r.resolve_scalar("+1.0"), Value::Text("+1.0".into()));
}

#[test]
fn yaml12_matches_resolve_plain_scalar() {
    let r = Yaml12TagResolver;
    let cases = [
        "null", "Null", "NULL", "~", "", "true", "True", "TRUE", "false", "False", "FALSE",
        "42", "-17", "+99", "0o17", "0xFF", "1.0", "-0.5", "1e10", ".inf", "-.inf", ".nan",
        "hello", "yes", "no", "on", "off",
    ];
    for s in cases {
        let resolver_result = r.resolve_scalar(s);
        let direct_result = resolve_plain_scalar(s);
        // NaN != NaN, so handle that case explicitly
        match (&resolver_result, &direct_result) {
            (Value::Float(a), Value::Float(b)) if a.is_nan() && b.is_nan() => {}
            _ => assert_eq!(
                resolver_result, direct_result,
                "Yaml12TagResolver disagrees with resolve_plain_scalar for {s:?}"
            ),
        }
    }
}

#[test]
fn yaml11_booleans() {
    let r = Yaml11TagResolver;
    assert_eq!(r.resolve_scalar("true"), Value::Bool(true));
    assert_eq!(r.resolve_scalar("True"), Value::Bool(true));
    assert_eq!(r.resolve_scalar("TRUE"), Value::Bool(true));
    assert_eq!(r.resolve_scalar("false"), Value::Bool(false));
    assert_eq!(r.resolve_scalar("False"), Value::Bool(false));
    assert_eq!(r.resolve_scalar("FALSE"), Value::Bool(false));
    assert_eq!(r.resolve_scalar("yes"), Value::Bool(true));
    assert_eq!(r.resolve_scalar("Yes"), Value::Bool(true));
    assert_eq!(r.resolve_scalar("YES"), Value::Bool(true));
    assert_eq!(r.resolve_scalar("no"), Value::Bool(false));
    assert_eq!(r.resolve_scalar("No"), Value::Bool(false));
    assert_eq!(r.resolve_scalar("NO"), Value::Bool(false));
    assert_eq!(r.resolve_scalar("on"), Value::Bool(true));
    assert_eq!(r.resolve_scalar("On"), Value::Bool(true));
    assert_eq!(r.resolve_scalar("ON"), Value::Bool(true));
    assert_eq!(r.resolve_scalar("off"), Value::Bool(false));
    assert_eq!(r.resolve_scalar("Off"), Value::Bool(false));
    assert_eq!(r.resolve_scalar("OFF"), Value::Bool(false));
    assert_eq!(r.resolve_scalar("y"), Value::Bool(true));
    assert_eq!(r.resolve_scalar("Y"), Value::Bool(true));
    assert_eq!(r.resolve_scalar("n"), Value::Bool(false));
    assert_eq!(r.resolve_scalar("N"), Value::Bool(false));
}

#[test]
fn yaml11_null() {
    let r = Yaml11TagResolver;
    assert_eq!(r.resolve_scalar("null"), Value::Null);
    assert_eq!(r.resolve_scalar("Null"), Value::Null);
    assert_eq!(r.resolve_scalar("NULL"), Value::Null);
    assert_eq!(r.resolve_scalar("~"), Value::Null);
    assert_eq!(r.resolve_scalar(""), Value::Null);
}

#[test]
fn yaml11_octal() {
    let r = Yaml11TagResolver;
    assert_eq!(r.resolve_scalar("017"), Value::Integer(15));
    assert_eq!(r.resolve_scalar("0"), Value::Integer(0));
    assert_eq!(r.resolve_scalar("010"), Value::Integer(8));
    // 0o is NOT 1.1 octal
    assert_eq!(r.resolve_scalar("0o17"), Value::Text("0o17".into()));
    // 09 is not valid octal, should be string
    assert_eq!(r.resolve_scalar("09"), Value::Text("09".into()));
}

#[test]
fn yaml11_binary() {
    let r = Yaml11TagResolver;
    assert_eq!(r.resolve_scalar("0b1010"), Value::Integer(10));
    assert_eq!(r.resolve_scalar("0b0"), Value::Integer(0));
    assert_eq!(r.resolve_scalar("0b11111111"), Value::Integer(255));
}

#[test]
fn yaml11_hex() {
    let r = Yaml11TagResolver;
    assert_eq!(r.resolve_scalar("0xFF"), Value::Integer(255));
    assert_eq!(r.resolve_scalar("0x0"), Value::Integer(0));
    assert_eq!(r.resolve_scalar("0xDEAD"), Value::Integer(0xDEAD));
}

#[test]
fn yaml11_underscores_in_numbers() {
    let r = Yaml11TagResolver;
    assert_eq!(r.resolve_scalar("1_000"), Value::Integer(1000));
    assert_eq!(r.resolve_scalar("1_000_000"), Value::Integer(1_000_000));
    assert_eq!(r.resolve_scalar("0xFF_FF"), Value::Integer(0xFFFF));
    assert_eq!(r.resolve_scalar("1_0.5"), Value::Float(10.5));
}

#[test]
fn yaml11_special_floats() {
    let r = Yaml11TagResolver;
    assert_eq!(r.resolve_scalar(".inf"), Value::Float(f64::INFINITY));
    assert_eq!(r.resolve_scalar(".Inf"), Value::Float(f64::INFINITY));
    assert_eq!(r.resolve_scalar("-.inf"), Value::Float(f64::NEG_INFINITY));
    match r.resolve_scalar(".nan") {
        Value::Float(f) => assert!(f.is_nan()),
        other => panic!("expected Float(NaN), got {other:?}"),
    }
}

#[test]
fn yaml11_signed_integers() {
    let r = Yaml11TagResolver;
    assert_eq!(r.resolve_scalar("+42"), Value::Integer(42));
    assert_eq!(r.resolve_scalar("-17"), Value::Integer(-17));
}

#[test]
fn tag_resolution_enum_dispatches_correctly() {
    let r = TagResolution::default();
    assert_eq!(r, TagResolution::Yaml12);
    assert_eq!(r.resolve_scalar("true"), Value::Bool(true));
    assert_eq!(r.resolve_scalar("yes"), Value::Text("yes".into()));

    let r = TagResolution::Failsafe;
    assert_eq!(r.resolve_scalar("true"), Value::Text("true".into()));
    assert_eq!(r.resolve_scalar("42"), Value::Text("42".into()));

    let r = TagResolution::Json;
    assert_eq!(r.resolve_scalar("true"), Value::Bool(true));
    assert_eq!(r.resolve_scalar("True"), Value::Text("True".into()));

    let r = TagResolution::Yaml11;
    assert_eq!(r.resolve_scalar("yes"), Value::Bool(true));
    assert_eq!(r.resolve_scalar("017"), Value::Integer(15));
}

#[test]
fn integer_range_edges() {
    let r = JsonTagResolver;
    assert_eq!(r.resolve_scalar("-9223372036854775808"), Value::Integer(i64::MIN));
    assert_eq!(r.resolve_scalar("9223372036854775807"), Value::Integer(i64::MAX));
    assert_eq!(r.resolve_scalar("9223372036854775808"), Value::Text("9223372036854775808".into()));
    assert_eq!(resolve_plain_scalar("9223372036854775808"), Value::Text("9223372036854775808".into()));
    assert_eq!(resolve_plain_scalar("0x7FFFFFFFFFFFFFFF"), Value::Integer(i64::MAX));
    assert_eq!(resolve_plain_scalar("-0x10"), Value::Integer(-16));
    let y = Yaml11TagResolver;
    assert_eq!(y.resolve_scalar("0b"), Value::Text("0b".into()));
    assert_eq!(y.resolve_scalar("0x_"), Value::Text("0x_".into()));
    assert_eq!(y.resolve_scalar("-1_000.5"), Value::Float(-1000.5));
    assert_eq!(y.resolve_scalar("09"), Value::Text("09".into()));
}

#[test]
fn float_spellings_that_do_not_read_are_strings() {
    assert_eq!(resolve_plain_scalar("1.2.3"), Value::Text("1.2.3".into()));
    assert_eq!(resolve_plain_scalar("0x1e"), Value::Integer(30));
    assert_eq!(resolve_plain_scalar("0xze"), Value::Text("0xze".into()));
    match yamalgam::tag_resolution::resolve_plain_scalar("1.2.3") {
        Scalar::Float(t) => assert_eq!(t, "1.2.3"),
        other => panic!("unexpected {other:?}"),
    }
}
