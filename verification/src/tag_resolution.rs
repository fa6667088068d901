//! Tag resolution of plain scalars: which type an untagged plain scalar
//! takes under the YAML schemas (failsafe, JSON, core 1.2) and under YAML
//! 1.1's rules.
//!
//! Resolution here decides everything but the conversion of float
//! spellings: a [`Scalar::Float`] carries the text that is to be read as a
//! 64-bit float, and is a string if that reading fails.
use vstd::prelude::*;

use crate::lines::{copy_range, starts_with, starts_with_v};
use crate::scan_text::spec_hex_value;
use crate::test_case::eq_str;
use crate::text::{to_chars, vec_to_string};

verus! {

/// How a plain scalar resolves.
#[derive(Debug, Clone, PartialEq, Eq)]
pub enum Scalar {
    /// Null.
    Null,
    /// A boolean.
    Bool(bool),
    /// A signed 64-bit integer.
    Integer(i64),
    /// A float spelling: this text read as an `f64` (a string if it does not
    /// read).
    Float(String),
    /// Positive infinity.
    Infinity,
    /// Negative infinity.
    NegInfinity,
    /// Not a number.
    NaN,
    /// The scalar's own text, as a string.
    Str,
}

/// A resolution as plain values.
pub enum ScalarView {
    /// Null.
    Null,
    /// A boolean.
    Bool(bool),
    /// An integer.
    Integer(int),
    /// A float spelling.
    Float(Seq<char>),
    /// Positive infinity.
    Infinity,
    /// Negative infinity.
    NegInfinity,
    /// Not a number.
    NaN,
    /// The text itself.
    Str,
}

/// The plain view of a resolution.
pub open spec fn scalar_view(s: Scalar) -> ScalarView {
    match s {
        Scalar::Null => ScalarView::Null,
        Scalar::Bool(b) => ScalarView::Bool(b),
        Scalar::Integer(n) => ScalarView::Integer(n as int),
        Scalar::Float(t) => ScalarView::Float(t@),
        Scalar::Infinity => ScalarView::Infinity,
        Scalar::NegInfinity => ScalarView::NegInfinity,
        Scalar::NaN => ScalarView::NaN,
        Scalar::Str => ScalarView::Str,
    }
}

/// Tag resolution scheme.
#[derive(Debug, Clone, Copy, PartialEq, Eq, Hash, Structural)]
pub enum TagResolution {
    /// YAML 1.2 failsafe schema: every scalar is a string.
    Failsafe,
    /// YAML 1.2 JSON schema: strict null, bool, integer and float.
    Json,
    /// YAML 1.2 core schema (the default).
    Yaml12,
    /// YAML 1.1 rules: more booleans, legacy octal, binary, underscores.
    Yaml11,
}

impl Default for TagResolution {
    fn default() -> (r: TagResolution)
        ensures
            r == TagResolution::Yaml12,
    {
        TagResolution::Yaml12
    }
}

/// YAML 1.2 failsafe schema resolver.
#[derive(Debug, Clone, Copy, Default)]
pub struct FailsafeTagResolver;

/// YAML 1.2 JSON schema resolver.
#[derive(Debug, Clone, Copy, Default)]
pub struct JsonTagResolver;

/// YAML 1.2 core schema resolver.
#[derive(Debug, Clone, Copy, Default)]
pub struct Yaml12TagResolver;

/// YAML 1.1 resolver.
#[derive(Debug, Clone, Copy, Default)]
pub struct Yaml11TagResolver;

/// The value of character `c` as a digit in `base` (2, 8, 10 or 16).
pub open spec fn digit_in(c: char, base: nat) -> Option<nat> {
    match spec_hex_value(c) {
        Some(v) => if (v as nat) < base {
            Some(v as nat)
        } else {
            None
        },
        None => None,
    }
}

/// Whether every character of `s` is a digit in `base`.
pub open spec fn all_in_base(s: Seq<char>, base: nat) -> bool {
    forall|i: int| 0 <= i < s.len() ==> (#[trigger] digit_in(s[i], base)) is Some
}

/// The value of the digits `s` in `base`.
pub open spec fn base_value(s: Seq<char>, base: nat) -> nat
    decreases s.len(),
{
    if s.len() == 0 {
        0
    } else {
        base * base_value(s.drop_last(), base) + match digit_in(s.last(), base) {
            Some(d) => d,
            None => 0,
        }
    }
}

/// `n`, negated when `neg`.
pub open spec fn signed(neg: bool, n: nat) -> int {
    if neg {
        -(n as int)
    } else {
        n as int
    }
}

/// The largest `i64`.
pub open spec fn i64_max() -> nat {
    0x7FFF_FFFF_FFFF_FFFF
}

/// Null spellings of the YAML 1.2 core schema and YAML 1.1.
pub open spec fn is_null_word(s: Seq<char>) -> bool {
    s.len() == 0 || s == "~"@ || s == "null"@ || s == "Null"@ || s == "NULL"@
}

/// The special float spellings.
pub open spec fn special_float(s: Seq<char>) -> Option<ScalarView> {
    if s == ".inf"@ || s == ".Inf"@ || s == ".INF"@ || s == "+.inf"@ || s == "+.Inf"@ || s == "+.INF"@ {
        Some(ScalarView::Infinity)
    } else if s == "-.inf"@ || s == "-.Inf"@ || s == "-.INF"@ {
        Some(ScalarView::NegInfinity)
    } else if s == ".nan"@ || s == ".NaN"@ || s == ".NAN"@ {
        Some(ScalarView::NaN)
    } else {
        None
    }
}

/// The sign and the rest of a numeric spelling: a leading `+` or `-` is
/// taken off.
pub open spec fn sign_body(s: Seq<char>) -> (bool, Seq<char>) {
    if s.len() > 0 && s[0] == '+' {
        (false, s.drop_first())
    } else if s.len() > 0 && s[0] == '-' {
        (true, s.drop_first())
    } else {
        (false, s)
    }
}

/// The integer that nonempty digits `d` in `base` give with a sign, when
/// it fits in `i64`.
pub open spec fn radix_int(neg: bool, d: Seq<char>, base: nat) -> Option<int> {
    if d.len() == 0 || !all_in_base(d, base) || base_value(d, base) > i64_max() {
        None
    } else {
        Some(signed(neg, base_value(d, base)))
    }
}

/// Whether `c` is an ASCII decimal digit.
pub open spec fn is_digit(c: char) -> bool {
    '0' <= c <= '9'
}

/// Whether `s` holds `.`, `e` or `E`.
pub open spec fn has_float_mark(s: Seq<char>) -> bool {
    s.contains('.') || s.contains('e') || s.contains('E')
}

/// A YAML 1.2 core integer: an optional sign, then `0o` and octal digits,
/// `0x`/`0X` and hex digits, or decimal digits; `None` when it is not one
/// or does not fit.
pub open spec fn core_integer(s: Seq<char>) -> Option<int> {
    let (neg, body) = sign_body(s);
    if s.len() == 0 || body.len() == 0 {
        None
    } else if starts_with(body, "0o"@) {
        radix_int(neg, body.skip(2), 8)
    } else if starts_with(body, "0x"@) || starts_with(body, "0X"@) {
        radix_int(neg, body.skip(2), 16)
    } else if all_in_base(body, 10) {
        radix_int(neg, body, 10)
    } else {
        None
    }
}

/// A YAML 1.2 core float spelling: an optional sign, a digit, and a `.`,
/// `e` or `E` somewhere.
pub open spec fn looks_like_float(s: Seq<char>) -> bool {
    let rest = if s.len() > 0 && (s[0] == '+' || s[0] == '-') {
        s.drop_first()
    } else {
        s
    };
    rest.len() > 0 && is_digit(rest[0]) && has_float_mark(s)
}

/// YAML 1.2 core schema resolution of a plain scalar.
pub open spec fn resolve_core(s: Seq<char>) -> ScalarView {
    if is_null_word(s) {
        ScalarView::Null
    } else if s == "true"@ || s == "True"@ || s == "TRUE"@ {
        ScalarView::Bool(true)
    } else if s == "false"@ || s == "False"@ || s == "FALSE"@ {
        ScalarView::Bool(false)
    } else if special_float(s) is Some {
        special_float(s)->0
    } else {
        match core_integer(s) {
            Some(n) => ScalarView::Integer(n),
            None => if looks_like_float(s) {
                ScalarView::Float(s)
            } else {
                ScalarView::Str
            },
        }
    }
}

/// A JSON schema number: `-?(0|[1-9][0-9]*)` as an integer that fits in
/// `i64`, or, with `.`, `e` or `E`, a float spelling.
pub open spec fn json_number(s: Seq<char>) -> Option<ScalarView> {
    let neg = s.len() > 0 && s[0] == '-';
    let body = if neg {
        s.drop_first()
    } else {
        s
    };
    if s.len() == 0 || !(body.len() > 0 && is_digit(body[0])) {
        None
    } else if body.len() > 1 && body[0] == '0' && is_digit(body[1]) {
        None
    } else if has_float_mark(s) {
        Some(ScalarView::Float(s))
    } else if !all_in_base(body, 10) {
        None
    } else {
        let n = signed(neg, base_value(body, 10));
        if -(i64_max() as int) - 1 <= n <= i64_max() {
            Some(ScalarView::Integer(n))
        } else {
            None
        }
    }
}

/// JSON schema resolution of a plain scalar.
pub open spec fn resolve_json(s: Seq<char>) -> ScalarView {
    if s == "null"@ {
        ScalarView::Null
    } else if s == "true"@ {
        ScalarView::Bool(true)
    } else if s == "false"@ {
        ScalarView::Bool(false)
    } else {
        match json_number(s) {
            Some(v) => v,
            None => ScalarView::Str,
        }
    }
}

/// `s` without underscores.
pub open spec fn no_underscores(s: Seq<char>) -> Seq<char>
    decreases s.len(),
{
    if s.len() == 0 {
        seq![]
    } else if s.last() == '_' {
        no_underscores(s.drop_last())
    } else {
        no_underscores(s.drop_last()).push(s.last())
    }
}

/// A YAML 1.1 number: an optional sign, then `0x` hex, `0b` binary or
/// `0`-prefixed octal digits (underscores allowed), or a decimal integer,
/// or (with `.`, `e` or `E`) a float spelling starting with a digit.
pub open spec fn yaml11_number(s: Seq<char>) -> Option<ScalarView> {
    let (neg, body) = sign_body(s);
    if s.len() == 0 || body.len() == 0 {
        None
    } else if !(is_digit(body[0]) || body[0] == '.') {
        None
    } else if body[0] == '0' && body.len() > 1 && (body[1] == 'x' || body[1] == 'X') {
        let c = no_underscores(body.skip(2));
        match radix_int(neg, c, 16) {
            Some(n) => Some(ScalarView::Integer(n)),
            None => None,
        }
    } else if body[0] == '0' && body.len() > 1 && (body[1] == 'b' || body[1] == 'B') {
        let c = no_underscores(body.skip(2));
        match radix_int(neg, c, 2) {
            Some(n) => Some(ScalarView::Integer(n)),
            None => None,
        }
    } else if body[0] == '0' && body.len() > 1 && (is_digit(body[1]) || body[1] == '_') {
        let c = no_underscores(body.skip(1));
        match radix_int(neg, c, 8) {
            Some(n) => Some(ScalarView::Integer(n)),
            None => None,
        }
    } else {
        let c = no_underscores(body);
        if c.len() == 0 {
            None
        } else if has_float_mark(c) {
            if !is_digit(c[0]) {
                None
            } else {
                Some(ScalarView::Float(if neg {
                    seq!['-'] + c
                } else {
                    c
                }))
            }
        } else {
            match radix_int(neg, c, 10) {
                Some(n) => Some(ScalarView::Integer(n)),
                None => None,
            }
        }
    }
}

/// The YAML 1.1 booleans.
pub open spec fn yaml11_bool(s: Seq<char>) -> Option<bool> {
    if s == "true"@ || s == "True"@ || s == "TRUE"@ || s == "yes"@ || s == "Yes"@ || s == "YES"@
        || s == "on"@ || s == "On"@ || s == "ON"@ || s == "y"@ || s == "Y"@ {
        Some(true)
    } else if s == "false"@ || s == "False"@ || s == "FALSE"@ || s == "no"@ || s == "No"@ || s
        == "NO"@ || s == "off"@ || s == "Off"@ || s == "OFF"@ || s == "n"@ || s == "N"@ {
        Some(false)
    } else {
        None
    }
}

/// YAML 1.1 resolution of a plain scalar.
pub open spec fn resolve_yaml11(s: Seq<char>) -> ScalarView {
    if is_null_word(s) {
        ScalarView::Null
    } else if yaml11_bool(s) is Some {
        ScalarView::Bool(yaml11_bool(s)->0)
    } else if special_float(s) is Some {
        special_float(s)->0
    } else {
        match yaml11_number(s) {
            Some(v) => v,
            None => ScalarView::Str,
        }
    }
}

/// Resolution under a scheme.
pub open spec fn resolve_with(t: TagResolution, s: Seq<char>) -> ScalarView {
    match t {
        TagResolution::Failsafe => ScalarView::Str,
        TagResolution::Json => resolve_json(s),
        TagResolution::Yaml12 => resolve_core(s),
        TagResolution::Yaml11 => resolve_yaml11(s),
    }
}

/// Taking underscores out of a spelling without any leaves it unchanged.
proof fn lemma_no_underscores_id(s: Seq<char>)
    requires
        forall|k: int| 0 <= k < s.len() ==> s[k] != '_',
    ensures
        no_underscores(s) == s,
    decreases s.len(),
{
    if s.len() > 0 {
        lemma_no_underscores_id(s.drop_last());
        assert(s.drop_last().push(s.last()) =~= s);
    }
}

/// A spelling that starts with a digit is no null word, no YAML 1.1
/// boolean and no special float.
proof fn lemma_digit_start_is_no_word(s: Seq<char>)
    requires
        s.len() > 0,
        is_digit(s[0]),
    ensures
        !is_null_word(s),
        yaml11_bool(s) is None,
        special_float(s) is None,
{
    reveal_strlit("~");
    reveal_strlit("null");
    reveal_strlit("Null");
    reveal_strlit("NULL");
    reveal_strlit("true");
    reveal_strlit("True");
    reveal_strlit("TRUE");
    reveal_strlit("yes");
    reveal_strlit("Yes");
    reveal_strlit("YES");
    reveal_strlit("on");
    reveal_strlit("On");
    reveal_strlit("ON");
    reveal_strlit("y");
    reveal_strlit("Y");
    reveal_strlit("false");
    reveal_strlit("False");
    reveal_strlit("FALSE");
    reveal_strlit("no");
    reveal_strlit("No");
    reveal_strlit("NO");
    reveal_strlit("off");
    reveal_strlit("Off");
    reveal_strlit("OFF");
    reveal_strlit("n");
    reveal_strlit("N");
    reveal_strlit(".inf");
    reveal_strlit(".Inf");
    reveal_strlit(".INF");
    reveal_strlit("+.inf");
    reveal_strlit("+.Inf");
    reveal_strlit("+.INF");
    reveal_strlit("-.inf");
    reveal_strlit("-.Inf");
    reveal_strlit("-.INF");
    reveal_strlit(".nan");
    reveal_strlit(".NaN");
    reveal_strlit(".NAN");
}

/// Under YAML 1.1, a decimal spelling with a fraction (digits, a `.`,
/// digits) whose integer part is `0` or does not start with `0` is a float
/// with that spelling: so `0.5` and `0.25` are floats, not octal integers.
pub proof fn lemma_yaml11_decimal_fraction_is_float(a: Seq<char>, f: Seq<char>)
    requires
        a.len() > 0,
        forall|k: int| 0 <= k < a.len() ==> is_digit(#[trigger] a[k]),
        forall|k: int| 0 <= k < f.len() ==> is_digit(#[trigger] f[k]),
        a.len() == 1 || a[0] != '0',
    ensures
        resolve_yaml11(a + seq!['.'] + f) == ScalarView::Float(a + seq!['.'] + f),
        resolve_with(TagResolution::Yaml11, a + seq!['.'] + f) == ScalarView::Float(a + seq!['.'] + f),
{
    let s = a + seq!['.'] + f;
    assert(s[0] == a[0]);
    assert(is_digit(s[0]));
    lemma_digit_start_is_no_word(s);
    assert forall|k: int| 0 <= k < s.len() implies s[k] != '_' by {
        if k < a.len() {
            assert(s[k] == a[k]);
        } else if k > a.len() {
            assert(s[k] == f[k - a.len() - 1]);
        }
    }
    lemma_no_underscores_id(s);
    assert(sign_body(s) == (false, s));
    assert(s[a.len() as int] == '.');
    assert(s.contains('.'));
    assert(has_float_mark(s));
    if a.len() == 1 && a[0] == '0' {
        assert(s[1] == '.');
    }
}

proof fn lemma_base_value_prefix(d: Seq<char>, k: int, base: nat)
    requires
        0 <= k <= d.len(),
        base >= 1,
        all_in_base(d, base),
    ensures
        base_value(d.take(k), base) <= base_value(d, base),
    decreases d.len() - k,
{
    if k < d.len() {
        lemma_base_value_prefix(d, k + 1, base);
        let t = d.take(k + 1);
        assert(t.drop_last() =~= d.take(k));
        let x = base_value(d.take(k), base);
        assert(base * x >= x) by (nonlinear_arith)
            requires
                base >= 1,
                x >= 0,
        ;
    } else {
        assert(d.take(k) =~= d);
    }
}

/// The value of the digit `c` in `base`, if it is one.
fn digit_value(c: char, base: u32) -> (r: Option<u32>)
    ensures
        (match r {
            Some(v) => Some(v as nat),
            None => None,
        }) == digit_in(c, base as nat),
        r matches Some(v) ==> v < base,
{
    match crate::scan_text::hex_value(c) {
        Some(v) => if v < base {
            Some(v)
        } else {
            None
        },
        None => None,
    }
}

/// The value of nonempty digits `d` in `base` when they all are digits and
/// the value is at most `limit`.
fn digits_upto(d: &[char], base: u32, limit: u64) -> (r: Option<u64>)
    requires
        2 <= base <= 16,
        limit <= 0x8000_0000_0000_0000u64,
    ensures
        r is Some <==> (d@.len() > 0 && all_in_base(d@, base as nat) && base_value(d@, base as nat) <= limit),
        r matches Some(v) ==> v as nat == base_value(d@, base as nat),
{
    if d.len() == 0 {
        return None;
    }
    let mut acc: u64 = 0;
    let mut i: usize = 0;
    proof {
        assert(d@.take(0) =~= Seq::<char>::empty());
    }
    while i < d.len()
        invariant
            2 <= base <= 16,
            limit <= 0x8000_0000_0000_0000u64,
            i <= d@.len(),
            acc as nat == base_value(d@.take(i as int), base as nat),
            acc <= limit,
            all_in_base(d@.take(i as int), base as nat),
        decreases d@.len() - i,
    {
        let ghost t = d@.take(i + 1);
        proof {
            assert(t.drop_last() =~= d@.take(i as int));
            assert(t.last() == d@[i as int]);
        }
        match digit_value(d[i], base) {
            None => {
                proof {
                    assert(digit_in(d@[i as int], base as nat) is None);
                }
                return None;
            },
            Some(v) => {
                proof {
                    assert((acc as int) * (base as int) <= 0x8000_0000_0000_0000 * 16) by (nonlinear_arith)
                        requires
                            acc <= 0x8000_0000_0000_0000u64,
                            base <= 16,
                    ;
                }
                let next: u128 = (acc as u128) * (base as u128) + (v as u128);
                proof {
                    assert((base as nat) * (acc as nat) == (acc as int) * (base as int)) by (nonlinear_arith);
                    assert(digit_in(t.last(), base as nat) == Some(v as nat));
                    assert(base_value(t, base as nat) == (base as nat) * base_value(d@.take(i as int), base as nat) + v);
                    assert(next as nat == base_value(t, base as nat));
                }
                if next > (limit as u128) {
                    proof {
                        if all_in_base(d@, base as nat) {
                            lemma_base_value_prefix(d@, i + 1, base as nat);
                        }
                    }
                    return None;
                }
                acc = next as u64;
                proof {
                    assert forall|j: int| 0 <= j < t.len() implies (#[trigger] digit_in(t[j], base as nat)) is Some by {
                        if j < i {
                            assert(t[j] == d@.take(i as int)[j]);
                        }
                    }
                }
            },
        }
        i = i + 1;
    }
    proof {
        assert(d@.take(i as int) =~= d@);
    }
    Some(acc)
}

/// The integer of digits in `base` with a sign; see [`radix_int`].
fn radix_value(d: &[char], base: u32, neg: bool) -> (r: Option<i64>)
    requires
        2 <= base <= 16,
    ensures
        (match r {
            Some(v) => Some(v as int),
            None => None,
        }) == radix_int(neg, d@, base as nat),
{
    match digits_upto(d, base, 0x7FFF_FFFF_FFFF_FFFFu64) {
        Some(v) => {
            let m = v as i64;
            if neg {
                Some(-m)
            } else {
                Some(m)
            }
        },
        None => None,
    }
}

/// Whether `s` holds `c`.
fn contains_char(s: &[char], c: char) -> (r: bool)
    ensures
        r == s@.contains(c),
{
    let mut i: usize = 0;
    while i < s.len()
        invariant
            i <= s@.len(),
            forall|j: int| 0 <= j < i ==> s@[j] != c,
        decreases s@.len() - i,
    {
        if s[i] == c {
            return true;
        }
        i = i + 1;
    }
    false
}

fn has_float_mark_v(s: &[char]) -> (r: bool)
    ensures
        r == has_float_mark(s@),
{
    contains_char(s, '.') || contains_char(s, 'e') || contains_char(s, 'E')
}

/// `s` without underscores.
fn strip_underscores(s: &[char]) -> (r: Vec<char>)
    ensures
        r@ == no_underscores(s@),
{
    let mut out: Vec<char> = Vec::new();
    let mut i: usize = 0;
    while i < s.len()
        invariant
            i <= s@.len(),
            out@ == no_underscores(s@.take(i as int)),
        decreases s@.len() - i,
    {
        proof {
            assert(s@.take(i + 1).drop_last() =~= s@.take(i as int));
            assert(s@.take(i + 1).last() == s@[i as int]);
        }
        if s[i] != '_' {
            out.push(s[i]);
        }
        i = i + 1;
    }
    proof {
        assert(s@.take(i as int) =~= s@);
    }
    out
}

/// The sign and the rest of a numeric spelling.
fn sign_body_v(s: &[char]) -> (r: (bool, Vec<char>))
    ensures
        (r.0, r.1@) == sign_body(s@),
{
    if s.len() > 0 && (s[0] == '+' || s[0] == '-') {
        let b = copy_range(s, 1, s.len());
        proof {
            assert(b@ =~= s@.drop_first());
        }
        (s[0] == '-', b)
    } else {
        let b = copy_range(s, 0, s.len());
        proof {
            assert(b@ =~= s@);
        }
        (false, b)
    }
}

fn is_null_word_v(s: &[char]) -> (r: bool)
    ensures
        r == is_null_word(s@),
{
    s.len() == 0 || eq_str(s, "~") || eq_str(s, "null") || eq_str(s, "Null") || eq_str(s, "NULL")
}

fn special_float_v(s: &[char]) -> (r: Option<Scalar>)
    ensures
        (match r {
            Some(x) => Some(scalar_view(x)),
            None => None,
        }) == special_float(s@),
{
    if eq_str(s, ".inf") || eq_str(s, ".Inf") || eq_str(s, ".INF") || eq_str(s, "+.inf") || eq_str(s, "+.Inf")
        || eq_str(s, "+.INF") {
        Some(Scalar::Infinity)
    } else if eq_str(s, "-.inf") || eq_str(s, "-.Inf") || eq_str(s, "-.INF") {
        Some(Scalar::NegInfinity)
    } else if eq_str(s, ".nan") || eq_str(s, ".NaN") || eq_str(s, ".NAN") {
        Some(Scalar::NaN)
    } else {
        None
    }
}

fn core_integer_v(s: &[char]) -> (r: Option<i64>)
    ensures
        (match r {
            Some(v) => Some(v as int),
            None => None,
        }) == core_integer(s@),
{
    if s.len() == 0 {
        return None;
    }
    let (neg, body) = sign_body_v(s);
    if body.len() == 0 {
        return None;
    }
    if starts_with_v(body.as_slice(), "0o") {
        proof {
            reveal_strlit("0o");
        }
        let d = copy_range(body.as_slice(), 2, body.len());
        proof {
            assert(d@ =~= body@.skip(2));
        }
        return radix_value(d.as_slice(), 8, neg);
    }
    if starts_with_v(body.as_slice(), "0x") || starts_with_v(body.as_slice(), "0X") {
        proof {
            reveal_strlit("0x");
            reveal_strlit("0X");
        }
        let d = copy_range(body.as_slice(), 2, body.len());
        proof {
            assert(d@ =~= body@.skip(2));
        }
        return radix_value(d.as_slice(), 16, neg);
    }
    let mut all = true;
    let mut i: usize = 0;
    while i < body.len()
        invariant
            i <= body@.len(),
            all == (forall|j: int| 0 <= j < i ==> (#[trigger] digit_in(body@[j], 10)) is Some),
        decreases body@.len() - i,
    {
        if digit_value(body[i], 10).is_none() {
            all = false;
        }
        i = i + 1;
    }
    if all {
        radix_value(body.as_slice(), 10, neg)
    } else {
        None
    }
}

fn looks_like_float_v(s: &[char]) -> (r: bool)
    ensures
        r == looks_like_float(s@),
{
    let rest = if s.len() > 0 && (s[0] == '+' || s[0] == '-') {
        let b = copy_range(s, 1, s.len());
        proof {
            assert(b@ =~= s@.drop_first());
        }
        b
    } else {
        let b = copy_range(s, 0, s.len());
        proof {
            assert(b@ =~= s@);
        }
        b
    };
    rest.len() > 0 && '0' <= rest[0] && rest[0] <= '9' && has_float_mark_v(s)
}

fn float_text(v: Vec<char>) -> (r: Scalar)
    ensures
        scalar_view(r) == ScalarView::Float(v@),
{
    Scalar::Float(vec_to_string(&v))
}

impl FailsafeTagResolver {
    /// Every plain scalar is a string.
    pub fn resolve(&self, value: &str) -> (r: Scalar)
        ensures
            r == Scalar::Str,
    {
        Scalar::Str
    }
}

impl Yaml12TagResolver {
    /// YAML 1.2 core schema resolution; see [`resolve_core`].
    pub fn resolve(&self, value: &str) -> (r: Scalar)
        ensures
            scalar_view(r) == resolve_core(value@),
    {
        resolve_plain_scalar(value)
    }
}

/// YAML 1.2 core schema resolution of a plain scalar: null (`~`, `null`,
/// `Null`, `NULL` or nothing), booleans (`true`/`false` in three
/// spellings), `.inf`/`.nan` forms, integers (decimal, `0o` octal, `0x`
/// hex) that fit in `i64`, float spellings; anything else is a string.
pub fn resolve_plain_scalar(value: &str) -> (r: Scalar)
    ensures
        scalar_view(r) == resolve_core(value@),
{
    let s = to_chars(value);
    let v = s.as_slice();
    if is_null_word_v(v) {
        return Scalar::Null;
    }
    if eq_str(v, "true") || eq_str(v, "True") || eq_str(v, "TRUE") {
        return Scalar::Bool(true);
    }
    if eq_str(v, "false") || eq_str(v, "False") || eq_str(v, "FALSE") {
        return Scalar::Bool(false);
    }
    match special_float_v(v) {
        Some(x) => {
            return x;
        },
        None => {},
    }
    match core_integer_v(v) {
        Some(n) => Scalar::Integer(n),
        None => if looks_like_float_v(v) {
            float_text(s)
        } else {
            Scalar::Str
        },
    }
}

/// A JSON schema number; see [`json_number`].
fn json_number_v(s: &[char]) -> (r: Option<Scalar>)
    ensures
        (match r {
            Some(x) => Some(scalar_view(x)),
            None => None,
        }) == json_number(s@),
{
    if s.len() == 0 {
        return None;
    }
    let neg = s[0] == '-';
    let body = if neg {
        copy_range(s, 1, s.len())
    } else {
        copy_range(s, 0, s.len())
    };
    proof {
        if neg {
            assert(body@ =~= s@.drop_first());
        } else {
            assert(body@ =~= s@);
        }
    }
    if !(body.len() > 0 && '0' <= body[0] && body[0] <= '9') {
        return None;
    }
    if body.len() > 1 && body[0] == '0' && '0' <= body[1] && body[1] <= '9' {
        return None;
    }
    if has_float_mark_v(s) {
        let t = copy_range(s, 0, s.len());
        proof {
            assert(t@ =~= s@);
        }
        return Some(float_text(t));
    }
    let limit: u64 = if neg {
        0x8000_0000_0000_0000u64
    } else {
        0x7FFF_FFFF_FFFF_FFFFu64
    };
    match digits_upto(body.as_slice(), 10, limit) {
        Some(m) => {
            let n: i64 = if neg {
                if m == 0x8000_0000_0000_0000u64 {
                    i64::MIN
                } else {
                    -(m as i64)
                }
            } else {
                m as i64
            };
            Some(Scalar::Integer(n))
        },
        None => None,
    }
}

impl JsonTagResolver {
    /// JSON schema resolution: exactly `null`, `true`, `false`, JSON
    /// integers that fit in `i64` and JSON float spellings; anything else is
    /// a string.
    pub fn resolve(&self, value: &str) -> (r: Scalar)
        ensures
            scalar_view(r) == resolve_json(value@),
    {
        let s = to_chars(value);
        let v = s.as_slice();
        if eq_str(v, "null") {
            return Scalar::Null;
        }
        if eq_str(v, "true") {
            return Scalar::Bool(true);
        }
        if eq_str(v, "false") {
            return Scalar::Bool(false);
        }
        match json_number_v(v) {
            Some(x) => x,
            None => Scalar::Str,
        }
    }
}

fn int_scalar(r: Option<i64>) -> (x: Option<Scalar>)
    ensures
        (match x {
            Some(v) => Some(scalar_view(v)),
            None => None,
        }) == (match (match r {
            Some(v) => Some(v as int),
            None => None,
        }) {
            Some(n) => Some(ScalarView::Integer(n)),
            None => None,
        }),
{
    match r {
        Some(n) => Some(Scalar::Integer(n)),
        None => None,
    }
}

/// A YAML 1.1 number; see [`yaml11_number`].
fn yaml11_number_v(s: &[char]) -> (r: Option<Scalar>)
    ensures
        (match r {
            Some(x) => Some(scalar_view(x)),
            None => None,
        }) == yaml11_number(s@),
{
    if s.len() == 0 {
        return None;
    }
    let (neg, body) = sign_body_v(s);
    if body.len() == 0 {
        return None;
    }
    let first = body[0];
    if !(('0' <= first && first <= '9') || first == '.') {
        return None;
    }
    if first == '0' && body.len() > 1 {
        let second = body[1];
        if second == 'x' || second == 'X' {
            let rest = copy_range(body.as_slice(), 2, body.len());
            let c = strip_underscores(rest.as_slice());
            proof {
                assert(rest@ =~= body@.skip(2));
            }
            return int_scalar(radix_value(c.as_slice(), 16, neg));
        }
        if second == 'b' || second == 'B' {
            let rest = copy_range(body.as_slice(), 2, body.len());
            let c = strip_underscores(rest.as_slice());
            proof {
                assert(rest@ =~= body@.skip(2));
            }
            return int_scalar(radix_value(c.as_slice(), 2, neg));
        }
        if ('0' <= second && second <= '9') || second == '_' {
            let rest = copy_range(body.as_slice(), 1, body.len());
            let c = strip_underscores(rest.as_slice());
            proof {
                assert(rest@ =~= body@.skip(1));
            }
            return int_scalar(radix_value(c.as_slice(), 8, neg));
        }
    }
    let c = strip_underscores(body.as_slice());
    if c.len() == 0 {
        return None;
    }
    if has_float_mark_v(c.as_slice()) {
        if !('0' <= c[0] && c[0] <= '9') {
            return None;
        }
        if neg {
            let mut full: Vec<char> = Vec::new();
            full.push('-');
            let mut i: usize = 0;
            while i < c.len()
                invariant
                    i <= c@.len(),
                    full@ == seq!['-'] + c@.take(i as int),
                decreases c@.len() - i,
            {
                full.push(c[i]);
                i = i + 1;
                proof {
                    assert(full@ =~= seq!['-'] + c@.take(i as int));
                }
            }
            proof {
                assert(c@.take(i as int) =~= c@);
            }
            return Some(float_text(full));
        } else {
            return Some(float_text(c));
        }
    }
    int_scalar(radix_value(c.as_slice(), 10, neg))
}

fn yaml11_bool_v(s: &[char]) -> (r: Option<bool>)
    ensures
        r == yaml11_bool(s@),
{
    if eq_str(s, "true") || eq_str(s, "True") || eq_str(s, "TRUE") || eq_str(s, "yes") || eq_str(s, "Yes")
        || eq_str(s, "YES") || eq_str(s, "on") || eq_str(s, "On") || eq_str(s, "ON") || eq_str(s, "y")
        || eq_str(s, "Y") {
        Some(true)
    } else if eq_str(s, "false") || eq_str(s, "False") || eq_str(s, "FALSE") || eq_str(s, "no") || eq_str(
        s,
        "No",
    ) || eq_str(s, "NO") || eq_str(s, "off") || eq_str(s, "Off") || eq_str(s, "OFF") || eq_str(s, "n")
        || eq_str(s, "N") {
        Some(false)
    } else {
        None
    }
}

impl Yaml11TagResolver {
    /// YAML 1.1 resolution: the core nulls, booleans extended with
    /// `yes`/`no`, `on`/`off`, `y`/`n` spellings, `0`-prefixed octal, `0b`
    /// binary and `0x` hex with underscores, decimal integers and float
    /// spellings with underscores; anything else is a string.
    pub fn resolve(&self, value: &str) -> (r: Scalar)
        ensures
            scalar_view(r) == resolve_yaml11(value@),
    {
        let s = to_chars(value);
        let v = s.as_slice();
        if is_null_word_v(v) {
            return Scalar::Null;
        }
        match yaml11_bool_v(v) {
            Some(b) => {
                return Scalar::Bool(b);
            },
            None => {},
        }
        match special_float_v(v) {
            Some(x) => {
                return x;
            },
            None => {},
        }
        match yaml11_number_v(v) {
            Some(x) => x,
            None => Scalar::Str,
        }
    }
}

impl TagResolution {
    /// Resolution under this scheme.
    pub fn resolve(&self, value: &str) -> (r: Scalar)
        ensures
            scalar_view(r) == resolve_with(*self, value@),
    {
        match self {
            TagResolution::Failsafe => FailsafeTagResolver.resolve(value),
            TagResolution::Json => JsonTagResolver.resolve(value),
            TagResolution::Yaml12 => Yaml12TagResolver.resolve(value),
            TagResolution::Yaml11 => Yaml11TagResolver.resolve(value),
        }
    }
}

} // verus!
