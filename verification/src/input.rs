//! Encoding detection and decoding of YAML input.
//!
//! A byte-order mark selects UTF-8, UTF-16LE/BE or UTF-32LE/BE (UTF-32 is
//! checked before UTF-16, whose marks are its prefixes); without one the
//! input is UTF-8. Whatever the encoding, the decoded text is held as a
//! `String`.
use vstd::prelude::*;
use vstd::utf8::*;

use crate::compare::opt_view;
use crate::diagnostic::{Diagnostic, Severity, Span};
use crate::scan_text::{char_from_u32, string_from_utf8};
use crate::text::{concat2, push_str, push_string, str_to_string};

verus! {

/// A byte-order mark's encoding.
#[derive(Debug, Clone, Copy, PartialEq, Eq, Structural)]
pub enum Encoding {
    /// UTF-8 (also the default without a mark).
    Utf8,
    /// UTF-16, little-endian.
    Utf16Le,
    /// UTF-16, big-endian.
    Utf16Be,
    /// UTF-32, little-endian.
    Utf32Le,
    /// UTF-32, big-endian.
    Utf32Be,
}

/// Whether `b` starts with `p`.
pub open spec fn starts_with(b: Seq<u8>, p: Seq<u8>) -> bool {
    p.len() <= b.len() && b.subrange(0, p.len() as int) == p
}

/// The encoding a byte-order mark selects, and the mark's length.
pub open spec fn spec_detect_encoding(b: Seq<u8>) -> (Encoding, nat) {
    if starts_with(b, seq![0xFFu8, 0xFEu8, 0x00u8, 0x00u8]) {
        (Encoding::Utf32Le, 4)
    } else if starts_with(b, seq![0x00u8, 0x00u8, 0xFEu8, 0xFFu8]) {
        (Encoding::Utf32Be, 4)
    } else if starts_with(b, seq![0xEFu8, 0xBBu8, 0xBFu8]) {
        (Encoding::Utf8, 3)
    } else if starts_with(b, seq![0xFFu8, 0xFEu8]) {
        (Encoding::Utf16Le, 2)
    } else if starts_with(b, seq![0xFEu8, 0xFFu8]) {
        (Encoding::Utf16Be, 2)
    } else {
        (Encoding::Utf8, 0)
    }
}

/// Detect the encoding from a byte-order mark; returns it with the mark's
/// length.
pub fn detect_encoding(bytes: &[u8]) -> (r: (Encoding, usize))
    ensures
        (r.0, r.1 as nat) == spec_detect_encoding(bytes@),
{
    let n = bytes.len();
    if n >= 4 && bytes[0] == 0xFF && bytes[1] == 0xFE && bytes[2] == 0x00 && bytes[3] == 0x00 {
        assert(bytes@.subrange(0, 4) =~= seq![0xFFu8, 0xFEu8, 0x00u8, 0x00u8]);
        return (Encoding::Utf32Le, 4);
    }
    if n >= 4 && bytes[0] == 0x00 && bytes[1] == 0x00 && bytes[2] == 0xFE && bytes[3] == 0xFF {
        assert(bytes@.subrange(0, 4) =~= seq![0x00u8, 0x00u8, 0xFEu8, 0xFFu8]);
        return (Encoding::Utf32Be, 4);
    }
    if n >= 3 && bytes[0] == 0xEF && bytes[1] == 0xBB && bytes[2] == 0xBF {
        assert(bytes@.subrange(0, 3) =~= seq![0xEFu8, 0xBBu8, 0xBFu8]);
        return (Encoding::Utf8, 3);
    }
    if n >= 2 && bytes[0] == 0xFF && bytes[1] == 0xFE {
        assert(bytes@.subrange(0, 2) =~= seq![0xFFu8, 0xFEu8]);
        return (Encoding::Utf16Le, 2);
    }
    if n >= 2 && bytes[0] == 0xFE && bytes[1] == 0xFF {
        assert(bytes@.subrange(0, 2) =~= seq![0xFEu8, 0xFFu8]);
        return (Encoding::Utf16Be, 2);
    }
    proof {
        if n >= 4 {
            assert(bytes@.subrange(0, 4)[0] == bytes@[0]);
            assert(bytes@.subrange(0, 4)[1] == bytes@[1]);
            assert(bytes@.subrange(0, 4)[2] == bytes@[2]);
            assert(bytes@.subrange(0, 4)[3] == bytes@[3]);
        }
        if n >= 3 {
            assert(bytes@.subrange(0, 3)[0] == bytes@[0]);
            assert(bytes@.subrange(0, 3)[1] == bytes@[1]);
            assert(bytes@.subrange(0, 3)[2] == bytes@[2]);
        }
        if n >= 2 {
            assert(bytes@.subrange(0, 2)[0] == bytes@[0]);
            assert(bytes@.subrange(0, 2)[1] == bytes@[1]);
        }
    }
    (Encoding::Utf8, 0)
}

/// What `encoding_rs`'s UTF-16 decoder (`UTF_16BE` when `big_endian`, else
/// `UTF_16LE`) makes of complete input `bytes`: the decoded text, or `None`
/// when it reported malformed sequences.
pub uninterp spec fn utf16_decoding(bytes: Seq<u8>, big_endian: bool) -> Option<Seq<char>>;

/// `encoding_rs::Encoding::decode` with `UTF_16BE` or `UTF_16LE`: the text
/// when the decoder reported no malformed sequence. The contract names the
/// result; it does not state UTF-16 decoding itself, nor that `decode`
/// removes a leading byte-order mark and follows it.
#[verifier::external_body]
fn decode_utf16_text(bytes: &[u8], big_endian: bool) -> (r: Option<String>)
    requires
        bytes@.len() <= usize::MAX / 4,
    ensures
        opt_view(r) == utf16_decoding(bytes@, big_endian),
{
    let decoder = if big_endian {
        encoding_rs::UTF_16BE
    } else {
        encoding_rs::UTF_16LE
    };
    let (text, _, had_errors) = decoder.decode(bytes);
    if had_errors {
        None
    } else {
        Some(text.into_owned())
    }
}

/// The code point of UTF-32 unit `i` of `b`.
pub open spec fn utf32_unit(b: Seq<u8>, i: int, big_endian: bool) -> int {
    if big_endian {
        b[4 * i] * 16777216 + b[4 * i + 1] * 65536 + b[4 * i + 2] * 256 + b[4 * i + 3]
    } else {
        b[4 * i] + b[4 * i + 1] * 256 + b[4 * i + 2] * 65536 + b[4 * i + 3] * 16777216
    }
}

/// The code points of characters.
pub open spec fn code_points(s: Seq<char>) -> Seq<u32> {
    s.map_values(|c: char| c as u32)
}

/// The first `n` UTF-32 units of `b`, or the first unit that is no Unicode
/// scalar value.
pub open spec fn utf32_prefix(b: Seq<u8>, big_endian: bool, n: nat) -> Result<Seq<u32>, u32>
    decreases n,
{
    if n == 0 {
        Ok(seq![])
    } else {
        match utf32_prefix(b, big_endian, (n - 1) as nat) {
            Err(cp) => Err(cp),
            Ok(s) => {
                let cp = utf32_unit(b, n - 1, big_endian) as u32;
                if is_scalar(cp) {
                    Ok(s.push(cp))
                } else {
                    Err(cp)
                }
            },
        }
    }
}

/// The upper-case hex digit for `d < 16`.
pub open spec fn hex_digit_upper(d: nat) -> char {
    if d == 0 {
        '0'
    } else if d == 1 {
        '1'
    } else if d == 2 {
        '2'
    } else if d == 3 {
        '3'
    } else if d == 4 {
        '4'
    } else if d == 5 {
        '5'
    } else if d == 6 {
        '6'
    } else if d == 7 {
        '7'
    } else if d == 8 {
        '8'
    } else if d == 9 {
        '9'
    } else if d == 10 {
        'A'
    } else if d == 11 {
        'B'
    } else if d == 12 {
        'C'
    } else if d == 13 {
        'D'
    } else if d == 14 {
        'E'
    } else {
        'F'
    }
}

/// Upper-case hexadecimal rendering of `n`.
pub open spec fn hex_upper(n: nat) -> Seq<char>
    decreases n,
{
    if n < 16 {
        seq![hex_digit_upper(n)]
    } else {
        hex_upper(n / 16).push(hex_digit_upper(n % 16))
    }
}

/// `n` zero digits.
pub open spec fn zeros(n: nat) -> Seq<char> {
    Seq::new(n, |i: int| '0')
}

/// Upper-case hexadecimal rendering of `n`, padded with zeros to four digits.
pub open spec fn hex_upper4(n: nat) -> Seq<char> {
    let h = hex_upper(n);
    if h.len() < 4 {
        zeros((4 - h.len()) as nat) + h
    } else {
        h
    }
}

/// UTF-32 decoding: the code points of the text, or the reason the bytes
/// are not valid UTF-32.
pub open spec fn spec_decode_utf32(b: Seq<u8>, big_endian: bool) -> Result<Seq<u32>, Seq<char>> {
    if b.len() % 4 != 0 {
        Err("UTF-32 input length is not a multiple of 4 bytes"@)
    } else {
        match utf32_prefix(b, big_endian, b.len() / 4) {
            Ok(s) => Ok(s),
            Err(cp) => Err("invalid UTF-32 code point: U+"@ + hex_upper4(cp as nat)),
        }
    }
}

fn hex_char(d: u32) -> (c: char)
    requires
        d < 16,
    ensures
        c == hex_digit_upper(d as nat),
{
    if d == 0 {
        '0'
    } else if d == 1 {
        '1'
    } else if d == 2 {
        '2'
    } else if d == 3 {
        '3'
    } else if d == 4 {
        '4'
    } else if d == 5 {
        '5'
    } else if d == 6 {
        '6'
    } else if d == 7 {
        '7'
    } else if d == 8 {
        '8'
    } else if d == 9 {
        '9'
    } else if d == 10 {
        'A'
    } else if d == 11 {
        'B'
    } else if d == 12 {
        'C'
    } else if d == 13 {
        'D'
    } else if d == 14 {
        'E'
    } else {
        'F'
    }
}

fn hex_string(n: u32) -> (s: String)
    ensures
        s@ == hex_upper(n as nat),
    decreases n,
{
    if n < 16 {
        let mut s = String::new();
        s.push(hex_char(n));
        assert(s@ =~= hex_upper(n as nat));
        s
    } else {
        let mut s = hex_string(n / 16);
        s.push(hex_char(n % 16));
        s
    }
}

fn hex_string4(n: u32) -> (s: String)
    ensures
        s@ == hex_upper4(n as nat),
{
    let h = hex_string(n);
    let len = h.as_str().unicode_len();
    if len < 4 {
        let mut s = String::new();
        let mut i: usize = 0;
        while i < 4 - len
            invariant
                len < 4,
                len == h@.len(),
                i <= 4 - len,
                s@ == zeros(i as nat),
            decreases 4 - len - i,
        {
            s.push('0');
            i = i + 1;
            assert(s@ =~= zeros(i as nat));
        }
        push_string(&mut s, &h);
        s
    } else {
        h
    }
}

/// Decode UTF-32 bytes (after the byte-order mark) into text.
fn decode_utf32(bytes: &[u8], big_endian: bool) -> (r: Result<String, String>)
    ensures
        match (r, spec_decode_utf32(bytes@, big_endian)) {
            (Ok(s), Ok(cps)) => code_points(s@) == cps,
            (Err(m), Err(e)) => m@ == e,
            _ => false,
        },
{
    let len = bytes.len();
    if bytes.len() % 4 != 0 {
        return Err(str_to_string("UTF-32 input length is not a multiple of 4 bytes"));
    }
    let n = bytes.len() / 4;
    let mut out = String::new();
    assert(code_points(out@) =~= Seq::<u32>::empty());
    let mut i: usize = 0;
    while i < n
        invariant
            n == bytes@.len() / 4,
            bytes@.len() % 4 == 0,
            i <= n,
            bytes@.len() == len,
            utf32_prefix(bytes@, big_endian, i as nat) == Ok::<Seq<u32>, u32>(code_points(out@)),
        decreases n - i,
    {
        assert(4 * i + 3 < len) by (nonlinear_arith)
            requires
                i < n,
                n == len / 4,
                len % 4 == 0,
        ;
        let b0 = bytes[4 * i] as u32;
        let b1 = bytes[4 * i + 1] as u32;
        let b2 = bytes[4 * i + 2] as u32;
        let b3 = bytes[4 * i + 3] as u32;
        let cp: u32 = if big_endian {
            b0 * 16777216 + b1 * 65536 + b2 * 256 + b3
        } else {
            b0 + b1 * 256 + b2 * 65536 + b3 * 16777216
        };
        assert(cp as int == utf32_unit(bytes@, i as int, big_endian));
        match char_from_u32(cp) {
            Some(ch) => {
                let ghost before = out@;
                out.push(ch);
                assert(code_points(out@) =~= code_points(before).push(cp));
            },
            None => {
                let mut msg = str_to_string("invalid UTF-32 code point: U+");
                let h = hex_string4(cp);
                push_string(&mut msg, &h);
                proof {
                    let mut k: nat = (i + 1) as nat;
                    assert(utf32_prefix(bytes@, big_endian, (i + 1) as nat) == Err::<Seq<u32>, u32>(cp));
                    lemma_utf32_err_stays(bytes@, big_endian, (i + 1) as nat, n as nat);
                }
                return Err(msg);
            },
        }
        i = i + 1;
    }
    Ok(out)
}

proof fn lemma_utf32_err_stays(b: Seq<u8>, big_endian: bool, k: nat, n: nat)
    requires
        k <= n,
        utf32_prefix(b, big_endian, k) is Err,
    ensures
        utf32_prefix(b, big_endian, n) == utf32_prefix(b, big_endian, k),
    decreases n - k,
{
    if k < n {
        lemma_utf32_err_stays(b, big_endian, k + 1, n);
    }
}

/// The encoding-error diagnostic for `msg`.
pub open spec fn encoding_error_spec(d: Diagnostic, msg: Seq<char>) -> bool {
    &&& d.severity == Severity::Error
    &&& d.code@ == "E0001"@
    &&& d.message@ == "encoding error: "@ + msg
    &&& d.span == Some(crate::diagnostic::span_zero())
    &&& d.labels@.len() == 0
}

/// The diagnostic for an input that cannot be read or decoded.
pub fn encoding_error(msg: &str) -> (d: Diagnostic)
    ensures
        encoding_error_spec(d, msg@),
{
    Diagnostic {
        severity: Severity::Error,
        code: str_to_string("E0001"),
        message: concat2("encoding error: ", msg),
        span: Some(Span::default()),
        labels: Vec::new(),
    }
}

/// Decoded YAML input, always held as UTF-8 text.
pub struct Input {
    data: String,
}

/// Whether bytes decode: the payload after the byte order mark is valid
/// in the detected encoding.
pub open spec fn spec_decodes(bytes: Seq<u8>) -> bool {
    let (enc, bom) = spec_detect_encoding(bytes);
    let payload = bytes.subrange(bom as int, bytes.len() as int);
    match enc {
        Encoding::Utf8 => valid_utf8(payload),
        Encoding::Utf16Le | Encoding::Utf16Be => utf16_decoding(payload, enc == Encoding::Utf16Be) is Some,
        Encoding::Utf32Le | Encoding::Utf32Be => spec_decode_utf32(payload, enc == Encoding::Utf32Be) is Ok,
    }
}

/// What decoding `bytes` gives: the encoding is detected from the byte
/// order mark (or the first bytes), and the rest is decoded as UTF-8,
/// UTF-16 or UTF-32; a failure is an encoding error diagnostic.
pub open spec fn decode_outcome(bytes: Seq<u8>, r: Result<Input, Diagnostic>) -> bool
{
    let (enc, bom) = spec_detect_encoding(bytes);
    let payload = bytes.subrange(bom as int, bytes.len() as int);
    match enc {
        Encoding::Utf8 => match r {
            Ok(i) => valid_utf8(payload) && i.text() == decode_utf8(payload),
            Err(d) => !valid_utf8(payload) && exists|m: Seq<char>| #[trigger] encoding_error_spec(d, "invalid UTF-8: "@ + m),
        },
        Encoding::Utf16Le | Encoding::Utf16Be => match r {
            Ok(i) => utf16_decoding(payload, enc == Encoding::Utf16Be) == Some(i.text()),
            Err(d) => utf16_decoding(payload, enc == Encoding::Utf16Be) is None
                && encoding_error_spec(d, "invalid UTF-16 sequence"@),
        },
        Encoding::Utf32Le | Encoding::Utf32Be => match (r, spec_decode_utf32(payload, enc == Encoding::Utf32Be)) {
            (Ok(i), Ok(s)) => code_points(i.text()) == s,
            (Err(d), Err(m)) => encoding_error_spec(d, m),
            _ => false,
        },
    }
}

/// Bytes `FF FE` (not followed by `00 00`) select UTF-16 little-endian:
/// the text of `FF FE` followed by `payload` is the little-endian UTF-16
/// decoding of `payload`, and it fails exactly when that decoding does.
pub proof fn lemma_utf16le_bom_decodes_payload(payload: Seq<u8>, r: Result<Input, Diagnostic>)
    requires
        !starts_with(payload, seq![0x00u8, 0x00u8]),
        decode_outcome(seq![0xFFu8, 0xFEu8] + payload, r),
    ensures
        r matches Ok(i) ==> utf16_decoding(payload, false) == Some(i.text()),
        r is Err ==> utf16_decoding(payload, false) is None,
{
    let b = seq![0xFFu8, 0xFEu8] + payload;
    assert(b.subrange(0, 2) =~= seq![0xFFu8, 0xFEu8]);
    if payload.len() >= 2 {
        assert(b.subrange(0, 4) =~= seq![0xFFu8, 0xFEu8, payload[0], payload[1]]);
        assert(payload.subrange(0, 2) =~= seq![payload[0], payload[1]]);
    }
    assert(!starts_with(b, seq![0xFFu8, 0xFEu8, 0x00u8, 0x00u8]));
    assert(!starts_with(b, seq![0x00u8, 0x00u8, 0xFEu8, 0xFFu8]));
    assert(!starts_with(b, seq![0xEFu8, 0xBBu8, 0xBFu8]));
    assert(spec_detect_encoding(b) == (Encoding::Utf16Le, 2nat));
    assert(b.subrange(2, b.len() as int) =~= payload);
}

/// Bytes `FE FF` select UTF-16 big-endian: the text of `FE FF` followed by
/// `payload` is the big-endian UTF-16 decoding of `payload`.
pub proof fn lemma_utf16be_bom_decodes_payload(payload: Seq<u8>, r: Result<Input, Diagnostic>)
    requires
        decode_outcome(seq![0xFEu8, 0xFFu8] + payload, r),
    ensures
        r matches Ok(i) ==> utf16_decoding(payload, true) == Some(i.text()),
        r is Err ==> utf16_decoding(payload, true) is None,
{
    let b = seq![0xFEu8, 0xFFu8] + payload;
    assert(b.subrange(0, 2) =~= seq![0xFEu8, 0xFFu8]);
    assert(!starts_with(b, seq![0xFFu8, 0xFEu8, 0x00u8, 0x00u8]));
    assert(!starts_with(b, seq![0x00u8, 0x00u8, 0xFEu8, 0xFFu8]));
    assert(!starts_with(b, seq![0xEFu8, 0xBBu8, 0xBFu8]));
    assert(!starts_with(b, seq![0xFFu8, 0xFEu8]));
    assert(spec_detect_encoding(b) == (Encoding::Utf16Be, 2nat));
    assert(b.subrange(2, b.len() as int) =~= payload);
}

/// A UTF-8 byte-order mark is dropped: the text of `EF BB BF` followed by
/// `payload` is the UTF-8 decoding of `payload`.
pub proof fn lemma_utf8_bom_decodes_payload(payload: Seq<u8>, r: Result<Input, Diagnostic>)
    requires
        decode_outcome(seq![0xEFu8, 0xBBu8, 0xBFu8] + payload, r),
    ensures
        r matches Ok(i) ==> valid_utf8(payload) && i.text() == decode_utf8(payload),
        r is Err ==> !valid_utf8(payload),
{
    let b = seq![0xEFu8, 0xBBu8, 0xBFu8] + payload;
    assert(b.subrange(0, 3) =~= seq![0xEFu8, 0xBBu8, 0xBFu8]);
    assert(!starts_with(b, seq![0xFFu8, 0xFEu8, 0x00u8, 0x00u8]));
    assert(!starts_with(b, seq![0x00u8, 0x00u8, 0xFEu8, 0xFFu8]));
    assert(spec_detect_encoding(b) == (Encoding::Utf8, 3nat));
    assert(b.subrange(3, b.len() as int) =~= payload);
}

/// The four bytes of code point `cp` in UTF-32, in the given byte order.
pub open spec fn utf32_unit_bytes(cp: u32, big_endian: bool) -> Seq<u8> {
    let b0 = (cp % 256) as u8;
    let b1 = (cp / 256 % 256) as u8;
    let b2 = (cp / 65536 % 256) as u8;
    let b3 = (cp / 16777216) as u8;
    if big_endian {
        seq![b3, b2, b1, b0]
    } else {
        seq![b0, b1, b2, b3]
    }
}

/// The UTF-32 encoding of the text `s`, without a byte-order mark.
pub open spec fn utf32_encoding(s: Seq<char>, big_endian: bool) -> Seq<u8>
    decreases s.len(),
{
    if s.len() == 0 {
        Seq::empty()
    } else {
        utf32_encoding(s.drop_last(), big_endian) + utf32_unit_bytes(s.last() as u32, big_endian)
    }
}

proof fn lemma_utf32_encoding_len(s: Seq<char>, big_endian: bool)
    ensures
        utf32_encoding(s, big_endian).len() == 4 * s.len(),
    decreases s.len(),
{
    if s.len() > 0 {
        lemma_utf32_encoding_len(s.drop_last(), big_endian);
    }
}

/// The unit read back from the bytes of a code point is that code point.
proof fn lemma_utf32_unit_bytes(cp: u32, big_endian: bool)
    ensures
        utf32_unit(utf32_unit_bytes(cp, big_endian), 0, big_endian) == cp,
{
    assert((cp % 256) + (cp / 256 % 256) * 256 + (cp / 65536 % 256) * 65536 + (cp / 16777216) * 16777216 == cp)
        by (bit_vector);
    assert(cp / 16777216 < 256) by (bit_vector);
}

/// Units before `4 * n` bytes do not depend on what follows them.
proof fn lemma_utf32_prefix_extend(b: Seq<u8>, e: Seq<u8>, big_endian: bool, n: nat)
    requires
        4 * n <= b.len(),
    ensures
        utf32_prefix(b + e, big_endian, n) == utf32_prefix(b, big_endian, n),
    decreases n,
{
    if n > 0 {
        lemma_utf32_prefix_extend(b, e, big_endian, (n - 1) as nat);
        let i = n - 1;
        assert((b + e)[4 * i] == b[4 * i]);
        assert((b + e)[4 * i + 1] == b[4 * i + 1]);
        assert((b + e)[4 * i + 2] == b[4 * i + 2]);
        assert((b + e)[4 * i + 3] == b[4 * i + 3]);
    }
}

/// Reading back the UTF-32 encoding of `s` gives the code points of `s`.
proof fn lemma_utf32_prefix_encoding(s: Seq<char>, big_endian: bool)
    ensures
        utf32_prefix(utf32_encoding(s, big_endian), big_endian, s.len()) == Ok::<Seq<u32>, u32>(code_points(s)),
    decreases s.len(),
{
    if s.len() == 0 {
        assert(code_points(s) =~= seq![]);
    } else {
        let p = s.drop_last();
        let c = s.last();
        let ep = utf32_encoding(p, big_endian);
        let ub = utf32_unit_bytes(c as u32, big_endian);
        let enc = utf32_encoding(s, big_endian);
        assert(enc == ep + ub);
        lemma_utf32_prefix_encoding(p, big_endian);
        lemma_utf32_encoding_len(p, big_endian);
        lemma_utf32_prefix_extend(ep, ub, big_endian, p.len());
        let i = p.len() as int;
        assert(enc[4 * i] == ub[0]);
        assert(enc[4 * i + 1] == ub[1]);
        assert(enc[4 * i + 2] == ub[2]);
        assert(enc[4 * i + 3] == ub[3]);
        lemma_utf32_unit_bytes(c as u32, big_endian);
        assert(utf32_unit(enc, i, big_endian) == c as u32);
        char_is_scalar(c);
        assert(code_points(s) =~= code_points(p).push(c as u32));
    }
}

/// Two texts with the same code points are the same text.
proof fn lemma_code_points_injective(a: Seq<char>, b: Seq<char>)
    requires
        code_points(a) == code_points(b),
    ensures
        a == b,
{
    assert(a.len() == code_points(a).len());
    assert(b.len() == code_points(b).len());
    assert forall|k: int| 0 <= k < a.len() implies a[k] == b[k] by {
        assert(code_points(a)[k] == code_points(b)[k]);
        assert(code_points(a)[k] == a[k] as u32);
        assert(code_points(b)[k] == b[k] as u32);
        let u = a[k] as u32;
        char_u32_cast(a[k], u);
        char_u32_cast(b[k], u);
    }
    assert(a =~= b);
}

/// Bytes `FF FE 00 00` select UTF-32 little-endian: the little-endian
/// UTF-32 encoding of any text `s` behind that mark decodes to `s`.
pub proof fn lemma_utf32le_bom_round_trip(s: Seq<char>, r: Result<Input, Diagnostic>)
    requires
        decode_outcome(seq![0xFFu8, 0xFEu8, 0x00u8, 0x00u8] + utf32_encoding(s, false), r),
    ensures
        r matches Ok(i) && i.text() == s,
{
    let enc = utf32_encoding(s, false);
    let b = seq![0xFFu8, 0xFEu8, 0x00u8, 0x00u8] + enc;
    assert(b.subrange(0, 4) =~= seq![0xFFu8, 0xFEu8, 0x00u8, 0x00u8]);
    assert(spec_detect_encoding(b) == (Encoding::Utf32Le, 4nat));
    assert(b.subrange(4, b.len() as int) =~= enc);
    lemma_utf32_encoding_len(s, false);
    assert(enc.len() / 4 == s.len());
    lemma_utf32_prefix_encoding(s, false);
    assert(spec_decode_utf32(enc, false) == Ok::<Seq<u32>, Seq<char>>(code_points(s)));
    if let Ok(i) = r {
        lemma_code_points_injective(i.text(), s);
    }
}

/// Bytes `00 00 FE FF` select UTF-32 big-endian: the big-endian UTF-32
/// encoding of any text `s` behind that mark decodes to `s`.
pub proof fn lemma_utf32be_bom_round_trip(s: Seq<char>, r: Result<Input, Diagnostic>)
    requires
        decode_outcome(seq![0x00u8, 0x00u8, 0xFEu8, 0xFFu8] + utf32_encoding(s, true), r),
    ensures
        r matches Ok(i) && i.text() == s,
{
    let enc = utf32_encoding(s, true);
    let b = seq![0x00u8, 0x00u8, 0xFEu8, 0xFFu8] + enc;
    assert(b.subrange(0, 4) =~= seq![0x00u8, 0x00u8, 0xFEu8, 0xFFu8]);
    assert(!starts_with(b, seq![0xFFu8, 0xFEu8, 0x00u8, 0x00u8]));
    assert(spec_detect_encoding(b) == (Encoding::Utf32Be, 4nat));
    assert(b.subrange(4, b.len() as int) =~= enc);
    lemma_utf32_encoding_len(s, true);
    assert(enc.len() / 4 == s.len());
    lemma_utf32_prefix_encoding(s, true);
    assert(spec_decode_utf32(enc, true) == Ok::<Seq<u32>, Seq<char>>(code_points(s)));
    if let Ok(i) = r {
        lemma_code_points_injective(i.text(), s);
    }
}

impl Input {
    /// The decoded text.
    pub closed spec fn text(&self) -> Seq<char> {
        self.data@
    }

    /// Create an `Input` from raw bytes, detecting the encoding from a
    /// byte-order mark (UTF-8 without one). UTF-16 and UTF-32 input is
    /// transcoded. Fails with an encoding-error diagnostic when the bytes are
    /// not valid in the detected encoding.
    pub fn from_bytes(bytes: &[u8]) -> (r: Result<Self, Diagnostic>)
        requires
            bytes@.len() <= usize::MAX / 4,
        ensures
            r is Ok <==> spec_decodes(bytes@),
            decode_outcome(bytes@, r),
    {
        let (enc, bom) = detect_encoding(bytes);
        let payload = slice_from(bytes, bom);
        match enc {
            Encoding::Utf8 => {
                match string_from_utf8(payload) {
                    Ok(s) => Ok(Input { data: s }),
                    Err(e) => {
                        let msg = concat2("invalid UTF-8: ", e.as_str());
                        let d = encoding_error(msg.as_str());
                        assert(encoding_error_spec(d, "invalid UTF-8: "@ + e@));
                        Err(d)
                    },
                }
            },
            Encoding::Utf16Le | Encoding::Utf16Be => {
                match decode_utf16_text(payload.as_slice(), enc == Encoding::Utf16Be) {
                    Some(s) => Ok(Input { data: s }),
                    None => Err(encoding_error("invalid UTF-16 sequence")),
                }
            },
            Encoding::Utf32Le | Encoding::Utf32Be => {
                match decode_utf32(payload.as_slice(), enc == Encoding::Utf32Be) {
                    Ok(s) => Ok(Input { data: s }),
                    Err(m) => Err(encoding_error(m.as_str())),
                }
            },
        }
    }

    /// The decoded text.
    pub fn as_str(&self) -> (r: &str)
        ensures
            r@ == self.text(),
    {
        self.data.as_str()
    }
}

/// The bytes of `b` from `from` on.
pub(crate) fn slice_from(b: &[u8], from: usize) -> (r: Vec<u8>)
    requires
        from <= b@.len(),
    ensures
        r@ == b@.subrange(from as int, b@.len() as int),
{
    let mut out: Vec<u8> = Vec::new();
    let mut i = from;
    while i < b.len()
        invariant
            from <= i <= b@.len(),
            out@ == b@.subrange(from as int, i as int),
        decreases b@.len() - i,
    {
        out.push(b[i]);
        i = i + 1;
        assert(out@ =~= b@.subrange(from as int, i as int));
    }
    out
}

/// The message for read input over the byte limit.
pub open spec fn size_limit_message(size: nat, max: nat) -> Seq<char> {
    "input size "@ + crate::text::decimal(size) + " bytes exceeds maximum of "@ + crate::text::decimal(max)
        + " bytes"@
}

impl Input {
    /// Decodes input that was read whole, refusing it first when it holds
    /// more than `max_bytes` bytes.
    pub fn from_read_bytes(bytes: &[u8], max_bytes: Option<usize>) -> (r: Result<Self, Diagnostic>)
        requires
            bytes@.len() <= usize::MAX / 4,
        ensures
            match max_bytes {
                Some(max) if bytes@.len() > max => r matches Err(d) && encoding_error_spec(
                    d,
                    size_limit_message(bytes@.len(), max as nat),
                ),
                _ => (r is Ok <==> spec_decodes(bytes@)) && decode_outcome(bytes@, r),
            },
    {
        match max_bytes {
            Some(max) => {
                if bytes.len() > max {
                    let mut m = crate::text::str_to_string("input size ");
                    crate::text::push_decimal(&mut m, bytes.len() as u64);
                    crate::text::push_str(&mut m, " bytes exceeds maximum of ");
                    crate::text::push_decimal(&mut m, max as u64);
                    crate::text::push_str(&mut m, " bytes");
                    assert(m@ =~= size_limit_message(bytes@.len(), max as nat));
                    return Err(encoding_error(m.as_str()));
                }
            },
            None => {},
        }
        Self::from_bytes(bytes)
    }
}

} // verus!
