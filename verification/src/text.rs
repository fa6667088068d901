//! Character-sequence helpers: UTF-8 widths, conversions between `&str`,
//! `String` and `Vec<char>`, and small string builders.
use vstd::prelude::*;
use vstd::utf8::*;

verus! {

/// `String::push` appends one character.
pub assume_specification[ String::push ](s: &mut String, ch: char)
    ensures
        final(s)@ == old(s)@.push(ch),
;

/// Number of bytes in the UTF-8 encoding of `c`.
pub open spec fn char_width(c: char) -> nat {
    if (c as u32) <= 0x7F {
        1
    } else if (c as u32) <= 0x7FF {
        2
    } else if (c as u32) <= 0xFFFF {
        3
    } else {
        4
    }
}

/// Number of bytes in the UTF-8 encoding of `s`.
pub open spec fn utf8_len(s: Seq<char>) -> nat
    decreases s.len(),
{
    if s.len() == 0 {
        0
    } else {
        utf8_len(s.drop_last()) + char_width(s.last())
    }
}

proof fn lemma_encode_push(s: Seq<char>, c: char)
    ensures
        encode_utf8(s.push(c)) == encode_utf8(s) + encode_scalar(c as u32),
    decreases s.len(),
{
    if s.len() == 0 {
        assert(s.push(c).drop_first() =~= Seq::<char>::empty());
        assert(encode_utf8(Seq::<char>::empty()) =~= Seq::<u8>::empty());
        assert(encode_utf8(s) =~= Seq::<u8>::empty());
        assert(encode_utf8(s.push(c)) =~= encode_scalar(c as u32) + encode_utf8(
            Seq::<char>::empty(),
        ));
        assert(encode_utf8(s.push(c)) =~= encode_utf8(s) + encode_scalar(c as u32));
    } else {
        assert(s.push(c).drop_first() =~= s.drop_first().push(c));
        lemma_encode_push(s.drop_first(), c);
        assert(s.push(c)[0] == s[0]);
        assert(encode_utf8(s.push(c)) =~= encode_scalar(s[0] as u32) + encode_utf8(
            s.drop_first().push(c),
        ));
        assert(encode_utf8(s.push(c)) =~= encode_utf8(s) + encode_scalar(c as u32));
    }
}

proof fn lemma_scalar_width(c: char)
    ensures
        encode_scalar(c as u32).len() == char_width(c),
{
    char_is_scalar(c);
}

/// The byte length computed by `utf8_len` agrees with vstd's UTF-8 encoding.
pub proof fn lemma_utf8_len_encode(s: Seq<char>)
    ensures
        utf8_len(s) == encode_utf8(s).len(),
    decreases s.len(),
{
    if s.len() > 0 {
        lemma_utf8_len_encode(s.drop_last());
        assert(s.drop_last().push(s.last()) =~= s);
        lemma_encode_push(s.drop_last(), s.last());
        lemma_scalar_width(s.last());
    }
}

/// Extending a prefix by one character adds that character's width.
pub proof fn lemma_utf8_len_take_step(s: Seq<char>, i: int)
    requires
        0 <= i < s.len(),
    ensures
        utf8_len(s.take(i + 1)) == utf8_len(s.take(i)) + char_width(s[i]),
{
    assert(s.take(i + 1).drop_last() =~= s.take(i));
}

/// Byte length is monotone in the prefix length.
pub proof fn lemma_utf8_len_take_mono(s: Seq<char>, i: int, j: int)
    requires
        0 <= i <= j <= s.len(),
    ensures
        utf8_len(s.take(i)) <= utf8_len(s.take(j)),
        j - i <= utf8_len(s.take(j)) - utf8_len(s.take(i)),
    decreases j - i,
{
    if i < j {
        lemma_utf8_len_take_mono(s, i, j - 1);
        lemma_utf8_len_take_step(s, j - 1);
    }
}

/// A prefix is no longer than the whole.
pub proof fn lemma_utf8_len_take_le(s: Seq<char>, i: int)
    requires
        0 <= i <= s.len(),
    ensures
        utf8_len(s.take(i)) <= utf8_len(s),
        i <= utf8_len(s),
{
    lemma_utf8_len_take_mono(s, i, s.len() as int);
    lemma_utf8_len_take_mono(s, 0, s.len() as int);
    assert(s.take(s.len() as int) =~= s);
    assert(s.take(0) =~= Seq::<char>::empty());
}

/// Whether byte offset `off` falls on a character boundary of `src`.
pub open spec fn is_boundary(src: Seq<char>, off: nat) -> bool {
    exists|i: int| 0 <= i <= src.len() && utf8_len(src.take(i)) == off
}

/// The character index at byte offset `off` (meaningful on a boundary).
pub open spec fn boundary_index(src: Seq<char>, off: nat) -> int {
    choose|i: int| 0 <= i <= src.len() && utf8_len(src.take(i)) == off
}

/// Distinct prefixes have distinct byte lengths.
pub proof fn lemma_boundary_unique(src: Seq<char>, i: int, j: int)
    requires
        0 <= i <= src.len(),
        0 <= j <= src.len(),
        utf8_len(src.take(i)) == utf8_len(src.take(j)),
    ensures
        i == j,
{
    if i < j {
        lemma_utf8_len_take_mono(src, i, j);
    } else if j < i {
        lemma_utf8_len_take_mono(src, j, i);
    }
}

/// The byte length of a prefix is a boundary, at that prefix's length.
pub proof fn lemma_boundary_index(src: Seq<char>, i: int)
    requires
        0 <= i <= src.len(),
    ensures
        is_boundary(src, utf8_len(src.take(i))),
        boundary_index(src, utf8_len(src.take(i))) == i,
{
    let off = utf8_len(src.take(i));
    assert(0 <= i <= src.len() && utf8_len(src.take(i)) == off);
    let k = boundary_index(src, off);
    lemma_boundary_unique(src, i, k);
}

/// Byte width of one character.
pub fn char_len_utf8(c: char) -> (r: usize)
    ensures
        r == char_width(c),
        1 <= r <= 4,
{
    let v = c as u32;
    if v <= 0x7F {
        1
    } else if v <= 0x7FF {
        2
    } else if v <= 0xFFFF {
        3
    } else {
        4
    }
}

/// The characters of a string slice, in order.
pub fn to_chars(s: &str) -> (v: Vec<char>)
    ensures
        v@ == s@,
{
    let mut v: Vec<char> = Vec::new();
    for c in it: s.chars()
        invariant
            v@ == it.seq().take(it.index() as int),
    {
        v.push(c);
    }
    v
}

/// The byte length of a string slice, which agrees with `utf8_len` of its characters.
pub fn str_byte_len(s: &str) -> (n: usize)
    ensures
        n == utf8_len(s@),
{
    proof {
        lemma_utf8_len_encode(s@);
    }
    let b = s.as_bytes();
    b.len()
}

/// The byte length of a string.
pub fn string_len(s: &String) -> (n: usize)
    ensures
        n == utf8_len(s@),
{
    str_byte_len(s.as_str())
}

/// A string holding `v[from..to]`.
pub fn chars_to_string(v: &[char], from: usize, to: usize) -> (s: String)
    requires
        from <= to <= v@.len(),
    ensures
        s@ == v@.subrange(from as int, to as int),
{
    let mut s = String::new();
    let mut i: usize = from;
    while i < to
        invariant
            from <= i <= to <= v@.len(),
            s@ == v@.subrange(from as int, i as int),
        decreases to - i,
    {
        s.push(v[i]);
        i = i + 1;
        assert(s@ =~= v@.subrange(from as int, i as int));
    }
    s
}

/// A string holding all of `v`.
pub fn vec_to_string(v: &Vec<char>) -> (s: String)
    ensures
        s@ == v@,
{
    let s = chars_to_string(v.as_slice(), 0, v.len());
    assert(v@.subrange(0, v@.len() as int) =~= v@);
    s
}

/// Appends every character of `t` to `s`.
pub fn push_str(s: &mut String, t: &str)
    ensures
        final(s)@ == old(s)@ + t@,
{
    let ghost start = s@;
    for c in it: t.chars()
        invariant
            s@ == start + it.seq().take(it.index() as int),
    {
        s.push(c);
        assert(s@ =~= start + it.seq().take(it.index() as int + 1));
    }
    assert(t@.take(t@.len() as int) =~= t@);
}

/// Appends every character of the string `t` to `s`.
pub fn push_string(s: &mut String, t: &String)
    ensures
        final(s)@ == old(s)@ + t@,
{
    push_str(s, t.as_str());
}

/// A fresh copy of `t`.
pub fn str_to_string(t: &str) -> (s: String)
    ensures
        s@ == t@,
{
    let mut s = String::new();
    push_str(&mut s, t);
    assert(s@ =~= t@);
    s
}

/// Concatenation `a + b`.
pub fn concat2(a: &str, b: &str) -> (s: String)
    ensures
        s@ == a@ + b@,
{
    let mut s = str_to_string(a);
    push_str(&mut s, b);
    s
}

/// Concatenation `a + c + b` around one character.
pub fn concat_char(a: &str, c: char, b: &str) -> (s: String)
    ensures
        s@ == a@.push(c) + b@,
{
    let mut s = str_to_string(a);
    s.push(c);
    push_str(&mut s, b);
    s
}

/// Concatenation `a + m + b` around a string.
pub fn concat3(a: &str, m: &str, b: &str) -> (s: String)
    ensures
        s@ == a@ + m@ + b@,
{
    let mut s = str_to_string(a);
    push_str(&mut s, m);
    push_str(&mut s, b);
    s
}

/// The decimal digit character for `d < 10`.
pub open spec fn digit_char(d: nat) -> char {
    ((d + 48) as u32) as char
}

/// Decimal rendering of a natural number, most significant digit first.
pub open spec fn decimal(n: nat) -> Seq<char>
    decreases n,
{
    if n < 10 {
        seq![digit_char(n)]
    } else {
        decimal(n / 10).push(digit_char(n % 10))
    }
}

fn digit_to_char(d: u64) -> (c: char)
    requires
        d < 10,
    ensures
        c == digit_char(d as nat),
{
    if d == 0 {
        '0'
    } else if d == 1 {
        '1'
    } else if d == 2 {
        '2'
    } else if d == 3 {
        '3'
    } else if d == 4 {
        '4'
    } else if d == 5 {
        '5'
    } else if d == 6 {
        '6'
    } else if d == 7 {
        '7'
    } else if d == 8 {
        '8'
    } else {
        '9'
    }
}

/// Decimal rendering of `n`.
pub fn u64_to_decimal(n: u64) -> (s: String)
    ensures
        s@ == decimal(n as nat),
    decreases n,
{
    if n < 10 {
        let mut s = String::new();
        s.push(digit_to_char(n));
        assert(s@ =~= decimal(n as nat));
        s
    } else {
        let mut s = u64_to_decimal(n / 10);
        s.push(digit_to_char(n % 10));
        s
    }
}

/// Appends the decimal rendering of `n` to `s`.
pub fn push_decimal(s: &mut String, n: u64)
    ensures
        final(s)@ == old(s)@ + decimal(n as nat),
{
    let d = u64_to_decimal(n);
    push_string(s, &d);
}

} // verus!
