//! Numbers, hexadecimal and UTF-8 text, as the wire protocol writes and reads
//! them.

use vstd::prelude::*;
use vstd::string::*;
use vstd::utf8::*;

verus! {

// ---------- what std does ----------

/// `String::push` adds one character at the end.
pub assume_specification[ String::push ](s: &mut String, c: char)
    ensures
        final(s)@ == old(s)@.push(c),
;

/// The text of a byte string whose invalid parts have been replaced.
pub uninterp spec fn lossy_text(b: Seq<u8>) -> Seq<char>;

/// `String::from_utf8_lossy`: the text of the bytes, with replacement
/// characters for what is not UTF-8. Bytes that are UTF-8 give the text that
/// they encode; which characters the others give is left to the name.
#[verifier::external_body]
pub(crate) fn decode_lossy(b: &[u8]) -> (s: String)
    ensures
        s@ == lossy_text(b@),
        valid_utf8(b@) ==> s@ == decode_utf8(b@),
{
    String::from_utf8_lossy(b).into_owned()
}

/// A text in lowercase.
pub uninterp spec fn lowercase_text(s: Seq<char>) -> Seq<char>;

/// The lowercase form of an ASCII character.
pub open spec fn ascii_lower(c: char) -> char {
    if 'A' <= c <= 'Z' {
        (c as u32 + 32) as char
    } else {
        c
    }
}

/// An ASCII text in lowercase.
pub open spec fn ascii_lowercase(s: Seq<char>) -> Seq<char> {
    s.map_values(|c: char| ascii_lower(c))
}

/// `str::to_lowercase`: the text in lowercase, as Unicode has it. In an ASCII
/// text the capital letters become small ones and nothing else changes; what
/// other letters become is left to the name.
#[verifier::external_body]
pub(crate) fn lowercase(s: &str) -> (r: String)
    ensures
        r@ == lowercase_text(s@),
        is_ascii_chars(s@) ==> r@ == ascii_lowercase(s@),
{
    s.to_lowercase()
}

// ---------- writing numbers ----------

/// The lowercase digit for `d`, below 16.
pub open spec fn digit_char(d: nat) -> char {
    if d < 10 {
        (48 + d) as char
    } else {
        (87 + d) as char
    }
}

/// `n` in decimal, without leading zeros.
pub open spec fn decimal(n: nat) -> Seq<char>
    decreases n,
{
    if n < 10 {
        seq![digit_char(n)]
    } else {
        decimal(n / 10).push(digit_char(n % 10))
    }
}

/// Each byte as two lowercase hexadecimal digits, high digit first.
pub open spec fn hex_text(b: Seq<u8>) -> Seq<char> {
    Seq::new(
        2 * b.len(),
        |i: int|
            if i % 2 == 0 {
                digit_char((b[i / 2] / 16) as nat)
            } else {
                digit_char((b[i / 2] % 16) as nat)
            },
    )
}

fn digit_str(d: u64) -> (s: &'static str)
    requires
        d < 16,
    ensures
        s@ == seq![digit_char(d as nat)],
{
    proof {
        reveal_strlit("0");
        reveal_strlit("1");
        reveal_strlit("2");
        reveal_strlit("3");
        reveal_strlit("4");
        reveal_strlit("5");
        reveal_strlit("6");
        reveal_strlit("7");
        reveal_strlit("8");
        reveal_strlit("9");
        reveal_strlit("a");
        reveal_strlit("b");
        reveal_strlit("c");
        reveal_strlit("d");
        reveal_strlit("e");
        reveal_strlit("f");
    }
    match d {
        0 => "0",
        1 => "1",
        2 => "2",
        3 => "3",
        4 => "4",
        5 => "5",
        6 => "6",
        7 => "7",
        8 => "8",
        9 => "9",
        10 => "a",
        11 => "b",
        12 => "c",
        13 => "d",
        14 => "e",
        _ => "f",
    }
}

/// Appends `n` in decimal.
pub fn push_decimal(out: &mut String, n: u64)
    ensures
        final(out)@ == old(out)@ + decimal(n as nat),
    decreases n,
{
    if n >= 10 {
        push_decimal(out, n / 10);
    }
    out.append(digit_str(n % 10));
    assert(out@ =~= old(out)@ + decimal(n as nat));
}

/// Appends the bytes in lowercase hexadecimal.
pub fn push_hex(out: &mut String, b: &[u8])
    ensures
        final(out)@ == old(out)@ + hex_text(b@),
{
    let mut i: usize = 0;
    while i < b.len()
        invariant
            0 <= i <= b@.len(),
            b@.len() == b.len(),
            out@ == old(out)@ + hex_text(b@.take(i as int)),
        decreases b@.len() - i,
    {
        out.append(digit_str((b[i] / 16) as u64));
        out.append(digit_str((b[i] % 16) as u64));
        i = i + 1;
        assert(out@ =~= old(out)@ + hex_text(b@.take(i as int)));
    }
    assert(b@.take(b@.len() as int) =~= b@);
}

// ---------- reading numbers ----------

/// Whether the byte is an ASCII decimal digit.
pub open spec fn is_digit(c: u8) -> bool {
    48 <= c <= 57
}

/// The number that a string of ASCII digits writes.
pub open spec fn digits_value(b: Seq<u8>) -> nat
    decreases b.len(),
{
    if b.len() == 0 {
        0
    } else {
        10 * digits_value(b.drop_last()) + (b.last() - 48) as nat
    }
}

/// The digits of a number: what follows one optional leading `+`.
pub open spec fn number_digits(b: Seq<u8>) -> Seq<u8> {
    if b.len() > 0 && b[0] == 43 {
        b.drop_first()
    } else {
        b
    }
}

/// The unsigned number that `b` writes: one optional `+`, then at least one
/// decimal digit and nothing else, the value at most `max`.
pub open spec fn number_value(b: Seq<u8>, max: nat) -> Option<nat> {
    let d = number_digits(b);
    if d.len() > 0 && (forall|i: int| 0 <= i < d.len() ==> is_digit(#[trigger] d[i]))
        && digits_value(d) <= max {
        Some(digits_value(d))
    } else {
        None
    }
}

proof fn lemma_digits_value_grows(d: Seq<u8>, i: int)
    requires
        0 <= i <= d.len(),
        forall|k: int| 0 <= k < d.len() ==> is_digit(#[trigger] d[k]),
    ensures
        digits_value(d.take(i)) <= digits_value(d),
    decreases d.len(),
{
    if i < d.len() {
        assert(d.drop_last().take(i) =~= d.take(i));
        lemma_digits_value_grows(d.drop_last(), i);
    } else {
        assert(d.take(i) =~= d);
    }
}

/// Reads an unsigned decimal number of at most `max`.
pub fn parse_number(b: &[u8], max: u64) -> (r: Option<u64>)
    ensures
        match r {
            Some(n) => number_value(b@, max as nat) == Some(n as nat),
            None => number_value(b@, max as nat) is None,
        },
{
    let start: usize = if b.len() > 0 && b[0] == 43 { 1 } else { 0 };
    let ghost d = number_digits(b@);
    assert(d =~= b@.subrange(start as int, b@.len() as int));
    if b.len() == start {
        return None;
    }
    let mut n: u64 = 0;
    let mut i: usize = start;
    while i < b.len()
        invariant
            start <= i <= b@.len(),
            b.len() == b@.len(),
            d == b@.subrange(start as int, b@.len() as int),
            d == number_digits(b@),
            forall|k: int| 0 <= k < i - start ==> is_digit(#[trigger] d[k]),
            n == digits_value(d.take(i - start)),
            n <= max,
        decreases b@.len() - i,
    {
        let c: u8 = b[i];
        assert(d[i - start] == c);
        if c < 48 || c > 57 {
            return None;
        }
        assert(d.take(i - start + 1).drop_last() =~= d.take(i - start));
        assert(d.take(i - start + 1).last() == c);
        let v: u64 = (c - 48) as u64;
        if n > max / 10 || v > max - n * 10 {
            proof {
                assert(digits_value(d.take(i - start + 1)) > max);
                if forall|k: int| 0 <= k < d.len() ==> is_digit(#[trigger] d[k]) {
                    lemma_digits_value_grows(d, i - start + 1);
                }
            }
            return None;
        }
        n = n * 10 + v;
        i = i + 1;
    }
    assert(d.take(i - start) =~= d);
    Some(n)
}

/// The value of one hexadecimal digit, in either case.
pub open spec fn nybble_value(c: u8) -> Option<u8> {
    if 48 <= c <= 57 {
        Some((c - 48) as u8)
    } else if 97 <= c <= 102 {
        Some((c - 87) as u8)
    } else if 65 <= c <= 70 {
        Some((c - 55) as u8)
    } else {
        None
    }
}

/// Reads one hexadecimal digit.
pub fn nybble(c: u8) -> (r: Option<u8>)
    ensures
        r == nybble_value(c),
{
    if 48 <= c && c <= 57 {
        Some(c - 48)
    } else if 97 <= c && c <= 102 {
        Some(c - 87)
    } else if 65 <= c && c <= 70 {
        Some(c - 55)
    } else {
        None
    }
}

/// Whether every byte is a hexadecimal digit.
pub open spec fn all_hex(h: Seq<u8>) -> bool {
    forall|i: int| 0 <= i < h.len() ==> nybble_value(#[trigger] h[i]) is Some
}

/// The bytes that pairs of hexadecimal digits write, high digit first.
pub open spec fn hex_bytes(h: Seq<u8>) -> Seq<u8> {
    Seq::new(
        h.len() / 2,
        |i: int| (nybble_value(h[2 * i])->0 * 16 + nybble_value(h[2 * i + 1])->0) as u8,
    )
}

// ---------- what is written reads back ----------

/// A decimal number is a nonempty string of ASCII digits.
pub proof fn lemma_decimal_is_digits(n: nat)
    ensures
        decimal(n).len() > 0,
        forall|i: int|
            0 <= i < decimal(n).len() ==> 48 <= (#[trigger] decimal(n)[i]) as nat <= 57,
        is_ascii_chars(decimal(n)),
    decreases n,
{
    if n >= 10 {
        lemma_decimal_is_digits(n / 10);
    }
}

proof fn lemma_digits_value_of_decimal(n: nat)
    ensures
        digits_value(encode_utf8(decimal(n))) == n,
    decreases n,
{
    lemma_decimal_is_digits(n);
    is_ascii_chars_encode_utf8(decimal(n));
    let b = encode_utf8(decimal(n));
    if n >= 10 {
        lemma_decimal_is_digits(n / 10);
        is_ascii_chars_encode_utf8(decimal(n / 10));
        lemma_digits_value_of_decimal(n / 10);
        assert(b.drop_last() =~= encode_utf8(decimal(n / 10))) by {
            assert forall|i: int| 0 <= i < b.len() - 1 implies b[i] == encode_utf8(
                decimal(n / 10),
            )[i] by {
                assert(decimal(n)[i] == decimal(n / 10)[i]);
            }
        }
    } else {
        assert(b.drop_last() =~= Seq::<u8>::empty());
        assert(digits_value(b.drop_last()) == 0);
    }
    assert(b.last() == decimal(n).last() as u8);
}

/// A number in decimal reads back as that number.
pub proof fn lemma_number_of_decimal(n: nat, max: nat)
    requires
        n <= max,
    ensures
        number_value(encode_utf8(decimal(n)), max) == Some(n),
        forall|i: int|
            0 <= i < encode_utf8(decimal(n)).len() ==> is_digit(
                #[trigger] encode_utf8(decimal(n))[i],
            ),
{
    lemma_decimal_is_digits(n);
    is_ascii_chars_encode_utf8(decimal(n));
    lemma_digits_value_of_decimal(n);
    let b = encode_utf8(decimal(n));
    assert forall|i: int| 0 <= i < b.len() implies is_digit(#[trigger] b[i]) by {
        assert(b[i] == decimal(n)[i] as u8);
    }
    assert(number_digits(b) == b);
}

/// Hexadecimal text is ASCII, and reads back as the bytes that it writes.
pub proof fn lemma_hex_round_trip(b: Seq<u8>)
    ensures
        is_ascii_chars(hex_text(b)),
        encode_utf8(hex_text(b)).len() == 2 * b.len(),
        all_hex(encode_utf8(hex_text(b))),
        hex_bytes(encode_utf8(hex_text(b))) == b,
{
    let t = hex_text(b);
    assert forall|i: int| 0 <= i < t.len() implies 48 <= (#[trigger] t[i]) as nat <= 102 by {}
    is_ascii_chars_encode_utf8(t);
    let h = encode_utf8(t);
    assert forall|i: int| 0 <= i < h.len() implies nybble_value(#[trigger] h[i]) is Some by {
        assert(h[i] == t[i] as u8);
    }
    assert forall|i: int| 0 <= i < b.len() implies hex_bytes(h)[i] == b[i] by {
        assert(h[2 * i] == t[2 * i] as u8);
        assert(h[2 * i + 1] == t[2 * i + 1] as u8);
        assert((2 * i) / 2 == i && (2 * i + 1) / 2 == i);
        assert((2 * i) % 2 == 0 && (2 * i + 1) % 2 == 1);
    }
    assert(hex_bytes(h) =~= b);
}

// ---------- UTF-8 ----------

/// Encoding distributes over concatenation.
pub proof fn lemma_encode_concat(a: Seq<char>, b: Seq<char>)
    ensures
        encode_utf8(a + b) == encode_utf8(a) + encode_utf8(b),
    decreases a.len(),
{
    if a.len() == 0 {
        assert(a + b =~= b);
        assert(encode_utf8(a) + encode_utf8(b) =~= encode_utf8(b));
    } else {
        assert((a + b).drop_first() =~= a.drop_first() + b);
        lemma_encode_concat(a.drop_first(), b);
        assert(encode_utf8(a + b) =~= encode_utf8(a) + encode_utf8(b));
    }
}

/// Two texts with the same encoding are the same text.
pub proof fn lemma_encode_injective(a: Seq<char>, b: Seq<char>)
    requires
        encode_utf8(a) == encode_utf8(b),
    ensures
        a == b,
{
    encode_utf8_decode_utf8(a);
    encode_utf8_decode_utf8(b);
}

/// The place after an ASCII byte is a character boundary.
pub proof fn lemma_boundary_after_ascii(b: Seq<u8>, i: int)
    requires
        valid_utf8(b),
        0 <= i < b.len(),
        b[i] < 128,
    ensures
        is_char_boundary(b, i),
        is_char_boundary(b, i + 1),
{
    utf8_byte_ranges_bitwise(b[i]);
    is_char_boundary_iff_not_is_continuation_byte(b, i);
    valid_utf8_split(b, i);
    let rest = b.subrange(i, b.len() as int);
    assert(rest[0] == b[i]);
    let next = pop_first_scalar(rest);
    assert(valid_utf8(rest));
    assert(next =~= b.subrange(i + 1, b.len() as int));
    if i + 1 < b.len() {
        assert(valid_utf8(next));
        assert(next[0] == b[i + 1]);
        is_char_boundary_start_end_of_seq(next);
        is_char_boundary_iff_not_is_continuation_byte(next, 0);
        is_char_boundary_iff_not_is_continuation_byte(b, i + 1);
    } else {
        is_char_boundary_start_end_of_seq(b);
    }
}

/// The part of `s` between two character boundaries.
pub fn str_range<'a>(s: &'a str, from: usize, to: usize) -> (r: &'a str)
    requires
        from <= to <= s.spec_bytes().len(),
        is_char_boundary(s.spec_bytes(), from as int),
        is_char_boundary(s.spec_bytes(), to as int),
    ensures
        r.spec_bytes() == s.spec_bytes().subrange(from as int, to as int),
        r@ == decode_utf8(s.spec_bytes().subrange(from as int, to as int)),
{
    let ghost b = s.spec_bytes();
    let rest = s.split_at(from).1;
    proof {
        encode_utf8_valid_utf8(s@);
        encode_utf8_valid_utf8(rest@);
        let rb = rest.spec_bytes();
        is_char_boundary_start_end_of_seq(rb);
        if to < b.len() {
            is_char_boundary_iff_not_is_continuation_byte(b, to as int);
            is_char_boundary_iff_not_is_continuation_byte(rb, to - from);
        }
    }
    let r = rest.split_at(to - from).0;
    proof {
        encode_utf8_decode_utf8(r@);
        assert(r.spec_bytes() =~= b.subrange(from as int, to as int));
    }
    r
}

// ---------- laws ----------

/// A number in decimal has no leading zero.
pub proof fn lemma_decimal_has_no_leading_zero(n: nat)
    ensures
        n > 0 ==> decimal(n)[0] != '0',
        n == 0 ==> decimal(n) == seq!['0'],
    decreases n,
{
    if n >= 10 {
        lemma_decimal_is_digits(n / 10);
        lemma_decimal_has_no_leading_zero(n / 10);
    }
}

proof fn lemma_digits_value_of_zero_and(d: Seq<u8>)
    ensures
        digits_value(seq![48u8] + d) == digits_value(d),
    decreases d.len(),
{
    let z = seq![48u8] + d;
    if d.len() == 0 {
        reveal_with_fuel(digits_value, 2);
        assert(z.drop_last() =~= Seq::<u8>::empty());
    } else {
        assert(z.drop_last() =~= seq![48u8] + d.drop_last());
        lemma_digits_value_of_zero_and(d.drop_last());
    }
}

/// Digits write a number, also behind zeros and behind one plus sign; nothing
/// else does, and no number above the bound is read.
pub proof fn lemma_what_writes_a_number(b: Seq<u8>, d: Seq<u8>, n: nat, max: nat)
    requires
        d.len() > 0,
        forall|i: int| 0 <= i < d.len() ==> is_digit(#[trigger] d[i]),
    ensures
        number_value(seq![43u8] + d, max) == number_value(d, max),
        number_value(seq![48u8] + d, max) == number_value(d, max),
        number_value(Seq::<u8>::empty(), max) is None,
        n > max ==> number_value(encode_utf8(decimal(n)), max) is None,
        number_value(b, max) matches Some(v) ==> v <= max,
        (exists|i: int| 0 < i < b.len() && !is_digit(#[trigger] b[i])) ==> number_value(b, max)
            is None,
        b.len() > 0 && !is_digit(b[0]) && b[0] != 43 ==> number_value(b, max) is None,
{
    let p = seq![43u8] + d;
    assert(p.drop_first() =~= d);
    assert(number_digits(p) == d);
    assert(is_digit(d[0]));
    assert(number_digits(d) == d);
    let z = seq![48u8] + d;
    assert(number_digits(z) == z);
    assert forall|i: int| 0 <= i < z.len() implies is_digit(#[trigger] z[i]) by {
        if i > 0 {
            assert(z[i] == d[i - 1]);
        }
    }
    lemma_digits_value_of_zero_and(d);
    lemma_number_of_decimal(n, n);
    let e = encode_utf8(decimal(n));
    lemma_decimal_is_digits(n);
    is_ascii_chars_encode_utf8(decimal(n));
    lemma_digits_value_of_decimal(n);
    assert(is_digit(e[0]));
    assert(number_digits(e) == e);
    if exists|i: int| 0 < i < b.len() && !is_digit(#[trigger] b[i]) {
        let i = choose|i: int| 0 < i < b.len() && !is_digit(#[trigger] b[i]);
        let g = number_digits(b);
        if b[0] == 43 {
            assert(g[i - 1] == b[i]);
        } else {
            assert(g[i] == b[i]);
        }
    }
    if b.len() > 0 && !is_digit(b[0]) && b[0] != 43 {
        assert(number_digits(b)[0] == b[0]);
    }
}

/// A hexadecimal digit has the same value in either case, and no other byte has
/// one. Bytes are written in digits of the lower case.
pub proof fn lemma_hex_digits(c: u8, b: Seq<u8>)
    ensures
        nybble_value(c) is Some <==> 48 <= c <= 57 || 65 <= c <= 70 || 97 <= c <= 102,
        48 <= c <= 57 ==> nybble_value(c) == Some((c - 48) as u8),
        65 <= c <= 70 ==> nybble_value(c) == nybble_value((c + 32) as u8),
        97 <= c <= 102 ==> nybble_value(c) == Some((c - 97 + 10) as u8),
        forall|i: int|
            0 <= i < hex_text(b).len() ==> ('0' <= #[trigger] hex_text(b)[i] <= '9' || 'a'
                <= hex_text(b)[i] <= 'f'),
{
}

/// In lowercase, capital letters are small ones, and every other character is
/// what it was.
pub proof fn lemma_lowercase(s: Seq<char>, i: int)
    requires
        0 <= i < s.len(),
    ensures
        ascii_lowercase(s).len() == s.len(),
        'A' <= s[i] <= 'Z' ==> ascii_lowercase(s)[i] as u32 == s[i] as u32 + 32,
        !('A' <= s[i] <= 'Z') ==> ascii_lowercase(s)[i] == s[i],
{
}

} // verus!
