use vstd::prelude::*;
use vstd::utf8::{encode_utf8, is_ascii_chars, is_ascii_chars_encode_utf8};

verus! {

/// The sixteen lowercase hexadecimal digits, in order of value.
pub open spec fn lower_hex_digits() -> Seq<char> {
    seq!['0', '1', '2', '3', '4', '5', '6', '7', '8', '9', 'a', 'b', 'c', 'd', 'e', 'f']
}

/// Lowercase hex text of a byte string: two digits per byte, high nibble first.
pub open spec fn hex_chars(b: Seq<u8>) -> Seq<char> {
    Seq::new(
        2 * b.len(),
        |i: int|
            if i % 2 == 0 {
                lower_hex_digits()[(b[i / 2] / 16) as int]
            } else {
                lower_hex_digits()[(b[i / 2] % 16) as int]
            },
    )
}

/// The value of one hex digit given as an ASCII byte, in either case.
pub open spec fn hex_value(c: u8) -> Option<int> {
    if 48 <= c <= 57 {
        Some(c - 48)
    } else if 97 <= c <= 102 {
        Some(c - 87)
    } else if 65 <= c <= 70 {
        Some(c - 55)
    } else {
        None
    }
}

/// Whether `s` is an even number of hex digits.
pub open spec fn is_hex_text(s: Seq<u8>) -> bool {
    &&& s.len() % 2 == 0
    &&& forall|i: int| 0 <= i < s.len() ==> (#[trigger] hex_value(s[i])) is Some
}

/// The bytes that hex text stands for, or `None` where it is not hex text.
pub open spec fn hex_decoded(s: Seq<u8>) -> Option<Seq<u8>> {
    if is_hex_text(s) {
        Some(
            Seq::new(
                s.len() / 2,
                |i: int| (hex_value(s[2 * i])->0 * 16 + hex_value(s[2 * i + 1])->0) as u8,
            ),
        )
    } else {
        None
    }
}

/// Each lowercase hex digit is an ASCII character whose value as a hex digit is its position.
proof fn lemma_digit_value(k: int)
    requires
        0 <= k < 16,
    ensures
        (lower_hex_digits()[k] as u8) < 128,
        hex_value(lower_hex_digits()[k] as u8) == Some(k),
{
    let s = lower_hex_digits();
    assert(s[0] == '0' && s[1] == '1' && s[2] == '2' && s[3] == '3' && s[4] == '4' && s[5] == '5');
    assert(s[6] == '6' && s[7] == '7' && s[8] == '8' && s[9] == '9' && s[10] == 'a');
    assert(s[11] == 'b' && s[12] == 'c' && s[13] == 'd' && s[14] == 'e' && s[15] == 'f');
}

/// Decoding the UTF-8 bytes of the hex text of `b` gives `b` back.
pub proof fn lemma_hex_round_trip(b: Seq<u8>)
    ensures
        hex_decoded(encode_utf8(hex_chars(b))) == Some(b),
{
    let c = hex_chars(b);
    assert forall|i: int| 0 <= i < c.len() implies '\0' <= #[trigger] c[i] <= '\u{7f}' by {
        if i % 2 == 0 {
            lemma_digit_value((b[i / 2] / 16) as int);
        } else {
            lemma_digit_value((b[i / 2] % 16) as int);
        }
    }
    assert(is_ascii_chars(c));
    is_ascii_chars_encode_utf8(c);
    let e = encode_utf8(c);
    assert forall|i: int| 0 <= i < e.len() implies (#[trigger] hex_value(e[i])) == Some(
        if i % 2 == 0 {
            (b[i / 2] / 16) as int
        } else {
            (b[i / 2] % 16) as int
        },
    ) by {
        assert(c[i] as u8 == e[i]);
        if i % 2 == 0 {
            lemma_digit_value((b[i / 2] / 16) as int);
        } else {
            lemma_digit_value((b[i / 2] % 16) as int);
        }
    }
    assert(is_hex_text(e));
    let d = Seq::new(
        e.len() / 2,
        |i: int| (hex_value(e[2 * i])->0 * 16 + hex_value(e[2 * i + 1])->0) as u8,
    );
    assert forall|i: int| 0 <= i < b.len() implies d[i] == b[i] by {
        assert(hex_value(e[2 * i]) == Some((b[i] / 16) as int));
        assert(hex_value(e[2 * i + 1]) == Some((b[i] % 16) as int));
    }
    assert(d =~= b);
}

/// Relies on hex::encode: each byte becomes two lowercase hex digits, high nibble first.
#[verifier::external_body]
pub(crate) fn encode_hex(b: &[u8]) -> (r: String)
    ensures
        r@ == hex_chars(b@),
{
    hex::encode(b)
}

/// Relies on hex::decode: succeeds exactly on an even number of hex digits of either case,
/// and gives one byte per pair of digits.
#[verifier::external_body]
pub(crate) fn decode_hex(s: &[u8]) -> (r: Option<Vec<u8>>)
    ensures
        match r {
            Some(v) => hex_decoded(s@) == Some(v@),
            None => hex_decoded(s@) is None,
        },
{
    hex::decode(s).ok()
}

/// Eight bytes of `x`, most significant first.
pub open spec fn be_u64(x: u64) -> Seq<u8> {
    Seq::new(8, |i: int| ((x >> ((56 - 8 * i) as u64)) & 0xff) as u8)
}

/// Sixteen bytes of `x`, most significant first.
pub open spec fn be_u128(x: u128) -> Seq<u8> {
    be_u64((x >> 64u128) as u64) + be_u64(x as u64)
}

/// A text field: its UTF-8 length as eight bytes, then its UTF-8 bytes.
pub open spec fn text_field(s: Seq<char>) -> Seq<u8> {
    be_u64(encode_utf8(s).len() as u64) + encode_utf8(s)
}

/// An optional text field: a zero byte for `None`, a one byte and the text for `Some`.
pub open spec fn optional_text_field(s: Option<Seq<char>>) -> Seq<u8> {
    match s {
        None => seq![0u8],
        Some(t) => seq![1u8] + text_field(t),
    }
}

pub fn push_u64(out: &mut Vec<u8>, x: u64)
    ensures
        final(out)@ == old(out)@ + be_u64(x),
{
    let ghost start = out@;
    let mut k: u64 = 0;
    while k < 8
        invariant
            k <= 8,
            out@ == start + be_u64(x).take(k as int),
        decreases 8 - k,
    {
        out.push(((x >> (56 - 8 * k)) & 0xff) as u8);
        k += 1;
        assert(out@ =~= start + be_u64(x).take(k as int));
    }
    assert(be_u64(x).take(8) =~= be_u64(x));
}

pub fn push_u128(out: &mut Vec<u8>, x: u128)
    ensures
        final(out)@ == old(out)@ + be_u128(x),
{
    let ghost start = out@;
    push_u64(out, (x >> 64u128) as u64);
    push_u64(out, x as u64);
    assert(out@ =~= start + be_u128(x));
}

pub fn push_bytes(out: &mut Vec<u8>, b: &[u8])
    ensures
        final(out)@ == old(out)@ + b@,
{
    let ghost start = out@;
    let mut k: usize = 0;
    while k < b.len()
        invariant
            k <= b@.len(),
            out@ == start + b@.take(k as int),
        decreases b@.len() - k,
    {
        out.push(b[k]);
        k += 1;
        assert(out@ =~= start + b@.take(k as int));
    }
    assert(b@.take(b@.len() as int) =~= b@);
}

pub fn push_text(out: &mut Vec<u8>, s: &str)
    ensures
        final(out)@ == old(out)@ + text_field(s@),
{
    let ghost start = out@;
    let b = s.as_bytes();
    push_u64(out, b.len() as u64);
    push_bytes(out, b);
    assert(out@ =~= start + text_field(s@));
}

pub fn push_optional_text(out: &mut Vec<u8>, s: Option<&str>)
    ensures
        final(out)@ == old(out)@ + optional_text_field(
            match s {
                None => None,
                Some(t) => Some(t@),
            },
        ),
{
    let ghost start = out@;
    match s {
        None => {
            out.push(0u8);
            assert(out@ =~= start + seq![0u8]);
        },
        Some(t) => {
            out.push(1u8);
            push_text(out, t);
            assert(out@ =~= start + (seq![1u8] + text_field(t@)));
        },
    }
}

/// Whether two texts hold the same characters.
pub fn same_text(a: &str, b: &str) -> (r: bool)
    ensures
        r == (a@ == b@),
{
    a.to_owned() == b.to_owned()
}

} // verus!
