use base64::Engine;
use vstd::prelude::*;

verus! {

/// The byte of the standard base64 alphabet that stands for the six-bit value `v`.
pub open spec fn b64_digit(v: int) -> u8 {
    if v < 26 {
        (v + 65) as u8
    } else if v < 52 {
        (v + 71) as u8
    } else if v < 62 {
        (v - 4) as u8
    } else if v == 62 {
        43u8
    } else {
        47u8
    }
}

/// The padding byte `=`.
pub open spec fn b64_pad() -> u8 {
    61u8
}

/// The four output bytes of one group of three input bytes.
pub open spec fn b64_group(b0: int, b1: int, b2: int) -> Seq<u8> {
    seq![
        b64_digit(b0 / 4),
        b64_digit((b0 % 4) * 16 + b1 / 16),
        b64_digit((b1 % 16) * 4 + b2 / 64),
        b64_digit(b2 % 64),
    ]
}

/// Standard base64 (RFC 4648, section 4) with padding: every three bytes become four
/// digits, and a final group of one or two bytes is padded with `=` to four.
pub open spec fn b64_encode(b: Seq<u8>) -> Seq<u8>
    decreases b.len(),
{
    if b.len() == 0 {
        seq![]
    } else if b.len() == 1 {
        b64_group(b[0] as int, 0, 0).subrange(0, 2) + seq![b64_pad(), b64_pad()]
    } else if b.len() == 2 {
        b64_group(b[0] as int, b[1] as int, 0).subrange(0, 3) + seq![b64_pad()]
    } else {
        b64_group(b[0] as int, b[1] as int, b[2] as int) + b64_encode(b.subrange(3, b.len() as int))
    }
}

/// Whether `s` is the padded standard base64 encoding of some byte string.
pub open spec fn is_b64(s: Seq<u8>) -> bool {
    exists|v: Seq<u8>| #[trigger] b64_encode(v) == s
}

/// The byte string whose encoding is `s`, if there is one.
pub open spec fn b64_decode(s: Seq<u8>) -> Option<Seq<u8>> {
    if is_b64(s) {
        Some(choose|v: Seq<u8>| #[trigger] b64_encode(v) == s)
    } else {
        None
    }
}

/// Relies on `base64::engine::general_purpose::STANDARD.decode`: it uses the standard
/// alphabet, requires canonical padding and rejects non-zero trailing bits, so it accepts
/// exactly the strings that `encode` produces, and returns the bytes they encode.
#[verifier::external_body]
fn decode_standard(s: &[u8]) -> (r: Option<Vec<u8>>)
    ensures
        r matches Some(v) ==> b64_encode(v@) == s@,
        is_b64(s@) ==> r is Some,
{
    base64::engine::general_purpose::STANDARD.decode(s).ok()
}

/// Relies on `base64::engine::general_purpose::STANDARD.encode`: standard alphabet with
/// padding. It panics only where the encoded length would overflow `usize`.
#[verifier::external_body]
fn encode_standard(b: &[u8]) -> (r: Vec<u8>)
    requires
        b@.len() <= isize::MAX,
    ensures
        r@ == b64_encode(b@),
{
    base64::engine::general_purpose::STANDARD.encode(b).into_bytes()
}

/// Six-bit values map to distinct digits, none of which is the padding byte.
proof fn lemma_digit(x: int, y: int)
    requires
        0 <= x < 64,
        0 <= y < 64,
    ensures
        b64_digit(x) != b64_pad(),
        b64_digit(x) == b64_digit(y) ==> x == y,
{
}

/// The length of an encoding: four bytes for each started group of three.
pub proof fn lemma_b64_encode_len(b: Seq<u8>)
    ensures
        b64_encode(b).len() == 4 * ((b.len() + 2) / 3),
    decreases b.len(),
{
    if b.len() >= 3 {
        lemma_b64_encode_len(b.subrange(3, b.len() as int));
    }
}

/// Two groups with the same digits come from the same bytes.
proof fn lemma_group_injective(x0: int, x1: int, x2: int, y0: int, y1: int, y2: int, n: int)
    requires
        0 <= x0 < 256, 0 <= x1 < 256, 0 <= x2 < 256,
        0 <= y0 < 256, 0 <= y1 < 256, 0 <= y2 < 256,
        2 <= n <= 4,
        forall|i: int| 0 <= i < n ==> b64_group(x0, x1, x2)[i] == b64_group(y0, y1, y2)[i],
    ensures
        x0 == y0,
        n >= 3 ==> x1 == y1,
        n == 2 ==> x1 / 16 == y1 / 16,
        n == 3 ==> x2 / 64 == y2 / 64,
        n == 4 ==> x2 == y2,
{
    lemma_digit(x0 / 4, y0 / 4);
    assert(b64_group(x0, x1, x2)[0] == b64_group(y0, y1, y2)[0]);
    assert(x0 / 4 == y0 / 4);
    assert(b64_group(x0, x1, x2)[1] == b64_group(y0, y1, y2)[1]);
    lemma_digit((x0 % 4) * 16 + x1 / 16, (y0 % 4) * 16 + y1 / 16);
    assert(x0 % 4 == y0 % 4);
    if n >= 3 {
        assert(b64_group(x0, x1, x2)[2] == b64_group(y0, y1, y2)[2]);
        lemma_digit((x1 % 16) * 4 + x2 / 64, (y1 % 16) * 4 + y2 / 64);
    }
    if n == 4 {
        assert(b64_group(x0, x1, x2)[3] == b64_group(y0, y1, y2)[3]);
        lemma_digit(x2 % 64, y2 % 64);
    }
}

/// No digit of a group is the padding byte.
proof fn lemma_group_no_pad(x0: int, x1: int, x2: int)
    requires
        0 <= x0 < 256, 0 <= x1 < 256, 0 <= x2 < 256,
    ensures
        forall|i: int| 0 <= i < 4 ==> #[trigger] b64_group(x0, x1, x2)[i] != b64_pad(),
{
    lemma_digit(x0 / 4, 0);
    lemma_digit((x0 % 4) * 16 + x1 / 16, 0);
    lemma_digit((x1 % 16) * 4 + x2 / 64, 0);
    lemma_digit(x2 % 64, 0);
}

/// The bytes of `b` at `i`, or zero past its end.
spec fn byte_or_zero(b: Seq<u8>, i: int) -> int {
    if i < b.len() { b[i] as int } else { 0 }
}

/// The first group of the encoding of a non-empty `b`, before padding.
spec fn first_group(b: Seq<u8>) -> Seq<u8> {
    b64_group(b[0] as int, byte_or_zero(b, 1), byte_or_zero(b, 2))
}

/// The first four bytes of an encoding: the first group, with padding where it is short.
proof fn lemma_first_four(b: Seq<u8>)
    requires
        b.len() > 0,
    ensures
        b64_encode(b).len() >= 4,
        forall|i: int| 0 <= i < 4 ==> #[trigger] b64_encode(b)[i] == (
            if b.len() == 1 && i >= 2 || b.len() == 2 && i == 3 { b64_pad() } else { first_group(b)[i] }),
        first_group(b)[2] != b64_pad(),
        first_group(b)[3] != b64_pad(),
{
    lemma_b64_encode_len(b);
    lemma_group_no_pad(b[0] as int, byte_or_zero(b, 1), byte_or_zero(b, 2));
    assert(first_group(b)[2] != b64_pad());
    assert(first_group(b)[3] != b64_pad());
}

/// Distinct byte strings have distinct encodings.
pub proof fn lemma_b64_encode_injective(a: Seq<u8>, b: Seq<u8>)
    requires
        b64_encode(a) == b64_encode(b),
    ensures
        a == b,
    decreases a.len(),
{
    let e = b64_encode(a);
    lemma_b64_encode_len(a);
    lemma_b64_encode_len(b);
    if a.len() == 0 || b.len() == 0 {
        assert(a =~= b);
        return;
    }
    lemma_first_four(a);
    lemma_first_four(b);
    assert(e[2] == b64_encode(a)[2] && e[3] == b64_encode(a)[3]);
    assert(e[2] == b64_encode(b)[2] && e[3] == b64_encode(b)[3]);
    let ca: int = if a.len() >= 3 { 3 } else { a.len() as int };
    let cb: int = if b.len() >= 3 { 3 } else { b.len() as int };
    assert(ca == cb);
    assert forall|i: int| 0 <= i < ca + 1 implies first_group(a)[i] == first_group(b)[i] by {
        assert(b64_encode(a)[i] == b64_encode(b)[i]);
    }
    lemma_group_injective(
        a[0] as int, byte_or_zero(a, 1), byte_or_zero(a, 2),
        b[0] as int, byte_or_zero(b, 1), byte_or_zero(b, 2),
        ca + 1,
    );
    if ca == 3 {
        let ta = a.subrange(3, a.len() as int);
        let tb = b.subrange(3, b.len() as int);
        assert(b64_encode(ta) =~= e.subrange(4, e.len() as int));
        assert(b64_encode(tb) =~= e.subrange(4, e.len() as int));
        lemma_b64_encode_injective(ta, tb);
        assert(a.len() == b.len());
        assert(a[0] == b[0] && a[1] == b[1] && a[2] == b[2]);
        assert forall|i: int| 3 <= i < a.len() implies a[i] == b[i] by {
            assert(a[i] == ta[i - 3] && b[i] == tb[i - 3]);
        }
        assert(a =~= b);
    } else {
        assert(a.len() == b.len());
        assert(a[0] == b[0]);
        if ca == 2 {
            assert(a[1] == b[1]);
        }
        assert(a =~= b);
    }
}

/// Decoding the encoding of any byte string gives that byte string back.
pub proof fn lemma_decode_encode(v: Seq<u8>)
    ensures
        b64_decode(b64_encode(v)) == Some(v),
{
    let s = b64_encode(v);
    assert(is_b64(s));
    let w = choose|w: Seq<u8>| #[trigger] b64_encode(w) == s;
    lemma_b64_encode_injective(w, v);
}

/// Encoding what a well-formed base64 string decodes to gives that string back.
pub proof fn lemma_encode_decode(s: Seq<u8>)
    requires
        is_b64(s),
    ensures
        b64_decode(s) is Some,
        b64_encode(b64_decode(s)->0) == s,
{
}

/// The padded standard base64 encoding of `b`.
pub fn encode(b: &[u8]) -> (r: Vec<u8>)
    requires
        b@.len() <= isize::MAX,
    ensures
        r@ == b64_encode(b@),
{
    encode_standard(b)
}

/// The bytes that the padded standard base64 string `s` encodes, or `None` where `s` is
/// not such a string.
pub fn decode(s: &[u8]) -> (r: Option<Vec<u8>>)
    ensures
        match r {
            Some(v) => b64_decode(s@) == Some(v@),
            None => b64_decode(s@) is None,
        },
{
    let r = decode_standard(s);
    proof {
        if r is Some {
            lemma_decode_encode(r->0@);
        }
    }
    r
}

} // verus!
