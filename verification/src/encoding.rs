//! Byte and text encodings of the wire formats: big-endian integers,
//! lowercase hex, and standard padded base64 (RFC 4648 §4).

use vstd::prelude::*;
use base64::Engine;

verus! {

/// `256` raised to `k`: the number of values that `k` bytes can hold.
pub open spec fn pow256(k: nat) -> nat
    decreases k,
{
    if k == 0 { 1 } else { 256 * pow256((k - 1) as nat) }
}

/// The `k`-byte big-endian encoding of `n` (modulo `256^k`).
pub open spec fn be_bytes(n: nat, k: nat) -> Seq<u8>
    decreases k,
{
    if k == 0 {
        seq![]
    } else {
        be_bytes(n / 256, (k - 1) as nat).push((n % 256) as u8)
    }
}

pub proof fn lemma_be_bytes_len(n: nat, k: nat)
    ensures
        #[trigger] be_bytes(n, k).len() == k,
    decreases k,
{
    if k > 0 {
        lemma_be_bytes_len(n / 256, (k - 1) as nat);
    }
}

/// The value of a big-endian byte string.
pub open spec fn be_value(s: Seq<u8>) -> nat
    decreases s.len(),
{
    if s.len() == 0 {
        0
    } else {
        be_value(s.drop_last()) * 256 + s.last() as nat
    }
}

pub proof fn lemma_pow256_positive(k: nat)
    ensures
        pow256(k) >= 1,
    decreases k,
{
    if k > 0 {
        lemma_pow256_positive((k - 1) as nat);
    }
}

/// Encoding then decoding a value that fits in `k` bytes gives it back.
pub proof fn lemma_be_roundtrip(n: nat, k: nat)
    requires
        n < pow256(k),
    ensures
        be_bytes(n, k).len() == k,
        be_value(be_bytes(n, k)) == n,
    decreases k,
{
    if k > 0 {
        let q = n / 256;
        let r = n % 256;
        assert(n == q * 256 + r && 0 <= r < 256) by (nonlinear_arith)
            requires
                q == n / 256,
                r == n % 256,
        ;
        assert(q < pow256((k - 1) as nat)) by (nonlinear_arith)
            requires
                n == q * 256 + r,
                0 <= r < 256,
                n < 256 * pow256((k - 1) as nat),
        ;
        lemma_be_roundtrip(q, (k - 1) as nat);
        let s = be_bytes(n, k);
        assert(s.drop_last() =~= be_bytes(q, (k - 1) as nat));
    }
}

/// The value of a `k`-byte string is below `256^k`.
pub proof fn lemma_be_value_bound(s: Seq<u8>)
    ensures
        be_value(s) < pow256(s.len()),
    decreases s.len(),
{
    if s.len() > 0 {
        lemma_be_value_bound(s.drop_last());
        let v = be_value(s.drop_last());
        let p = pow256((s.len() - 1) as nat);
        let b = s.last() as nat;
        assert(v * 256 + b < 256 * p) by (nonlinear_arith)
            requires
                v < p,
                b < 256,
        ;
    }
}

/// Decoding then encoding a byte string gives it back.
pub proof fn lemma_be_value_roundtrip(s: Seq<u8>)
    ensures
        be_bytes(be_value(s), s.len()) =~= s,
    decreases s.len(),
{
    if s.len() > 0 {
        let v = be_value(s.drop_last());
        let b = s.last() as nat;
        let n = v * 256 + b;
        assert(n / 256 == v && n % 256 == b) by (nonlinear_arith)
            requires
                n == v * 256 + b,
                b < 256,
        ;
        lemma_be_value_roundtrip(s.drop_last());
        assert(s.drop_last().push(s.last()) =~= s);
    }
}

/// The `k`-byte big-endian encoding of `n`.
pub fn be_encode(n: u64, k: usize) -> (r: Vec<u8>)
    ensures
        r@ == be_bytes(n as nat, k as nat),
    decreases k,
{
    if k == 0 {
        Vec::new()
    } else {
        let mut v = be_encode(n / 256, k - 1);
        v.push((n % 256) as u8);
        v
    }
}

/// The value of a big-endian byte string of at most eight bytes.
pub fn be_decode(s: &[u8]) -> (r: u64)
    requires
        s@.len() <= 8,
    ensures
        r as nat == be_value(s@),
{
    let mut acc: u64 = 0;
    let mut i: usize = 0;
    proof {
        reveal_with_fuel(pow256, 9);
        assert(pow256(8) == 0x1_0000_0000_0000_0000);
        assert(256 * pow256(7) == 0x1_0000_0000_0000_0000);
        assert(s@.take(0) =~= Seq::<u8>::empty());
    }
    while i < s.len()
        invariant
            i <= s@.len() <= 8,
            acc as nat == be_value(s@.take(i as int)),
            256 * pow256(7) == 0x1_0000_0000_0000_0000,
        decreases s@.len() - i,
    {
        proof {
            lemma_be_value_bound(s@.take(i as int));
            lemma_pow256_monotone(i as nat, 7);
        }
        let b = s[i];
        assert(acc * 256 + b < 0x1_0000_0000_0000_0000) by (nonlinear_arith)
            requires
                acc < pow256(i as nat),
                pow256(i as nat) <= pow256(7),
                256 * pow256(7) == 0x1_0000_0000_0000_0000,
                b < 256,
        ;
        acc = acc * 256 + b as u64;
        i = i + 1;
        assert(s@.take(i as int).drop_last() =~= s@.take(i - 1));
    }
    assert(s@.take(i as int) =~= s@);
    acc
}

pub proof fn lemma_pow256_monotone(a: nat, b: nat)
    requires
        a <= b,
    ensures
        pow256(a) <= pow256(b),
    decreases b,
{
    if a < b {
        lemma_pow256_monotone(a, (b - 1) as nat);
        lemma_pow256_positive((b - 1) as nat);
    }
}

/// The lowercase hexadecimal digit of a value below 16.
pub open spec fn hex_digit(v: nat) -> char {
    if v < 10 {
        (48 + v) as char
    } else {
        (87 + v) as char
    }
}

/// Lowercase hexadecimal: two digits per byte, most significant first.
pub open spec fn hex_lower(s: Seq<u8>) -> Seq<char>
    decreases s.len(),
{
    if s.len() == 0 {
        seq![]
    } else {
        hex_lower(s.drop_last()) + seq![
            hex_digit(s.last() as nat / 16),
            hex_digit(s.last() as nat % 16),
        ]
    }
}

/// Hex doubles the length, and every character is a lowercase hex digit.
pub proof fn lemma_hex_lower(s: Seq<u8>)
    ensures
        hex_lower(s).len() == 2 * s.len(),
        forall|i: int|
            0 <= i < hex_lower(s).len() ==> ('0' <= #[trigger] hex_lower(s)[i] <= '9' || 'a' <= hex_lower(s)[i] <= 'f'),
    decreases s.len(),
{
    if s.len() > 0 {
        lemma_hex_lower(s.drop_last());
    }
}

/// `String::push`: appends one character.
#[verifier::external_body]
fn string_push(s: &mut String, c: char)
    ensures
        final(s)@ == old(s)@.push(c),
{
    s.push(c)
}

fn hex_char(v: u8) -> (c: char)
    requires
        v < 16,
    ensures
        c == hex_digit(v as nat),
{
    if v < 10 {
        (v + 48) as char
    } else {
        (v + 87) as char
    }
}

/// Lowercase hexadecimal of a byte string.
pub fn hex_encode(bytes: &[u8]) -> (r: String)
    ensures
        r@ == hex_lower(bytes@),
{
    let mut out = String::new();
    let mut i: usize = 0;
    assert(bytes@.take(0) =~= Seq::<u8>::empty());
    while i < bytes.len()
        invariant
            i <= bytes@.len(),
            out@ == hex_lower(bytes@.take(i as int)),
        decreases bytes@.len() - i,
    {
        let b = bytes[i];
        string_push(&mut out, hex_char(b / 16));
        string_push(&mut out, hex_char(b % 16));
        i = i + 1;
        assert(bytes@.take(i as int).drop_last() =~= bytes@.take(i - 1));
        assert(out@ =~= hex_lower(bytes@.take(i as int)));
    }
    assert(bytes@.take(i as int) =~= bytes@);
    out
}

/// The character of a 6-bit value in the standard base64 alphabet.
pub open spec fn b64_digit(v: nat) -> char {
    if v < 26 {
        (65 + v) as char
    } else if v < 52 {
        (71 + v) as char
    } else if v < 62 {
        (v - 4) as char
    } else if v == 62 {
        '+'
    } else {
        '/'
    }
}

/// Standard base64 with `=` padding (RFC 4648 §4): each 3-byte group becomes
/// four alphabet characters; a final group of one or two bytes is padded.
pub open spec fn b64_encode(s: Seq<u8>) -> Seq<char>
    decreases s.len(),
{
    if s.len() == 0 {
        seq![]
    } else if s.len() == 1 {
        seq![b64_digit(s[0] as nat / 4), b64_digit((s[0] as nat % 4) * 16), '=', '=']
    } else if s.len() == 2 {
        seq![
            b64_digit(s[0] as nat / 4),
            b64_digit((s[0] as nat % 4) * 16 + s[1] as nat / 16),
            b64_digit((s[1] as nat % 16) * 4),
            '=',
        ]
    } else {
        seq![
            b64_digit(s[0] as nat / 4),
            b64_digit((s[0] as nat % 4) * 16 + s[1] as nat / 16),
            b64_digit((s[1] as nat % 16) * 4 + s[2] as nat / 64),
            b64_digit(s[2] as nat % 64),
        ] + b64_encode(s.subrange(3, s.len() as int))
    }
}

proof fn lemma_b64_digit(a: nat, b: nat)
    requires
        a < 64,
        b < 64,
    ensures
        b64_digit(a) != '=',
        b64_digit(a) == b64_digit(b) ==> a == b,
{
}

/// The first four characters of an encoding, and what they show: one byte
/// pads twice, two bytes pad once, three or more bytes do not pad.
proof fn lemma_b64_head(s: Seq<u8>)
    requires
        s.len() > 0,
    ensures
        b64_encode(s).len() >= 4,
        (b64_encode(s)[2] == '=') <==> s.len() == 1,
        (b64_encode(s)[3] == '=') <==> s.len() <= 2,
{
    lemma_b64_digit(s[0] as nat / 4, 0);
    if s.len() >= 2 {
        lemma_b64_digit((s[1] as nat % 16) * 4, 0);
    }
    if s.len() >= 3 {
        lemma_b64_digit((s[1] as nat % 16) * 4 + s[2] as nat / 64, 0);
        lemma_b64_digit(s[2] as nat % 64, 0);
    }
}

/// Encoding is injective: different byte strings have different base64
/// encodings, so a text decodes to at most one byte string.
pub proof fn lemma_b64_injective(x: Seq<u8>, y: Seq<u8>)
    requires
        b64_encode(x) == b64_encode(y),
    ensures
        x == y,
    decreases x.len(),
{
    if x.len() == 0 {
        if y.len() > 0 {
            lemma_b64_head(y);
        }
        assert(y.len() == 0);
        assert(x =~= y);
    } else {
        if y.len() == 0 {
            lemma_b64_head(x);
        }
        lemma_b64_head(x);
        lemma_b64_head(y);
        let e = b64_encode(x);
        let x0 = x[0] as nat;
        let y0 = y[0] as nat;
        lemma_b64_digit(x0 / 4, y0 / 4);
        if x.len() == 1 {
            lemma_b64_digit((x0 % 4) * 16, (y0 % 4) * 16);
            assert(x0 == y0) by (nonlinear_arith)
                requires
                    x0 / 4 == y0 / 4,
                    (x0 % 4) * 16 == (y0 % 4) * 16,
            ;
            assert(x =~= y);
        } else {
            let x1 = x[1] as nat;
            let y1 = y[1] as nat;
            lemma_b64_digit((x0 % 4) * 16 + x1 / 16, (y0 % 4) * 16 + y1 / 16);
            if x.len() == 2 {
                lemma_b64_digit((x1 % 16) * 4, (y1 % 16) * 4);
                assert(x0 == y0 && x1 == y1) by (nonlinear_arith)
                    requires
                        x0 / 4 == y0 / 4,
                        (x0 % 4) * 16 + x1 / 16 == (y0 % 4) * 16 + y1 / 16,
                        (x1 % 16) * 4 == (y1 % 16) * 4,
                        x1 < 256,
                        y1 < 256,
                ;
                assert(x =~= y);
            } else {
                let x2 = x[2] as nat;
                let y2 = y[2] as nat;
                let f = b64_encode(y);
                assert(e[0] == b64_digit(x0 / 4) && f[0] == b64_digit(y0 / 4));
                assert(e[1] == b64_digit((x0 % 4) * 16 + x1 / 16) && f[1] == b64_digit((y0 % 4) * 16 + y1 / 16));
                assert(e[2] == b64_digit((x1 % 16) * 4 + x2 / 64) && f[2] == b64_digit((y1 % 16) * 4 + y2 / 64));
                assert(e[3] == b64_digit(x2 % 64) && f[3] == b64_digit(y2 % 64));
                lemma_b64_digit(x0 / 4, y0 / 4);
                lemma_b64_digit((x1 % 16) * 4 + x2 / 64, (y1 % 16) * 4 + y2 / 64);
                lemma_b64_digit(x2 % 64, y2 % 64);
                assert(x0 == y0 && x1 == y1 && x2 == y2) by (nonlinear_arith)
                    requires
                        x0 / 4 == y0 / 4,
                        (x0 % 4) * 16 + x1 / 16 == (y0 % 4) * 16 + y1 / 16,
                        (x1 % 16) * 4 + x2 / 64 == (y1 % 16) * 4 + y2 / 64,
                        x2 % 64 == y2 % 64,
                        x1 < 256,
                        y1 < 256,
                        x2 < 256,
                        y2 < 256,
                ;
                let xr = x.subrange(3, x.len() as int);
                let yr = y.subrange(3, y.len() as int);
                assert(b64_encode(xr) =~= e.subrange(4, e.len() as int));
                assert(b64_encode(yr) =~= b64_encode(y).subrange(4, e.len() as int));
                lemma_b64_injective(xr, yr);
                assert(x =~= y) by {
                    assert forall|i: int| 0 <= i < x.len() implies x[i] == y[i] by {
                        if i >= 3 {
                            assert(xr[i - 3] == yr[i - 3]);
                        }
                    }
                }
            }
        }
    }
}

#[verifier::external_type_specification]
#[verifier::external_body]
pub struct ExDecodeError(base64::DecodeError);

/// `base64::Engine::encode` on the standard padded engine
/// (`base64::prelude::BASE64_STANDARD`). The claim: the result is exactly the
/// RFC 4648 §4 encoding, as `b64_encode` states it.
#[verifier::external_body]
pub(crate) fn base64_encode(bytes: &[u8]) -> (r: String)
    ensures
        r@ == b64_encode(bytes@),
{
    base64::prelude::BASE64_STANDARD.encode(bytes)
}

/// `base64::Engine::decode` on the standard padded engine, whose
/// configuration requires canonical padding and rejects nonzero trailing
/// bits. The claim: it succeeds exactly on the canonical encodings, and gives
/// back the bytes that were encoded.
#[verifier::external_body]
pub(crate) fn base64_decode(text: &str) -> (r: Result<Vec<u8>, base64::DecodeError>)
    ensures
        r is Ok ==> text@ == b64_encode(r->Ok_0@),
        forall|x: Seq<u8>| #[trigger] b64_encode(x) == text@ ==> (r is Ok && r->Ok_0@ == x),
{
    base64::prelude::BASE64_STANDARD.decode(text)
}

/// Decodes standard padded base64, giving the decoder's message on failure.
pub fn decode_base64(text: &str) -> (r: Result<Vec<u8>, String>)
    ensures
        r matches Ok(x) ==> text@ == b64_encode(x@),
        forall|x: Seq<u8>| #[trigger] b64_encode(x) == text@ ==> (r matches Ok(y) && y@ == x),
{
    match base64_decode(text) {
        Ok(v) => Ok(v),
        Err(e) => Err(e.to_string()),
    }
}

/// Encodes bytes as standard padded base64.
pub fn encode_base64(bytes: &[u8]) -> (r: String)
    ensures
        r@ == b64_encode(bytes@),
{
    base64_encode(bytes)
}

} // verus!
