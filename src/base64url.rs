//! Base64url without padding, the encoding of each segment of a compact token.
use vstd::prelude::*;

verus! {

/// The alphabet character for a six-bit value.
pub open spec fn sextet_char(v: u8) -> u8 {
    if v < 26 {
        (65 + v) as u8
    } else if v < 52 {
        (97 + (v - 26)) as u8
    } else if v < 62 {
        (48 + (v - 52)) as u8
    } else if v == 62 {
        45u8
    } else {
        95u8
    }
}

/// The six-bit value of an alphabet character, or `None` outside the alphabet.
pub open spec fn char_sextet(c: u8) -> Option<u8> {
    if 65 <= c <= 90 {
        Some((c - 65) as u8)
    } else if 97 <= c <= 122 {
        Some((c - 71) as u8)
    } else if 48 <= c <= 57 {
        Some((c + 4) as u8)
    } else if c == 45 {
        Some(62u8)
    } else if c == 95 {
        Some(63u8)
    } else {
        None
    }
}

pub open spec fn enc3(a: u8, b: u8, c: u8) -> Seq<u8> {
    seq![
        sextet_char(a >> 2),
        sextet_char(((a & 3) << 4) | (b >> 4)),
        sextet_char(((b & 15) << 2) | (c >> 6)),
        sextet_char(c & 63),
    ]
}

pub open spec fn enc2(a: u8, b: u8) -> Seq<u8> {
    seq![sextet_char(a >> 2), sextet_char(((a & 3) << 4) | (b >> 4)), sextet_char((b & 15) << 2)]
}

pub open spec fn enc1(a: u8) -> Seq<u8> {
    seq![sextet_char(a >> 2), sextet_char((a & 3) << 4)]
}

/// Base64url encoding without padding: three bytes to four characters, a
/// trailing one or two bytes to two or three characters.
pub open spec fn b64_encode(x: Seq<u8>) -> Seq<u8>
    decreases x.len(),
{
    if x.len() == 0 {
        Seq::empty()
    } else if x.len() == 1 {
        enc1(x[0])
    } else if x.len() == 2 {
        enc2(x[0], x[1])
    } else {
        enc3(x[0], x[1], x[2]) + b64_encode(x.skip(3))
    }
}

pub open spec fn dec4(w: u8, x: u8, y: u8, z: u8) -> Seq<u8> {
    seq![(w << 2) | (x >> 4), ((x & 15) << 4) | (y >> 2), ((y & 3) << 6) | z]
}

pub open spec fn dec3(w: u8, x: u8, y: u8) -> Seq<u8> {
    seq![(w << 2) | (x >> 4), ((x & 15) << 4) | (y >> 2)]
}

pub open spec fn dec2(w: u8, x: u8) -> Seq<u8> {
    seq![(w << 2) | (x >> 4)]
}

/// Base64url decoding without padding; `None` for a character outside the
/// alphabet or a length of one more than a multiple of four.
pub open spec fn b64_decode(s: Seq<u8>) -> Option<Seq<u8>>
    decreases s.len(),
{
    if s.len() == 0 {
        Some(Seq::empty())
    } else if s.len() == 1 {
        None
    } else if s.len() == 2 {
        match (char_sextet(s[0]), char_sextet(s[1])) {
            (Some(w), Some(x)) => Some(dec2(w, x)),
            _ => None,
        }
    } else if s.len() == 3 {
        match (char_sextet(s[0]), char_sextet(s[1]), char_sextet(s[2])) {
            (Some(w), Some(x), Some(y)) => Some(dec3(w, x, y)),
            _ => None,
        }
    } else {
        match (char_sextet(s[0]), char_sextet(s[1]), char_sextet(s[2]), char_sextet(s[3])) {
            (Some(w), Some(x), Some(y), Some(z)) => match b64_decode(s.skip(4)) {
                Some(r) => Some(dec4(w, x, y, z) + r),
                None => None,
            },
            _ => None,
        }
    }
}

/// Whether every byte is a character of the alphabet.
pub open spec fn all_alphabet(s: Seq<u8>) -> bool {
    forall|i: int| 0 <= i < s.len() ==> (#[trigger] char_sextet(s[i])) is Some
}

pub open spec fn prepend(p: Seq<u8>, o: Option<Seq<u8>>) -> Option<Seq<u8>> {
    match o {
        Some(r) => Some(p + r),
        None => None,
    }
}

proof fn lemma_sextet(v: u8)
    requires
        v < 64,
    ensures
        char_sextet(sextet_char(v)) == Some(v),
{
}

proof fn lemma_bits3(a: u8, b: u8, c: u8)
    by (bit_vector)
    ensures
        (a >> 2) < 64,
        (((a & 3) << 4) | (b >> 4)) < 64,
        (((b & 15) << 2) | (c >> 6)) < 64,
        (c & 63) < 64,
        ((a >> 2) << 2) | ((((a & 3) << 4) | (b >> 4)) >> 4) == a,
        (((((a & 3) << 4) | (b >> 4)) & 15) << 4) | ((((b & 15) << 2) | (c >> 6)) >> 2) == b,
        (((((b & 15) << 2) | (c >> 6)) & 3) << 6) | (c & 63) == c,
{
}

proof fn lemma_bits2(a: u8, b: u8)
    by (bit_vector)
    ensures
        ((b & 15) << 2) < 64,
        (((((a & 3) << 4) | (b >> 4)) & 15) << 4) | (((b & 15) << 2) >> 2) == b,
{
}

proof fn lemma_bits1(a: u8)
    by (bit_vector)
    ensures
        ((a & 3) << 4) < 64,
        ((a >> 2) << 2) | (((a & 3) << 4) >> 4) == a,
{
}

/// Decoding inverts encoding.
pub proof fn lemma_b64_round_trip(x: Seq<u8>)
    ensures
        b64_decode(b64_encode(x)) == Some(x),
    decreases x.len(),
{
    if x.len() == 0 {
    } else if x.len() == 1 {
        lemma_bits1(x[0]);
        lemma_bits3(x[0], 0, 0);
        lemma_sextet(x[0] >> 2);
        lemma_sextet((x[0] & 3) << 4);
        assert(b64_decode(b64_encode(x)).unwrap() =~= x);
    } else if x.len() == 2 {
        lemma_bits2(x[0], x[1]);
        lemma_bits3(x[0], x[1], 0);
        lemma_sextet(x[0] >> 2);
        lemma_sextet(((x[0] & 3) << 4) | (x[1] >> 4));
        lemma_sextet((x[1] & 15) << 2);
        assert(b64_decode(b64_encode(x)).unwrap() =~= x);
    } else {
        let (a, b, c) = (x[0], x[1], x[2]);
        lemma_bits3(a, b, c);
        lemma_sextet(a >> 2);
        lemma_sextet(((a & 3) << 4) | (b >> 4));
        lemma_sextet(((b & 15) << 2) | (c >> 6));
        lemma_sextet(c & 63);
        let e = b64_encode(x);
        lemma_b64_round_trip(x.skip(3));
        assert(e.skip(4) =~= b64_encode(x.skip(3)));
        assert(x =~= seq![a, b, c] + x.skip(3));
    }
}

/// Every character of an encoding is in the alphabet.
pub proof fn lemma_b64_alphabet(x: Seq<u8>)
    ensures
        all_alphabet(b64_encode(x)),
    decreases x.len(),
{
    if x.len() == 0 {
    } else if x.len() == 1 {
        lemma_bits1(x[0]);
        lemma_bits3(x[0], 0, 0);
        lemma_sextet(x[0] >> 2);
        lemma_sextet((x[0] & 3) << 4);
    } else if x.len() == 2 {
        lemma_bits2(x[0], x[1]);
        lemma_bits3(x[0], x[1], 0);
        lemma_sextet(x[0] >> 2);
        lemma_sextet(((x[0] & 3) << 4) | (x[1] >> 4));
        lemma_sextet((x[1] & 15) << 2);
    } else {
        let (a, b, c) = (x[0], x[1], x[2]);
        lemma_bits3(a, b, c);
        lemma_sextet(a >> 2);
        lemma_sextet(((a & 3) << 4) | (b >> 4));
        lemma_sextet(((b & 15) << 2) | (c >> 6));
        lemma_sextet(c & 63);
        lemma_b64_alphabet(x.skip(3));
        let e = b64_encode(x);
        let t = b64_encode(x.skip(3));
        assert forall|i: int| 0 <= i < e.len() implies (#[trigger] char_sextet(e[i])) is Some by {
            if i >= 4 {
                assert(e[i] == t[i - 4]);
            }
        }
    }
}

/// Encoding is injective.
pub proof fn lemma_b64_injective(x: Seq<u8>, y: Seq<u8>)
    requires
        x != y,
    ensures
        b64_encode(x) != b64_encode(y),
{
    lemma_b64_round_trip(x);
    lemma_b64_round_trip(y);
}

fn to_char(v: u8) -> (r: u8)
    ensures
        r == sextet_char(v),
{
    if v < 26 {
        65 + v
    } else if v < 52 {
        97 + (v - 26)
    } else if v < 62 {
        48 + (v - 52)
    } else if v == 62 {
        45
    } else {
        95
    }
}

fn from_char(c: u8) -> (r: Option<u8>)
    ensures
        r == char_sextet(c),
{
    if 65 <= c && c <= 90 {
        Some(c - 65)
    } else if 97 <= c && c <= 122 {
        Some(c - 71)
    } else if 48 <= c && c <= 57 {
        Some(c + 4)
    } else if c == 45 {
        Some(62)
    } else if c == 95 {
        Some(63)
    } else {
        None
    }
}

/// Encodes bytes as base64url without padding.
pub fn encode(x: &[u8]) -> (r: Vec<u8>)
    ensures
        r@ == b64_encode(x@),
{
    let n = x.len();
    let mut out: Vec<u8> = Vec::new();
    let mut i: usize = 0;
    assert(x@.subrange(0, n as int) =~= x@);
    assert(out@ + b64_encode(x@) =~= b64_encode(x@));
    while n - i >= 3
        invariant
            n == x@.len(),
            i <= n,
            b64_encode(x@) == out@ + b64_encode(x@.subrange(i as int, n as int)),
        decreases n - i,
    {
        let a = x[i];
        let b = x[i + 1];
        let c = x[i + 2];
        let ghost rest = x@.subrange(i as int, n as int);
        let ghost prev = out@;
        assert(rest.skip(3) =~= x@.subrange(i + 3, n as int));
        assert(b64_encode(rest) == enc3(a, b, c) + b64_encode(rest.skip(3)));
        out.push(to_char(a >> 2));
        out.push(to_char(((a & 3) << 4) | (b >> 4)));
        out.push(to_char(((b & 15) << 2) | (c >> 6)));
        out.push(to_char(c & 63));
        assert(out@ =~= prev + enc3(a, b, c));
        assert(prev + (enc3(a, b, c) + b64_encode(rest.skip(3))) =~= out@ + b64_encode(
            rest.skip(3),
        ));
        i = i + 3;
    }
    let ghost prev = out@;
    let ghost rest = x@.subrange(i as int, n as int);
    if n - i == 1 {
        let a = x[i];
        out.push(to_char(a >> 2));
        out.push(to_char((a & 3) << 4));
        assert(out@ =~= prev + b64_encode(rest));
    } else if n - i == 2 {
        let a = x[i];
        let b = x[i + 1];
        out.push(to_char(a >> 2));
        out.push(to_char(((a & 3) << 4) | (b >> 4)));
        out.push(to_char((b & 15) << 2));
        assert(out@ =~= prev + b64_encode(rest));
    } else {
        assert(out@ =~= prev + b64_encode(rest));
    }
    out
}

/// Decodes base64url without padding; `None` where `b64_decode` has no result.
pub fn decode(s: &[u8]) -> (r: Option<Vec<u8>>)
    ensures
        r.deep_view() == b64_decode(s@),
{
    let n = s.len();
    let mut out: Vec<u8> = Vec::new();
    let mut i: usize = 0;
    assert(s@.subrange(0, n as int) =~= s@);
    proof {
        if let Some(r) = b64_decode(s@) {
            assert(out@ + r =~= r);
        }
    }
    while n - i >= 4
        invariant
            n == s@.len(),
            i <= n,
            b64_decode(s@) == prepend(out@, b64_decode(s@.subrange(i as int, n as int))),
        decreases n - i,
    {
        let ghost rest = s@.subrange(i as int, n as int);
        let ghost prev = out@;
        assert(rest.skip(4) =~= s@.subrange(i + 4, n as int));
        let w = match from_char(s[i]) {
            Some(v) => v,
            None => return None,
        };
        let x = match from_char(s[i + 1]) {
            Some(v) => v,
            None => return None,
        };
        let y = match from_char(s[i + 2]) {
            Some(v) => v,
            None => return None,
        };
        let z = match from_char(s[i + 3]) {
            Some(v) => v,
            None => return None,
        };
        out.push((w << 2) | (x >> 4));
        out.push(((x & 15) << 4) | (y >> 2));
        out.push(((y & 3) << 6) | z);
        assert(out@ =~= prev + dec4(w, x, y, z));
        proof {
            if let Some(r) = b64_decode(rest.skip(4)) {
                assert(prev + (dec4(w, x, y, z) + r) =~= out@ + r);
            }
        }
        i = i + 4;
    }
    let ghost prev = out@;
    let ghost rest = s@.subrange(i as int, n as int);
    if n - i == 1 {
        return None;
    } else if n - i == 2 {
        let w = match from_char(s[i]) {
            Some(v) => v,
            None => return None,
        };
        let x = match from_char(s[i + 1]) {
            Some(v) => v,
            None => return None,
        };
        out.push((w << 2) | (x >> 4));
        assert(out@ =~= prev + dec2(w, x));
    } else if n - i == 3 {
        let w = match from_char(s[i]) {
            Some(v) => v,
            None => return None,
        };
        let x = match from_char(s[i + 1]) {
            Some(v) => v,
            None => return None,
        };
        let y = match from_char(s[i + 2]) {
            Some(v) => v,
            None => return None,
        };
        out.push((w << 2) | (x >> 4));
        out.push(((x & 15) << 4) | (y >> 2));
        assert(out@ =~= prev + dec3(w, x, y));
    } else {
        assert(out@ =~= prev + Seq::<u8>::empty());
    }
    Some(out)
}

} // verus!
