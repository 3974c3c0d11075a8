//! The JSON texts carried by a token: the fixed header and the claims payload
//! `{"sub":"<sub>","role":"<role>","exp":<seconds>}`.
use vstd::prelude::*;

use crate::bytes::{append_bytes, has_at};

verus! {

/// `{"typ":"JWT","alg":"HS512"}`
pub open spec fn header_json() -> Seq<u8> {
    seq![
        123u8, 34, 116, 121, 112, 34, 58, 34, 74, 87, 84, 34, 44, 34, 97, 108, 103, 34, 58, 34, 72,
        83, 53, 49, 50, 34, 125,
    ]
}

/// `{"sub":"`
pub open spec fn sub_open() -> Seq<u8> {
    seq![123u8, 34, 115, 117, 98, 34, 58, 34]
}

/// `,"role":"`
pub open spec fn role_open() -> Seq<u8> {
    seq![44u8, 34, 114, 111, 108, 101, 34, 58, 34]
}

/// `,"exp":`
pub open spec fn exp_open() -> Seq<u8> {
    seq![44u8, 34, 101, 120, 112, 34, 58]
}

pub open spec fn hex_digit(v: u8) -> u8 {
    if v < 10 {
        (48 + v) as u8
    } else {
        (87 + v) as u8
    }
}

pub open spec fn hex_value(c: u8) -> Option<u8> {
    if 48 <= c <= 57 {
        Some((c - 48) as u8)
    } else if 97 <= c <= 102 {
        Some((c - 87) as u8)
    } else {
        None
    }
}

/// The JSON string escape of one byte: quote and backslash by a backslash,
/// control bytes as `\u00XY`.
pub open spec fn escape_byte(b: u8) -> Seq<u8> {
    if b == 34 {
        seq![92u8, 34]
    } else if b == 92 {
        seq![92u8, 92]
    } else if b < 32 {
        seq![92u8, 117, 48, 48, hex_digit(b / 16), hex_digit(b % 16)]
    } else {
        seq![b]
    }
}

pub open spec fn escape(s: Seq<u8>) -> Seq<u8>
    decreases s.len(),
{
    if s.len() == 0 {
        Seq::empty()
    } else {
        escape_byte(s[0]) + escape(s.skip(1))
    }
}

pub open spec fn prefix_content(b: u8, o: Option<(Seq<u8>, Seq<u8>)>) -> Option<(Seq<u8>, Seq<u8>)> {
    match o {
        Some((c, r)) => Some((seq![b] + c, r)),
        None => None,
    }
}

/// Reads the body of a JSON string up to its closing quote: the unescaped
/// content and what follows the quote.
pub open spec fn unescape(s: Seq<u8>) -> Option<(Seq<u8>, Seq<u8>)>
    decreases s.len(),
{
    if s.len() == 0 {
        None
    } else if s[0] == 34 {
        Some((Seq::empty(), s.skip(1)))
    } else if s[0] == 92 {
        if s.len() >= 2 && (s[1] == 34 || s[1] == 92) {
            prefix_content(s[1], unescape(s.skip(2)))
        } else if s.len() >= 6 && s[1] == 117 && s[2] == 48 && s[3] == 48 && hex_value(s[4]) is Some
            && hex_value(s[5]) is Some {
            prefix_content(
                (hex_value(s[4]).unwrap() * 16 + hex_value(s[5]).unwrap()) as u8,
                unescape(s.skip(6)),
            )
        } else {
            None
        }
    } else if s[0] < 32 {
        None
    } else {
        prefix_content(s[0], unescape(s.skip(1)))
    }
}

/// The decimal digits of `n`, without leading zeros.
pub open spec fn dec_digits(n: nat) -> Seq<u8>
    decreases n,
{
    if n < 10 {
        seq![(48 + n) as u8]
    } else {
        dec_digits(n / 10).push((48 + n % 10) as u8)
    }
}

pub open spec fn all_digits(s: Seq<u8>) -> bool {
    forall|i: int| 0 <= i < s.len() ==> 48 <= #[trigger] s[i] <= 57
}

pub open spec fn digits_value(s: Seq<u8>) -> nat
    decreases s.len(),
{
    if s.len() == 0 {
        0
    } else {
        digits_value(s.drop_last()) * 10 + (s.last() - 48) as nat
    }
}

/// The expiry field and the closing brace: one or more digits whose value
/// fits in 64 bits, then `}` as the last byte.
pub open spec fn parse_exp(s: Seq<u8>) -> Option<u64> {
    if s.len() >= 2 && s.last() == 125 && all_digits(s.drop_last()) && digits_value(s.drop_last())
        <= u64::MAX {
        Some(digits_value(s.drop_last()) as u64)
    } else {
        None
    }
}

/// The claims payload.
pub open spec fn claims_json(sub: Seq<u8>, role: Seq<u8>, exp: u64) -> Seq<u8> {
    sub_open() + escape(sub) + seq![34u8] + role_open() + escape(role) + seq![34u8] + exp_open()
        + dec_digits(exp as nat) + seq![125u8]
}

/// Reads a claims payload back into subject, role text and expiry.
pub open spec fn parse_claims(j: Seq<u8>) -> Option<(Seq<u8>, Seq<u8>, u64)> {
    if j.len() >= 8 && j.take(8) == sub_open() {
        match unescape(j.skip(8)) {
            Some((sub, r1)) => if r1.len() >= 9 && r1.take(9) == role_open() {
                match unescape(r1.skip(9)) {
                    Some((role, r2)) => if r2.len() >= 7 && r2.take(7) == exp_open() {
                        match parse_exp(r2.skip(7)) {
                            Some(exp) => Some((sub, role, exp)),
                            None => None,
                        }
                    } else {
                        None
                    },
                    None => None,
                }
            } else {
                None
            },
            None => None,
        }
    } else {
        None
    }
}

pub proof fn lemma_escape_concat(a: Seq<u8>, b: Seq<u8>)
    ensures
        escape(a + b) == escape(a) + escape(b),
    decreases a.len(),
{
    if a.len() == 0 {
        assert(a + b =~= b);
        assert(escape(a) + escape(b) =~= escape(b));
    } else {
        assert((a + b).skip(1) =~= a.skip(1) + b);
        lemma_escape_concat(a.skip(1), b);
        assert(escape(a + b) =~= escape(a) + escape(b));
    }
}

/// Reading an escaped string back gives the bytes before escaping and what follows the quote.
pub proof fn lemma_unescape_escape(x: Seq<u8>, rest: Seq<u8>)
    ensures
        unescape(escape(x) + seq![34u8] + rest) == Some((x, rest)),
    decreases x.len(),
{
    let s = escape(x) + seq![34u8] + rest;
    if x.len() == 0 {
        assert(s =~= seq![34u8] + rest);
        assert(s.skip(1) =~= rest);
    } else {
        let b = x[0];
        let t = escape(x.skip(1)) + seq![34u8] + rest;
        lemma_unescape_escape(x.skip(1), rest);
        let e = escape_byte(b);
        assert(s =~= e + t);
        assert(s.skip(e.len() as int) =~= t);
        if b < 32 && b != 34 && b != 92 {
            assert(hex_value(hex_digit(b / 16)) == Some(b / 16));
            assert(hex_value(hex_digit(b % 16)) == Some(b % 16));
        }
        assert(seq![b] + x.skip(1) =~= x);
    }
}

pub proof fn lemma_dec_digits(n: nat)
    ensures
        all_digits(dec_digits(n)),
        dec_digits(n).len() >= 1,
        digits_value(dec_digits(n)) == n,
    decreases n,
{
    if n >= 10 {
        lemma_dec_digits(n / 10);
        assert(dec_digits(n).drop_last() =~= dec_digits(n / 10));
        assert((n / 10) * 10 + n % 10 == n) by (nonlinear_arith);
        let s = dec_digits(n);
        assert(s.last() == (48 + n % 10) as u8);
        assert(s.last() - 48 == n % 10);
        assert(digits_value(s) == digits_value(dec_digits(n / 10)) * 10 + n % 10);
    } else {
        let s = dec_digits(n);
        assert(s.drop_last() =~= Seq::<u8>::empty());
        assert(s.last() - 48 == n);
        assert(digits_value(s) == digits_value(s.drop_last()) * 10 + n);
    }
}

/// Parsing a payload gives back the claims it was written from.
pub proof fn lemma_parse_claims_json(sub: Seq<u8>, role: Seq<u8>, exp: u64)
    ensures
        parse_claims(claims_json(sub, role, exp)) == Some((sub, role, exp)),
{
    let d = dec_digits(exp as nat) + seq![125u8];
    let r2 = exp_open() + d;
    let r1 = role_open() + escape(role) + seq![34u8] + r2;
    let j = claims_json(sub, role, exp);
    assert(j =~= sub_open() + (escape(sub) + seq![34u8] + r1));
    assert(j.take(8) =~= sub_open());
    assert(j.skip(8) =~= escape(sub) + seq![34u8] + r1);
    lemma_unescape_escape(sub, r1);
    assert(unescape(j.skip(8)) == Some((sub, r1)));
    assert(r1.take(9) =~= role_open());
    assert(r1.skip(9) =~= escape(role) + seq![34u8] + r2);
    lemma_unescape_escape(role, r2);
    assert(unescape(r1.skip(9)) == Some((role, r2)));
    assert(r2.take(7) =~= exp_open());
    assert(r2.skip(7) =~= d);
    lemma_dec_digits(exp as nat);
    assert(d.drop_last() =~= dec_digits(exp as nat));
    assert(parse_exp(r2.skip(7)) == Some(exp));
}


pub open spec fn prepend_content(p: Seq<u8>, o: Option<(Seq<u8>, Seq<u8>)>) -> Option<(Seq<u8>, Seq<u8>)> {
    match o {
        Some((c, r)) => Some((p + c, r)),
        None => None,
    }
}

proof fn lemma_prepend_step(p: Seq<u8>, b: u8, u: Option<(Seq<u8>, Seq<u8>)>)
    ensures
        prepend_content(p, prefix_content(b, u)) == prepend_content(p.push(b), u),
{
    if let Some((c, r)) = u {
        assert(p + (seq![b] + c) =~= p.push(b) + c);
    }
}

proof fn lemma_digits_value_prefix(s: Seq<u8>, i: int)
    requires
        0 <= i <= s.len(),
    ensures
        digits_value(s.take(i)) <= digits_value(s),
    decreases s.len(),
{
    if i < s.len() {
        lemma_digits_value_prefix(s.drop_last(), i);
        assert(s.drop_last().take(i) =~= s.take(i));
    } else {
        assert(s.take(i) =~= s);
    }
}

fn hex_digit_exec(v: u8) -> (r: u8)
    requires
        v < 16,
    ensures
        r == hex_digit(v),
{
    if v < 10 {
        48 + v
    } else {
        87 + v
    }
}

fn hex_value_exec(c: u8) -> (r: Option<u8>)
    ensures
        r == hex_value(c),
{
    if 48 <= c && c <= 57 {
        Some(c - 48)
    } else if 97 <= c && c <= 102 {
        Some(c - 87)
    } else {
        None
    }
}

/// Appends the JSON string escape of `s`.
pub fn push_escaped(out: &mut Vec<u8>, s: &[u8])
    ensures
        final(out)@ == old(out)@ + escape(s@),
{
    let mut i: usize = 0;
    while i < s.len()
        invariant
            i <= s@.len(),
            out@ == old(out)@ + escape(s@.take(i as int)),
        decreases s@.len() - i,
    {
        let b = s[i];
        let ghost prev = out@;
        if b == 34 {
            out.push(92);
            out.push(34);
        } else if b == 92 {
            out.push(92);
            out.push(92);
        } else if b < 32 {
            out.push(92);
            out.push(117);
            out.push(48);
            out.push(48);
            out.push(hex_digit_exec(b / 16));
            out.push(hex_digit_exec(b % 16));
        } else {
            out.push(b);
        }
        proof {
            assert(out@ =~= prev + escape_byte(b));
            lemma_escape_concat(s@.take(i as int), seq![b]);
            assert(s@.take(i as int + 1) =~= s@.take(i as int) + seq![b]);
            assert(seq![b].skip(1) =~= Seq::<u8>::empty());
            assert(seq![b][0] == b);
            assert(escape(Seq::<u8>::empty()) == Seq::<u8>::empty());
            assert(escape_byte(b) + Seq::<u8>::empty() =~= escape_byte(b));
            assert(escape(seq![b]) == escape_byte(b) + escape(Seq::<u8>::empty()));
            assert(out@ =~= old(out)@ + escape(s@.take(i as int + 1)));
        }
        i = i + 1;
    }
    assert(s@.take(s@.len() as int) =~= s@);
}

/// Appends the decimal digits of `n`.
pub fn push_digits(out: &mut Vec<u8>, n: u64)
    ensures
        final(out)@ == old(out)@ + dec_digits(n as nat),
    decreases n,
{
    if n >= 10 {
        push_digits(out, n / 10);
    }
    out.push(48 + (n % 10) as u8);
    assert(out@ =~= old(out)@ + dec_digits(n as nat));
}

/// The header text `{"typ":"JWT","alg":"HS512"}`.
pub fn header_bytes() -> (r: Vec<u8>)
    ensures
        r@ == header_json(),
{
    let r: Vec<u8> = vec![
        123u8, 34, 116, 121, 112, 34, 58, 34, 74, 87, 84, 34, 44, 34, 97, 108, 103, 34, 58, 34, 72,
        83, 53, 49, 50, 34, 125,
    ];
    assert(r@ =~= header_json());
    r
}

/// Writes the claims payload for a subject, a role text and an expiry.
pub fn claims_payload(sub: &[u8], role: &[u8], exp: u64) -> (r: Vec<u8>)
    ensures
        r@ == claims_json(sub@, role@, exp),
{
    let so: [u8; 8] = [123u8, 34, 115, 117, 98, 34, 58, 34];
    let ro: [u8; 9] = [44u8, 34, 114, 111, 108, 101, 34, 58, 34];
    let eo: [u8; 7] = [44u8, 34, 101, 120, 112, 34, 58];
    assert(so@ =~= sub_open());
    assert(ro@ =~= role_open());
    assert(eo@ =~= exp_open());
    let mut out: Vec<u8> = Vec::new();
    append_bytes(&mut out, so.as_slice());
    push_escaped(&mut out, sub);
    out.push(34);
    append_bytes(&mut out, ro.as_slice());
    push_escaped(&mut out, role);
    out.push(34);
    append_bytes(&mut out, eo.as_slice());
    push_digits(&mut out, exp);
    out.push(125);
    assert(out@ =~= claims_json(sub@, role@, exp));
    out
}

/// Reads a JSON string body starting at `start`: its content and the index
/// just past its closing quote.
pub fn unescape_at(s: &[u8], start: usize) -> (r: Option<(Vec<u8>, usize)>)
    requires
        start <= s@.len(),
    ensures
        match (unescape(s@.subrange(start as int, s@.len() as int)), r) {
            (Some((c, rest)), Some((v, k))) => v@ == c && k <= s@.len() && rest == s@.subrange(
                k as int,
                s@.len() as int,
            ),
            (None, None) => true,
            _ => false,
        },
{
    let n = s.len();
    let mut out: Vec<u8> = Vec::new();
    let mut i: usize = start;
    proof {
        if let Some((c, rest)) = unescape(s@.subrange(start as int, n as int)) {
            assert(out@ + c =~= c);
        }
    }
    while i < n
        invariant
            n == s@.len(),
            start <= i <= n,
            unescape(s@.subrange(start as int, n as int)) == prepend_content(
                out@,
                unescape(s@.subrange(i as int, n as int)),
            ),
        decreases n - i,
    {
        let ghost rest = s@.subrange(i as int, n as int);
        let b = s[i];
        if b == 34 {
            assert(rest.skip(1) =~= s@.subrange(i + 1, n as int));
            assert(out@ + Seq::<u8>::empty() =~= out@);
            return Some((out, i + 1));
        } else if b == 92 {
            if i + 1 < n && (s[i + 1] == 34 || s[i + 1] == 92) {
                let c = s[i + 1];
                proof {
                    assert(rest.skip(2) =~= s@.subrange(i + 2, n as int));
                    lemma_prepend_step(out@, c, unescape(rest.skip(2)));
                }
                out.push(c);
                i = i + 2;
            } else if n - i > 5 && s[i + 1] == 117 && s[i + 2] == 48 && s[i + 3] == 48 {
                let h = hex_value_exec(s[i + 4]);
                let l = hex_value_exec(s[i + 5]);
                if h.is_none() || l.is_none() {
                    return None;
                }
                let c = h.unwrap() * 16 + l.unwrap();
                proof {
                    assert(rest.skip(6) =~= s@.subrange(i + 6, n as int));
                    lemma_prepend_step(out@, c, unescape(rest.skip(6)));
                }
                out.push(c);
                i = i + 6;
            } else {
                return None;
            }
        } else if b < 32 {
            return None;
        } else {
            proof {
                assert(rest.skip(1) =~= s@.subrange(i + 1, n as int));
                lemma_prepend_step(out@, b, unescape(rest.skip(1)));
            }
            out.push(b);
            i = i + 1;
        }
    }
    None
}

/// Reads the expiry field: digits from `start` to the last byte, which must be `}`.
pub fn parse_exp_at(s: &[u8], start: usize) -> (r: Option<u64>)
    requires
        start <= s@.len(),
    ensures
        r == parse_exp(s@.subrange(start as int, s@.len() as int)),
{
    let n = s.len();
    let ghost t = s@.subrange(start as int, n as int);
    if n - start < 2 || s[n - 1] != 125 {
        return None;
    }
    let ghost d = t.drop_last();
    let mut v: u64 = 0;
    let mut i: usize = start;
    assert(d.take(0) =~= Seq::<u8>::empty());
    while i < n - 1
        invariant
            n == s@.len(),
            start <= i <= n - 1,
            t == s@.subrange(start as int, n as int),
            d == t.drop_last(),
            all_digits(d.take(i - start)),
            v as nat == digits_value(d.take(i - start)),
        decreases n - i,
    {
        let c = s[i];
        assert(d[i - start] == c);
        if c < 48 || c > 57 {
            assert(!all_digits(d));
            return None;
        }
        let dg: u64 = (c - 48) as u64;
        let ghost k = i - start;
        assert(d.take(k + 1).drop_last() =~= d.take(k));
        if v > (u64::MAX - dg) / 10 {
            proof {
                assert(v * 10 + dg > u64::MAX) by (nonlinear_arith)
                    requires
                        v > (u64::MAX - dg) / 10,
                        dg <= 9,
                ;
                lemma_digits_value_prefix(d, k + 1);
            }
            return None;
        }
        assert(v * 10 + dg <= u64::MAX) by (nonlinear_arith)
            requires
                v <= (u64::MAX - dg) / 10,
                dg <= 9,
        ;
        v = v * 10 + dg;
        i = i + 1;
    }
    assert(d.take(d.len() as int) =~= d);
    Some(v)
}

/// Reads a claims payload into subject, role text and expiry.
pub fn parse_payload(j: &[u8]) -> (r: Option<(Vec<u8>, Vec<u8>, u64)>)
    ensures
        match (parse_claims(j@), r) {
            (Some((sub, role, exp)), Some((v, w, e))) => v@ == sub && w@ == role && e == exp,
            (None, None) => true,
            _ => false,
        },
{
    let so: [u8; 8] = [123u8, 34, 115, 117, 98, 34, 58, 34];
    let ro: [u8; 9] = [44u8, 34, 114, 111, 108, 101, 34, 58, 34];
    let eo: [u8; 7] = [44u8, 34, 101, 120, 112, 34, 58];
    assert(so@ =~= sub_open());
    assert(ro@ =~= role_open());
    assert(eo@ =~= exp_open());
    let n = j.len();
    if !has_at(j, 0, so.as_slice()) {
        return None;
    }
    assert(j@.take(8) =~= j@.subrange(0, 8));
    assert(j@.skip(8) =~= j@.subrange(8, n as int));
    let (sub, k1) = match unescape_at(j, 8) {
        Some(p) => p,
        None => return None,
    };
    let ghost r1 = j@.subrange(k1 as int, n as int);
    proof {
        if k1 + 9 <= n {
            assert(r1.take(9) =~= j@.subrange(k1 as int, k1 + 9));
        }
    }
    if !has_at(j, k1, ro.as_slice()) {
        return None;
    }
    assert(r1.skip(9) =~= j@.subrange(k1 + 9, n as int));
    let (role, k2) = match unescape_at(j, k1 + 9) {
        Some(p) => p,
        None => return None,
    };
    let ghost r2 = j@.subrange(k2 as int, n as int);
    proof {
        if k2 + 7 <= n {
            assert(r2.take(7) =~= j@.subrange(k2 as int, k2 + 7));
        }
    }
    if !has_at(j, k2, eo.as_slice()) {
        return None;
    }
    assert(r2.skip(7) =~= j@.subrange(k2 + 7, n as int));
    let exp = match parse_exp_at(j, k2 + 7) {
        Some(e) => e,
        None => return None,
    };
    Some((sub, role, exp))
}

} // verus!
