//! Byte-level helpers for the canonical JSON framing used on the wire:
//! string escaping, literal matching, and decimal numbers.

use vstd::prelude::*;
use vstd::string::StringSliceAdditionalSpecFns;
use vstd::utf8::{decode_utf8, valid_utf8};

verus! {

/// The lowercase hex digit for a value below 16.
pub open spec fn hex_digit(n: u8) -> u8
    recommends
        n < 16,
{
    if n < 10 {
        (0x30 + n) as u8
    } else {
        (0x57 + n) as u8
    }
}

/// How one byte is written inside a canonical JSON string: quote and
/// backslash get a two-byte escape, control bytes get `\u00xy`, everything
/// else stands for itself.
pub open spec fn esc_byte(b: u8) -> Seq<u8> {
    if b == 0x22 {
        seq![0x5cu8, 0x22u8]
    } else if b == 0x5c {
        seq![0x5cu8, 0x5cu8]
    } else if b < 0x20 {
        seq![0x5cu8, 0x75u8, 0x30u8, 0x30u8, hex_digit(b / 16), hex_digit(b % 16)]
    } else {
        seq![b]
    }
}

/// Canonical JSON escaping of a byte string.
pub open spec fn json_escape(s: Seq<u8>) -> Seq<u8>
    decreases s.len(),
{
    if s.len() == 0 {
        Seq::empty()
    } else {
        esc_byte(s[0]) + json_escape(s.drop_first())
    }
}

pub proof fn lemma_escape_snoc(p: Seq<u8>, b: u8)
    ensures
        json_escape(p.push(b)) == json_escape(p) + esc_byte(b),
    decreases p.len(),
{
    if p.len() == 0 {
        assert(p.push(b)[0] == b);
        assert(p.push(b).drop_first() =~= Seq::<u8>::empty());
        assert(json_escape(Seq::<u8>::empty()) == Seq::<u8>::empty());
        assert(esc_byte(b) + Seq::<u8>::empty() =~= esc_byte(b));
        assert(json_escape(p.push(b)) =~= esc_byte(b));
        assert(json_escape(p) + esc_byte(b) =~= esc_byte(b));
    } else {
        assert(p.push(b)[0] == p[0]);
        assert(p.push(b).drop_first() =~= p.drop_first().push(b));
        lemma_escape_snoc(p.drop_first(), b);
        assert(esc_byte(p[0]) + (json_escape(p.drop_first()) + esc_byte(b)) =~= (esc_byte(p[0])
            + json_escape(p.drop_first())) + esc_byte(b));
    }
}

fn hex_digit_exec(n: u8) -> (r: u8)
    requires
        n < 16,
    ensures
        r == hex_digit(n),
{
    if n < 10 {
        0x30 + n
    } else {
        0x57 + n
    }
}

/// Append the canonical JSON escaping of `s` to `out`.
pub fn put_escaped(out: &mut Vec<u8>, s: &[u8])
    ensures
        final(out)@ == old(out)@ + json_escape(s@),
{
    let n = s.len();
    let mut i: usize = 0;
    while i < n
        invariant
            i <= n,
            n == s@.len(),
            out@ == old(out)@ + json_escape(s@.take(i as int)),
        decreases n - i,
    {
        let b = s[i];
        if b == 0x22 {
            out.push(0x5c);
            out.push(0x22);
        } else if b == 0x5c {
            out.push(0x5c);
            out.push(0x5c);
        } else if b < 0x20 {
            out.push(0x5c);
            out.push(0x75);
            out.push(0x30);
            out.push(0x30);
            out.push(hex_digit_exec(b / 16));
            out.push(hex_digit_exec(b % 16));
        } else {
            out.push(b);
        }
        proof {
            lemma_escape_snoc(s@.take(i as int), s@[i as int]);
            assert(s@.take(i as int).push(s@[i as int]) =~= s@.take(i as int + 1));
            assert(out@ =~= old(out)@ + json_escape(s@.take(i as int + 1)));
        }
        i = i + 1;
    }
    proof {
        assert(s@.take(n as int) =~= s@);
    }
}

/// Append the bytes of a literal to `out`.
pub fn put_lit(out: &mut Vec<u8>, lit: &str)
    ensures
        final(out)@ == old(out)@ + lit.spec_bytes(),
{
    let lb = lit.as_bytes();
    let n = lb.len();
    let mut i: usize = 0;
    while i < n
        invariant
            i <= n,
            n == lb@.len(),
            lb@ == lit.spec_bytes(),
            out@ == old(out)@ + lb@.take(i as int),
        decreases n - i,
    {
        out.push(lb[i]);
        proof {
            assert(out@ =~= old(out)@ + lb@.take(i as int + 1));
        }
        i = i + 1;
    }
    proof {
        assert(lb@.take(n as int) =~= lb@);
    }
}

/// Match the bytes of a literal at `pos`; on success return the position
/// just past it. Succeeds exactly when the literal is present.
pub fn eat_lit(input: &[u8], pos: usize, lit: &str) -> (r: Option<usize>)
    requires
        pos <= input@.len(),
    ensures
        r matches Some(p2) ==> {
            &&& p2 == pos + lit.spec_bytes().len()
            &&& pos + lit.spec_bytes().len() <= input@.len()
            &&& input@.subrange(pos as int, p2 as int) == lit.spec_bytes()
        },
        r is None ==> !(pos + lit.spec_bytes().len() <= input@.len() && input@.subrange(
            pos as int,
            pos as int + lit.spec_bytes().len() as int,
        ) == lit.spec_bytes()),
{
    let lb = lit.as_bytes();
    let n = lb.len();
    let m = input.len();
    if n > m - pos {
        return None;
    }
    let mut i: usize = 0;
    while i < n
        invariant
            i <= n,
            n == lb@.len(),
            lb@ == lit.spec_bytes(),
            m == input@.len(),
            pos + n <= m,
            forall|j: int| 0 <= j < i ==> input@[pos + j] == lb@[j],
        decreases n - i,
    {
        if input[pos + i] != lb[i] {
            proof {
                assert(input@.subrange(pos as int, pos as int + n as int)[i as int] != lb@[
                    i as int
                ]);
            }
            return None;
        }
        i = i + 1;
    }
    proof {
        assert(input@.subrange(pos as int, pos as int + n as int) =~= lb@);
    }
    Some(pos + n)
}

/// Whether two byte vectors hold the same bytes.
pub fn bytes_eq(a: &Vec<u8>, b: &Vec<u8>) -> (r: bool)
    ensures
        r <==> a@ == b@,
{
    if a.len() != b.len() {
        return false;
    }
    let n = a.len();
    let mut i: usize = 0;
    while i < n
        invariant
            i <= n,
            n == a@.len(),
            n == b@.len(),
            forall|j: int| 0 <= j < i ==> a@[j] == b@[j],
        decreases n - i,
    {
        if a[i] != b[i] {
            return false;
        }
        i = i + 1;
    }
    proof {
        assert(a@ =~= b@);
    }
    true
}

/// Relies on String::from_utf8: succeeds exactly on valid UTF-8 input and
/// returns the string those bytes spell.
#[verifier::external_body]
pub fn string_from_utf8(v: Vec<u8>) -> (r: Option<String>)
    ensures
        r is Some <==> valid_utf8(v@),
        r matches Some(s) ==> s@ == decode_utf8(v@),
{
    match String::from_utf8(v) {
        Ok(s) => Some(s),
        Err(_) => None,
    }
}

/// A canonical JSON string-body parse: reads escaped content up to and
/// including the closing quote, returning the unescaped bytes and how many
/// input bytes were consumed. Rejects anything the canonical escaper would
/// not produce.
pub open spec fn unesc_at(s: Seq<u8>) -> Option<(Seq<u8>, int)>
    decreases s.len(),
{
    if s.len() == 0 {
        None
    } else if s[0] == 0x22 {
        Some((Seq::empty(), 1))
    } else if s[0] == 0x5c {
        if s.len() < 2 {
            None
        } else if s[1] == 0x22 {
            unesc_cons(0x22, unesc_at(s.skip(2)), 2)
        } else if s[1] == 0x5c {
            unesc_cons(0x5c, unesc_at(s.skip(2)), 2)
        } else if s[1] == 0x75 {
            if s.len() >= 6 && s[2] == 0x30 && s[3] == 0x30 && is_hex(s[4]) && is_hex(s[5])
                && hexval(s[4]) * 16 + hexval(s[5]) < 0x20 {
                unesc_cons((hexval(s[4]) * 16 + hexval(s[5])) as u8, unesc_at(s.skip(6)), 6)
            } else {
                None
            }
        } else {
            None
        }
    } else if s[0] < 0x20 {
        None
    } else {
        unesc_cons(s[0], unesc_at(s.skip(1)), 1)
    }
}

pub open spec fn unesc_cons(b: u8, rest: Option<(Seq<u8>, int)>, k: int) -> Option<(Seq<u8>, int)> {
    match rest {
        Some(pc) => Some((seq![b] + pc.0, pc.1 + k)),
        None => None,
    }
}

/// Whether a byte is a lowercase hex digit.
pub open spec fn is_hex(b: u8) -> bool {
    (0x30 <= b && b <= 0x39) || (0x61 <= b && b <= 0x66)
}

/// The value of a lowercase hex digit.
pub open spec fn hexval(b: u8) -> u8
    recommends
        is_hex(b),
{
    if b <= 0x39 {
        (b - 0x30) as u8
    } else {
        (b - 0x57) as u8
    }
}

fn is_hex_exec(b: u8) -> (r: bool)
    ensures
        r == is_hex(b),
{
    (0x30 <= b && b <= 0x39) || (0x61 <= b && b <= 0x66)
}

fn hexval_exec(b: u8) -> (r: u8)
    requires
        is_hex(b),
    ensures
        r == hexval(b),
        r < 16,
{
    if b <= 0x39 {
        b - 0x30
    } else {
        b - 0x57
    }
}

/// Parse a canonical JSON string body starting at `pos`, up to and
/// including the closing quote. Matches `unesc_at` exactly.
pub fn scan_string(input: &[u8], pos: usize) -> (r: Option<(Vec<u8>, usize)>)
    requires
        pos <= input@.len(),
    ensures
        r matches Some(pe) ==> {
            &&& unesc_at(input@.skip(pos as int)) == Some((pe.0@, pe.1 - pos as int))
            &&& pos < pe.1 <= input@.len()
        },
        r is None ==> unesc_at(input@.skip(pos as int)) is None,
    decreases input@.len() - pos,
{
    let m = input.len();
    let ghost tail = input@.skip(pos as int);
    if pos >= m {
        return None;
    }
    proof {
        assert(tail[0] == input@[pos as int]);
    }
    let b = input[pos];
    if b == 0x22 {
        return Some((Vec::new(), pos + 1));
    }
    let step: usize;
    let decoded: u8;
    if b == 0x5c {
        if pos + 1 >= m {
            return None;
        }
        proof {
            assert(tail[1] == input@[pos as int + 1]);
        }
        let e = input[pos + 1];
        if e == 0x22 {
            step = 2;
            decoded = 0x22;
        } else if e == 0x5c {
            step = 2;
            decoded = 0x5c;
        } else if e == 0x75 {
            if m - pos < 6 {
                return None;
            }
            proof {
                assert(tail[2] == input@[pos as int + 2]);
                assert(tail[3] == input@[pos as int + 3]);
                assert(tail[4] == input@[pos as int + 4]);
                assert(tail[5] == input@[pos as int + 5]);
            }
            if input[pos + 2] != 0x30 || input[pos + 3] != 0x30 {
                return None;
            }
            let h = input[pos + 4];
            let l = input[pos + 5];
            if !is_hex_exec(h) || !is_hex_exec(l) {
                return None;
            }
            let v = hexval_exec(h) * 16 + hexval_exec(l);
            if v >= 0x20 {
                return None;
            }
            step = 6;
            decoded = v;
        } else {
            return None;
        }
    } else if b < 0x20 {
        return None;
    } else {
        step = 1;
        decoded = b;
    }
    proof {
        assert(tail.skip(step as int) =~= input@.skip(pos as int + step as int));
    }
    match scan_string(input, pos + step) {
        Some((p, end)) => {
            let mut p2 = p;
            p2.insert(0, decoded);
            proof {
                assert(p2@ =~= seq![decoded] + p2@.skip(1));
                assert(p2@.skip(1) =~= p2@.subrange(1, p2@.len() as int));
            }
            Some((p2, end))
        },
        None => None,
    }
}

pub proof fn lemma_hexval_digit(x: u8)
    requires
        x < 16,
    ensures
        is_hex(hex_digit(x)),
        hexval(hex_digit(x)) == x,
{
}

/// The canonical escaper and the canonical string parser are inverse: the
/// escaped payload followed by a closing quote parses back to the payload.
pub proof fn lemma_unesc_of_escaped(p: Seq<u8>, rest: Seq<u8>)
    ensures
        unesc_at(json_escape(p) + seq![0x22u8] + rest) == Some((p, json_escape(p).len() as int + 1)),
    decreases p.len(),
{
    let s = json_escape(p) + seq![0x22u8] + rest;
    if p.len() == 0 {
        assert(json_escape(p) =~= Seq::<u8>::empty());
        assert(s[0] == 0x22);
        assert(p =~= Seq::<u8>::empty());
    } else {
        lemma_unesc_of_escaped(p.drop_first(), rest);
        let b = p[0];
        let e = esc_byte(b);
        let k = e.len() as int;
        assert(json_escape(p) == e + json_escape(p.drop_first()));
        assert(s.skip(k) =~= json_escape(p.drop_first()) + seq![0x22u8] + rest);
        assert(seq![b] + p.drop_first() =~= p);
        assert(s.len() >= k + 1);
        if b == 0x22 {
            assert(s[0] == 0x5c && s[1] == 0x22);
            assert(unesc_at(s) == unesc_cons(0x22, unesc_at(s.skip(2)), 2));
        } else if b == 0x5c {
            assert(s[0] == 0x5c && s[1] == 0x5c);
            assert(unesc_at(s) == unesc_cons(0x5c, unesc_at(s.skip(2)), 2));
        } else if b < 0x20 {
            assert(s[0] == 0x5c && s[1] == 0x75 && s[2] == 0x30 && s[3] == 0x30);
            assert(s[4] == hex_digit(b / 16) && s[5] == hex_digit(b % 16));
            lemma_hexval_digit(b / 16);
            lemma_hexval_digit(b % 16);
            assert(hexval(s[4]) * 16 + hexval(s[5]) == b);
            assert(unesc_at(s) == unesc_cons(b, unesc_at(s.skip(6)), 6));
        } else {
            assert(s[0] == b);
            assert(unesc_at(s) == unesc_cons(b, unesc_at(s.skip(1)), 1));
        }
    }
}

/// Whether a byte is a decimal digit.
pub open spec fn is_digit(b: u8) -> bool {
    0x30 <= b && b <= 0x39
}

/// The canonical decimal spelling of a number.
pub open spec fn dec_digits(n: nat) -> Seq<u8>
    decreases n,
{
    if n < 10 {
        seq![(0x30 + n) as u8]
    } else {
        dec_digits(n / 10).push((0x30 + n % 10) as u8)
    }
}

/// The length of the digit prefix of `s`.
pub open spec fn digit_count(s: Seq<u8>) -> int
    decreases s.len(),
{
    if s.len() > 0 && is_digit(s[0]) {
        1 + digit_count(s.drop_first())
    } else {
        0
    }
}

/// The value of an all-digit byte sequence.
pub open spec fn digits_val(s: Seq<u8>) -> nat
    decreases s.len(),
{
    if s.len() == 0 {
        0
    } else {
        digits_val(s.drop_last()) * 10 + (s.last() - 0x30) as nat
    }
}

/// A canonical decimal parse at the head of `s`: the digit prefix must be
/// non-empty, have no leading zero, and fit the type.
pub open spec fn parse_u16_at(s: Seq<u8>) -> Option<(u16, int)> {
    let d = digit_count(s);
    if d == 0 {
        None
    } else if s[0] == 0x30 && d > 1 {
        None
    } else if digits_val(s.take(d)) > u16::MAX {
        None
    } else {
        Some(((digits_val(s.take(d)) as u16), d))
    }
}

/// Append the canonical decimal spelling of `n` to `out`.
pub fn put_u16(out: &mut Vec<u8>, n: u16)
    ensures
        final(out)@ == old(out)@ + dec_digits(n as nat),
    decreases n,
{
    if n < 10 {
        out.push(0x30 + (n as u8));
        proof {
            assert(final(out)@ =~= old(out)@ + dec_digits(n as nat));
        }
    } else {
        put_u16(out, n / 10);
        out.push(0x30 + ((n % 10) as u8));
        proof {
            assert(final(out)@ =~= old(out)@ + dec_digits(n as nat));
        }
    }
}

fn is_digit_exec(b: u8) -> (r: bool)
    ensures
        r == is_digit(b),
{
    0x30 <= b && b <= 0x39
}

pub proof fn lemma_digit_count_prefix(s: Seq<u8>, d: int)
    requires
        0 <= d <= s.len(),
        forall|j: int| 0 <= j < d ==> is_digit(#[trigger] s[j]),
        d == s.len() || !is_digit(s[d]),
    ensures
        digit_count(s) == d,
    decreases s.len(),
{
    if d == 0 {
    } else {
        assert(is_digit(s[0]));
        assert forall|j: int| 0 <= j < d - 1 implies is_digit(#[trigger] s.drop_first()[j]) by {
            assert(s.drop_first()[j] == s[j + 1]);
        }
        if d - 1 < s.drop_first().len() {
            assert(s.drop_first()[d - 1] == s[d]);
        }
        lemma_digit_count_prefix(s.drop_first(), d - 1);
    }
}

pub proof fn lemma_digits_val_grows(s: Seq<u8>, t: int)
    requires
        0 <= t <= s.len(),
    ensures
        digits_val(s) >= digits_val(s.take(t)),
    decreases s.len() - t,
{
    if t == s.len() {
        assert(s.take(t) =~= s);
    } else {
        lemma_digits_val_grows(s, t + 1);
        assert(s.take(t + 1).drop_last() =~= s.take(t));
        assert(digits_val(s.take(t + 1)) == digits_val(s.take(t)) * 10 + (s.take(t + 1).last()
            - 0x30) as nat);
    }
}

/// Parse a canonical decimal number at `pos`. Matches `parse_u16_at`.
pub fn scan_u16(input: &[u8], pos: usize) -> (r: Option<(u16, usize)>)
    requires
        pos <= input@.len(),
    ensures
        r matches Some(ve) ==> {
            &&& parse_u16_at(input@.skip(pos as int)) == Some((ve.0, ve.1 - pos as int))
            &&& pos < ve.1 <= input@.len()
        },
        r is None ==> parse_u16_at(input@.skip(pos as int)) is None,
{
    let ghost tail = input@.skip(pos as int);
    let m = input.len();
    // find the end of the digit prefix
    let mut j = pos;
    while j < m && is_digit_exec(input[j])
        invariant
            pos <= j <= m,
            m == input@.len(),
            forall|t: int| pos <= t < j ==> is_digit(#[trigger] input@[t]),
        decreases m - j,
    {
        j = j + 1;
    }
    proof {
        assert forall|t: int| 0 <= t < j - pos implies is_digit(#[trigger] tail[t]) by {
            assert(tail[t] == input@[pos + t]);
        }
        if j - pos < tail.len() {
            assert(tail[j - pos] == input@[j as int]);
        }
        lemma_digit_count_prefix(tail, j - pos);
    }
    if j == pos {
        return None;
    }
    proof {
        assert(tail[0] == input@[pos as int]);
    }
    if input[pos] == 0x30 && j - pos > 1 {
        return None;
    }
    // accumulate the value, watching the type bound
    let mut v: u32 = 0;
    let mut t = pos;
    while t < j
        invariant
            pos <= t <= j <= m,
            m == input@.len(),
            tail == input@.skip(pos as int),
            digit_count(tail) == j - pos,
            forall|q: int| pos <= q < j ==> is_digit(#[trigger] input@[q]),
            v <= u16::MAX,
            v as nat == digits_val(tail.take(t - pos)),
        decreases j - t,
    {
        proof {
            assert(tail.take(t - pos + 1).drop_last() =~= tail.take(t - pos));
            assert(tail.take(t - pos + 1).last() == input@[t as int]);
        }
        let d = input[t];
        let v2 = v * 10 + ((d - 0x30) as u32);
        if v2 > 65535 {
            proof {
                lemma_digits_val_grows(tail.take(j - pos), t - pos + 1);
                assert(tail.take(j - pos).take(t - pos + 1) =~= tail.take(t - pos + 1));
            }
            return None;
        }
        v = v2;
        t = t + 1;
    }
    proof {
        assert(tail.take(j - pos) =~= tail.take(j - pos));
    }
    Some((v as u16, j))
}

pub proof fn lemma_dec_digits_are_digits(n: nat)
    ensures
        dec_digits(n).len() >= 1,
        n >= 10 ==> dec_digits(n).len() > 1,
        forall|i: int| 0 <= i < dec_digits(n).len() ==> is_digit(#[trigger] dec_digits(n)[i]),
        dec_digits(n).len() > 1 ==> dec_digits(n)[0] != 0x30,
        digits_val(dec_digits(n)) == n,
    decreases n,
{
    if n < 10 {
        assert(dec_digits(n) =~= seq![(0x30 + n) as u8]);
        assert(dec_digits(n).drop_last() =~= Seq::<u8>::empty());
        assert(digits_val(dec_digits(n).drop_last()) == 0);
        assert(dec_digits(n).last() == (0x30 + n) as u8);
        assert(digits_val(dec_digits(n)) == 0 * 10 + ((0x30 + n) as u8 - 0x30) as nat);
    } else {
        lemma_dec_digits_are_digits(n / 10);
        let d = dec_digits(n);
        assert(d == dec_digits(n / 10).push((0x30 + n % 10) as u8));
        assert(d.drop_last() =~= dec_digits(n / 10));
        assert(d[0] == dec_digits(n / 10)[0]);
        assert(n / 10 >= 1);
        if n / 10 < 10 {
            assert(dec_digits(n / 10) =~= seq![(0x30 + n / 10) as u8]);
            assert(dec_digits(n / 10)[0] == (0x30 + n / 10) as u8);
        } else {
            assert(dec_digits(n / 10).len() > 1);
        }
        assert(dec_digits(n / 10)[0] != 0x30);
        assert forall|i: int| 0 <= i < d.len() implies is_digit(#[trigger] d[i]) by {
            if i < d.len() - 1 {
                assert(d[i] == dec_digits(n / 10)[i]);
            } else {
                assert(d[i] == (0x30 + n % 10) as u8);
                assert(n % 10 <= 9);
            }
        }
        assert(digits_val(d) == (n / 10) * 10 + n % 10);
        assert(n == (n / 10) * 10 + n % 10);
    }
}

/// The canonical decimal spelling parses back to the number, whatever
/// non-digit material follows it.
pub proof fn lemma_parse_of_dec(n: u16, rest: Seq<u8>)
    requires
        rest.len() == 0 || !is_digit(rest[0]),
    ensures
        parse_u16_at(dec_digits(n as nat) + rest) == Some(
            (n, dec_digits(n as nat).len() as int),
        ),
{
    let d = dec_digits(n as nat);
    let s = d + rest;
    lemma_dec_digits_are_digits(n as nat);
    assert forall|j: int| 0 <= j < d.len() implies is_digit(#[trigger] s[j]) by {
        assert(s[j] == d[j]);
    }
    if (d.len() as int) < s.len() {
        assert(s[d.len() as int] == rest[0]);
    }
    lemma_digit_count_prefix(s, d.len() as int);
    assert(s.take(d.len() as int) =~= d);
    assert(s[0] == d[0]);
    if d.len() > 1 {
        assert(d[0] != 0x30);
    } else {
        assert(digit_count(s) == 1);
    }
}

/// Whether two byte slices hold the same bytes.
pub fn slice_eq(a: &[u8], b: &[u8]) -> (r: bool)
    ensures
        r <==> a@ == b@,
{
    if a.len() != b.len() {
        return false;
    }
    let n = a.len();
    let mut i: usize = 0;
    while i < n
        invariant
            i <= n,
            n == a@.len(),
            n == b@.len(),
            forall|j: int| 0 <= j < i ==> a@[j] == b@[j],
        decreases n - i,
    {
        if a[i] != b[i] {
            return false;
        }
        i = i + 1;
    }
    proof {
        assert(a@ =~= b@);
    }
    true
}

/// Whether the bytes are all ASCII whitespace (blank text).
pub open spec fn is_blank_bytes(b: Seq<u8>) -> bool {
    forall|i: int|
        0 <= i < b.len() ==> (b[i] == 0x20 || b[i] == 0x09 || b[i] == 0x0a || (#[trigger] b[i])
            == 0x0d)
}

/// Whether the string holds only ASCII whitespace.
pub fn str_is_blank(line: &str) -> (r: bool)
    ensures
        r == is_blank_bytes(line.spec_bytes()),
{
    let b = line.as_bytes();
    let n = b.len();
    let mut i: usize = 0;
    while i < n
        invariant
            i <= n,
            n == b@.len(),
            b@ == line.spec_bytes(),
            forall|j: int|
                0 <= j < i ==> (b@[j] == 0x20 || b@[j] == 0x09 || b@[j] == 0x0a || (
                #[trigger] b@[j]) == 0x0d),
        decreases n - i,
    {
        let c = b[i];
        if !(c == 0x20 || c == 0x09 || c == 0x0a || c == 0x0d) {
            return false;
        }
        i = i + 1;
    }
    true
}

} // verus!
