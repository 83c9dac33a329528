//! Hexadecimal scalars to four little-endian 64-bit limbs, and back.

use vstd::prelude::*;

verus! {

/// Number of hex digits in one 64-bit limb.
pub const LIMB_DIGITS: usize = 16;

/// Number of hex digits in a full 256-bit scalar.
pub const SCALAR_DIGITS: usize = 64;

/// Why a hex scalar was rejected.
#[derive(Debug, Clone, Copy, PartialEq, Eq, Structural)]
pub enum CodecError {
    /// The `0x` marker was required and is absent.
    MissingPrefix,
    /// More than 64 digits follow the marker.
    TooLong,
    /// A character that is not a hex digit follows the marker.
    InvalidDigit,
}

pub open spec fn is_hex_digit(c: char) -> bool {
    ('0' <= c && c <= '9') || ('a' <= c && c <= 'f') || ('A' <= c && c <= 'F')
}

pub open spec fn digit_value(c: char) -> nat {
    if '0' <= c && c <= '9' {
        (c as u32 - '0' as u32) as nat
    } else if 'a' <= c && c <= 'f' {
        (c as u32 - 'a' as u32 + 10) as nat
    } else if 'A' <= c && c <= 'F' {
        (c as u32 - 'A' as u32 + 10) as nat
    } else {
        0
    }
}

pub open spec fn all_hex(d: Seq<char>) -> bool {
    forall|i: int| 0 <= i < d.len() ==> is_hex_digit(#[trigger] d[i])
}

/// The number written by the digits `d`, most significant first.
pub open spec fn hex_value(d: Seq<char>) -> nat
    decreases d.len(),
{
    if d.len() == 0 {
        0
    } else {
        hex_value(d.drop_last()) * 16 + digit_value(d.last())
    }
}

pub open spec fn pow16(n: nat) -> nat
    decreases n,
{
    if n == 0 {
        1
    } else {
        16 * pow16((n - 1) as nat)
    }
}

/// Whether `s` starts with the hex marker `0x` (either case of `x`).
pub open spec fn has_hex_prefix(s: Seq<char>) -> bool {
    s.len() >= 2 && s[0] == '0' && (s[1] == 'x' || s[1] == 'X')
}

/// The digits of `s`: what follows the marker where one is required.
pub open spec fn digits_of(s: Seq<char>, require_prefix: bool) -> Seq<char> {
    if require_prefix {
        s.subrange(2, s.len() as int)
    } else {
        s
    }
}

/// The digits `d` left-padded with `'0'` to 64 digits.
pub open spec fn padded(d: Seq<char>) -> Seq<char> {
    Seq::new((SCALAR_DIGITS - d.len()) as nat, |i: int| '0') + d
}

/// Limb `k` (0 is least significant): the `k`-th 16-digit chunk counted from
/// the right of the padded digits.
pub open spec fn limb_value(d: Seq<char>, k: int) -> nat {
    hex_value(padded(d).subrange(48 - 16 * k, 64 - 16 * k))
}

pub open spec fn decoded_limbs(d: Seq<char>) -> Seq<u64> {
    Seq::new(4, |k: int| limb_value(d, k) as u64)
}

/// Whether `s` is a scalar that decoding accepts.
pub open spec fn valid_scalar(s: Seq<char>, require_prefix: bool) -> bool {
    &&& (!require_prefix || has_hex_prefix(s))
    &&& digits_of(s, require_prefix).len() <= SCALAR_DIGITS
    &&& all_hex(digits_of(s, require_prefix))
}

/// What decoding `s` gives, as the error or the limbs.
pub open spec fn decode_spec(s: Seq<char>, require_prefix: bool) -> Result<Seq<u64>, CodecError> {
    if require_prefix && !has_hex_prefix(s) {
        Err(CodecError::MissingPrefix)
    } else if digits_of(s, require_prefix).len() > SCALAR_DIGITS {
        Err(CodecError::TooLong)
    } else if !all_hex(digits_of(s, require_prefix)) {
        Err(CodecError::InvalidDigit)
    } else {
        Ok(decoded_limbs(digits_of(s, require_prefix)))
    }
}

pub proof fn lemma_pow16_mono(a: nat, b: nat)
    requires
        a <= b,
    ensures
        pow16(a) <= pow16(b),
    decreases b,
{
    if a < b {
        lemma_pow16_mono(a, (b - 1) as nat);
    }
}

pub proof fn lemma_pow16_16()
    ensures
        pow16(16) == 0x1_0000_0000_0000_0000nat,
{
    reveal_with_fuel(pow16, 17);
}

pub proof fn lemma_hex_value_bound(d: Seq<char>)
    ensures
        hex_value(d) < pow16(d.len()),
    decreases d.len(),
{
    if d.len() > 0 {
        lemma_hex_value_bound(d.drop_last());
        let a = hex_value(d.drop_last());
        let p = pow16((d.len() - 1) as nat);
        assert(digit_value(d.last()) < 16);
        assert(a * 16 + digit_value(d.last()) < p * 16) by (nonlinear_arith)
            requires
                a < p,
                digit_value(d.last()) < 16,
        ;
    }
}

fn hex_digit_value(c: char) -> (r: Option<u64>)
    ensures
        r is Some <==> is_hex_digit(c),
        r is Some ==> r->0 == digit_value(c),
{
    if '0' <= c && c <= '9' {
        Some((c as u32 - '0' as u32) as u64)
    } else if 'a' <= c && c <= 'f' {
        Some((c as u32 - 'a' as u32 + 10) as u64)
    } else if 'A' <= c && c <= 'F' {
        Some((c as u32 - 'A' as u32 + 10) as u64)
    } else {
        None
    }
}

/// Limb `k` of the digits `s@[off..]`, which are all hex digits.
fn parse_limb(s: &str, off: usize, k: usize) -> (r: u64)
    requires
        off <= s@.len(),
        s@.len() - off <= SCALAR_DIGITS,
        all_hex(s@.subrange(off as int, s@.len() as int)),
        k < 4,
    ensures
        r == limb_value(s@.subrange(off as int, s@.len() as int), k as int),
{
    let ghost d = s@.subrange(off as int, s@.len() as int);
    let ghost pd = padded(d);
    let n = s.unicode_len();
    let m = n - off;
    let pad = SCALAR_DIGITS - m;
    let start = 48 - 16 * k;
    let end = start + LIMB_DIGITS;
    assert(pd.len() == 64);
    let mut acc: u64 = 0;
    let mut p: usize = start;
    while p < end
        invariant
            d == s@.subrange(off as int, s@.len() as int),
            pd == padded(d),
            pd.len() == 64,
            n == s@.len(),
            m == n - off,
            pad == 64 - m,
            all_hex(d),
            start <= p <= end,
            end == start + 16,
            end <= 64,
            acc == hex_value(pd.subrange(start as int, p as int)),
        decreases end - p,
    {
        let c = if p < pad {
            '0'
        } else {
            s.get_char(off + (p - pad))
        };
        assert(c == pd[p as int]);
        assert(is_hex_digit(c)) by {
            if p >= pad {
                assert(d[p - pad] == c);
            }
        }
        let v = hex_digit_value(c).unwrap();
        let ghost prefix = pd.subrange(start as int, p as int);
        proof {
            lemma_hex_value_bound(prefix);
            lemma_pow16_mono((p - start) as nat, 15);
            lemma_pow16_16();
            reveal_with_fuel(pow16, 2);
            assert(pow16(16) == 16 * pow16(15));
            assert((acc as int) * 16 + (v as int) < 0x1_0000_0000_0000_0000) by (nonlinear_arith)
                requires
                    acc < pow16(15),
                    v < 16,
                    16 * pow16(15) == 0x1_0000_0000_0000_0000,
            ;
            assert(pd.subrange(start as int, p + 1).drop_last() =~= prefix);
        }
        acc = acc * 16 + v;
        p = p + 1;
    }
    acc
}

/// Decodes a hex scalar into four limbs, least significant first.
///
/// With `require_prefix` the string must start with `0x` (or `0X`); the digits
/// after it, at most 64, are left-padded with `'0'` to 64 and cut into four
/// 16-digit chunks, the last of which becomes limb 0. No check against a field
/// modulus is made.
pub fn decode_hex_scalar(s: &str, require_prefix: bool) -> (r: Result<[u64; 4], CodecError>)
    ensures
        match r {
            Ok(limbs) => decode_spec(s@, require_prefix) == Ok::<Seq<u64>, CodecError>(limbs@),
            Err(e) => decode_spec(s@, require_prefix) == Err::<Seq<u64>, CodecError>(e),
        },
{
    let n = s.unicode_len();
    let mut off: usize = 0;
    if require_prefix {
        if n < 2 {
            return Err(CodecError::MissingPrefix);
        }
        let c0 = s.get_char(0);
        let c1 = s.get_char(1);
        if !(c0 == '0' && (c1 == 'x' || c1 == 'X')) {
            return Err(CodecError::MissingPrefix);
        }
        off = 2;
    }
    let ghost d = digits_of(s@, require_prefix);
    assert(d =~= s@.subrange(off as int, n as int));
    if n - off > SCALAR_DIGITS {
        return Err(CodecError::TooLong);
    }
    let mut i: usize = off;
    while i < n
        invariant
            off <= i <= n,
            n == s@.len(),
            d =~= s@.subrange(off as int, n as int),
            d == digits_of(s@, require_prefix),
            require_prefix ==> has_hex_prefix(s@),
            n - off <= SCALAR_DIGITS,
            forall|j: int| 0 <= j < i - off ==> is_hex_digit(#[trigger] d[j]),
        decreases n - i,
    {
        let c = s.get_char(i);
        if hex_digit_value(c).is_none() {
            assert(d[i - off] == c);
            assert(!all_hex(d));
            return Err(CodecError::InvalidDigit);
        }
        i = i + 1;
    }
    let l0 = parse_limb(s, off, 0);
    let l1 = parse_limb(s, off, 1);
    let l2 = parse_limb(s, off, 2);
    let l3 = parse_limb(s, off, 3);
    let limbs = [l0, l1, l2, l3];
    assert(limbs@ =~= decoded_limbs(d));
    Ok(limbs)
}

/// Decodes a `0x`-prefixed hex scalar into four limbs, least significant first.
pub fn hexstr_to_4u64(hex_string: String) -> (r: Result<[u64; 4], CodecError>)
    ensures
        match r {
            Ok(limbs) => decode_spec(hex_string@, true) == Ok::<Seq<u64>, CodecError>(limbs@),
            Err(e) => decode_spec(hex_string@, true) == Err::<Seq<u64>, CodecError>(e),
        },
{
    decode_hex_scalar(hex_string.as_str(), true)
}

/// The hex digit, lowercase, of a value below 16.
pub open spec fn digit_char(v: nat) -> char {
    if v < 10 {
        ((v + 48) as u8) as char
    } else {
        ((v + 87) as u8) as char
    }
}

/// The `n` lowest hex digits of `x`, most significant first.
pub open spec fn hex_digits(x: nat, n: nat) -> Seq<char>
    decreases n,
{
    if n == 0 {
        Seq::empty()
    } else {
        hex_digits(x / 16, (n - 1) as nat).push(digit_char(x % 16))
    }
}

/// The canonical text of four limbs: `0x` and 64 lowercase digits, the most
/// significant limb first.
pub open spec fn encode_spec(limbs: Seq<u64>) -> Seq<char> {
    seq!['0', 'x'] + hex_digits(limbs[3] as nat, 16) + hex_digits(limbs[2] as nat, 16)
        + hex_digits(limbs[1] as nat, 16) + hex_digits(limbs[0] as nat, 16)
}

/// Relies on String::push: appends one character at the end.
#[verifier::external_body]
fn push_char(s: &mut String, c: char)
    ensures
        final(s)@ == old(s)@.push(c),
{
    s.push(c);
}

fn digit_char_of(v: u64) -> (c: char)
    requires
        v < 16,
    ensures
        c == digit_char(v as nat),
{
    if v < 10 {
        ((v + 48) as u8) as char
    } else {
        ((v + 87) as u8) as char
    }
}

fn push_hex_digits(out: &mut String, x: u64, n: usize)
    ensures
        final(out)@ == old(out)@ + hex_digits(x as nat, n as nat),
    decreases n,
{
    if n == 0 {
        assert(old(out)@ + hex_digits(x as nat, 0) =~= old(out)@);
        return;
    }
    push_hex_digits(out, x / 16, n - 1);
    push_char(out, digit_char_of(x % 16));
    assert(final(out)@ =~= old(out)@ + hex_digits(x as nat, n as nat));
}

/// Writes four limbs as `0x` and 64 lowercase hex digits; decoding the result
/// gives the limbs back.
pub fn encode_hex_scalar(limbs: [u64; 4]) -> (r: String)
    ensures
        r@ == encode_spec(limbs@),
{
    let mut out = String::new();
    push_char(&mut out, '0');
    push_char(&mut out, 'x');
    push_hex_digits(&mut out, limbs[3], 16);
    push_hex_digits(&mut out, limbs[2], 16);
    push_hex_digits(&mut out, limbs[1], 16);
    push_hex_digits(&mut out, limbs[0], 16);
    assert(out@ =~= encode_spec(limbs@));
    out
}

pub proof fn lemma_hex_digits(x: nat, n: nat)
    ensures
        hex_digits(x, n).len() == n,
        all_hex(hex_digits(x, n)),
        hex_value(hex_digits(x, n)) == x % pow16(n),
    decreases n,
{
    if n > 0 {
        let m = (n - 1) as nat;
        lemma_hex_digits(x / 16, m);
        let h = hex_digits(x, n);
        assert(h.drop_last() =~= hex_digits(x / 16, m));
        let v = x % 16;
        assert(is_hex_digit(digit_char(v)) && digit_value(digit_char(v)) == v) by {
            assert(v < 16);
            if v < 10 {
                assert(((v + 48) as u8) as char as u32 == v + 48);
            } else {
                assert(((v + 87) as u8) as char as u32 == v + 87);
            }
        }
        assert(pow16(m) > 0) by {
            lemma_pow16_mono(0, m);
        }
        vstd::arithmetic::div_mod::lemma_mod_breakdown(x as int, 16, pow16(m) as int);
        assert(all_hex(h)) by {
            assert forall|i: int| 0 <= i < h.len() implies is_hex_digit(#[trigger] h[i]) by {
                if i < h.len() - 1 {
                    assert(h[i] == hex_digits(x / 16, m)[i]);
                }
            }
        }
    }
}

/// Decoding the canonical text of any four limbs gives exactly those limbs.
pub proof fn lemma_decode_encode(limbs: Seq<u64>)
    requires
        limbs.len() == 4,
    ensures
        decode_spec(encode_spec(limbs), true) == Ok::<Seq<u64>, CodecError>(limbs),
{
    let e = encode_spec(limbs);
    let h3 = hex_digits(limbs[3] as nat, 16);
    let h2 = hex_digits(limbs[2] as nat, 16);
    let h1 = hex_digits(limbs[1] as nat, 16);
    let h0 = hex_digits(limbs[0] as nat, 16);
    lemma_hex_digits(limbs[3] as nat, 16);
    lemma_hex_digits(limbs[2] as nat, 16);
    lemma_hex_digits(limbs[1] as nat, 16);
    lemma_hex_digits(limbs[0] as nat, 16);
    lemma_pow16_16();
    let d = digits_of(e, true);
    assert(d =~= h3 + h2 + h1 + h0);
    assert(padded(d) =~= d);
    assert(all_hex(d)) by {
        assert forall|i: int| 0 <= i < d.len() implies is_hex_digit(#[trigger] d[i]) by {
            if i < 16 {
                assert(d[i] == h3[i]);
            } else if i < 32 {
                assert(d[i] == h2[i - 16]);
            } else if i < 48 {
                assert(d[i] == h1[i - 32]);
            } else {
                assert(d[i] == h0[i - 48]);
            }
        }
    }
    assert(d.subrange(48, 64) =~= h0);
    assert(d.subrange(32, 48) =~= h1);
    assert(d.subrange(16, 32) =~= h2);
    assert(d.subrange(0, 16) =~= h3);
    assert(decoded_limbs(d) =~= limbs);
}

/// Decoding is stable under re-encoding: for every accepted scalar, decoding
/// the canonical text of its limbs gives the same limbs again.
pub proof fn lemma_round_trip(s: Seq<char>)
    requires
        decode_spec(s, true) is Ok,
    ensures
        decode_spec(s, true)->Ok_0.len() == 4,
        decode_spec(encode_spec(decode_spec(s, true)->Ok_0), true) == decode_spec(s, true),
{
    lemma_decode_encode(decode_spec(s, true)->Ok_0);
}

/// Left-padding the digits with zeros to 64 changes nothing: a scalar with
/// fewer digits decodes as the same scalar written with all 64.
pub proof fn lemma_pad_equivalence(s: Seq<char>)
    requires
        has_hex_prefix(s),
        digits_of(s, true).len() <= SCALAR_DIGITS,
    ensures
        decode_spec(s, true) == decode_spec(seq!['0', 'x'] + padded(digits_of(s, true)), true),
{
    let d = digits_of(s, true);
    let t = seq!['0', 'x'] + padded(d);
    let pd = padded(d);
    assert(digits_of(t, true) =~= pd);
    assert(padded(pd) =~= pd);
    assert(all_hex(pd) == all_hex(d)) by {
        if all_hex(d) {
            assert forall|i: int| 0 <= i < pd.len() implies is_hex_digit(#[trigger] pd[i]) by {
                if i >= 64 - d.len() {
                    assert(pd[i] == d[i - (64 - d.len())]);
                }
            }
        }
        if all_hex(pd) {
            assert forall|i: int| 0 <= i < d.len() implies is_hex_digit(#[trigger] d[i]) by {
                assert(pd[i + (64 - d.len())] == d[i]);
            }
        }
    }
    assert(decoded_limbs(pd) =~= decoded_limbs(d));
}

/// The number that four limbs hold, limb 0 least significant.
pub open spec fn limbs_value(l: Seq<u64>) -> nat {
    let b = 0x1_0000_0000_0000_0000nat;
    ((l[3] as nat * b + l[2] as nat) * b + l[1] as nat) * b + l[0] as nat
}

pub proof fn lemma_hex_value_concat(a: Seq<char>, b: Seq<char>)
    ensures
        hex_value(a + b) == hex_value(a) * pow16(b.len()) + hex_value(b),
    decreases b.len(),
{
    if b.len() == 0 {
        assert(a + b =~= a);
        assert(hex_value(a) * 1 == hex_value(a));
    } else {
        let b0 = b.drop_last();
        assert((a + b).drop_last() =~= a + b0);
        lemma_hex_value_concat(a, b0);
        let x = hex_value(a);
        let p = pow16(b0.len());
        let y = hex_value(b0);
        let d = digit_value(b.last());
        assert((a + b).last() == b.last());
        assert(pow16(b.len()) == 16 * p);
        assert(hex_value(b) == y * 16 + d);
        assert(hex_value(a + b) == hex_value(a + b0) * 16 + d);
        assert((x * p + y) * 16 + d == x * (16 * p) + (y * 16 + d)) by (nonlinear_arith);
    }
}

pub proof fn lemma_zeros_value(n: nat)
    ensures
        hex_value(Seq::new(n, |i: int| '0')) == 0,
    decreases n,
{
    if n > 0 {
        assert(Seq::new(n, |i: int| '0').drop_last() =~= Seq::new((n - 1) as nat, |i: int| '0'));
        lemma_zeros_value((n - 1) as nat);
    }
}

/// The limbs of an accepted scalar hold exactly the number that its digits
/// write: 64 bits per limb, least significant limb first.
pub proof fn lemma_limbs_value(s: Seq<char>, require_prefix: bool)
    requires
        decode_spec(s, require_prefix) is Ok,
    ensures
        limbs_value(decode_spec(s, require_prefix)->Ok_0) == hex_value(digits_of(s, require_prefix)),
{
    let d = digits_of(s, require_prefix);
    let pd = padded(d);
    let z = Seq::new((SCALAR_DIGITS - d.len()) as nat, |i: int| '0');
    lemma_hex_value_concat(z, d);
    lemma_zeros_value((SCALAR_DIGITS - d.len()) as nat);
    let c3 = pd.subrange(0, 16);
    let c2 = pd.subrange(16, 32);
    let c1 = pd.subrange(32, 48);
    let c0 = pd.subrange(48, 64);
    lemma_pow16_16();
    lemma_hex_value_bound(c0);
    lemma_hex_value_bound(c1);
    lemma_hex_value_bound(c2);
    lemma_hex_value_bound(c3);
    lemma_hex_value_concat(c3, c2);
    lemma_hex_value_concat(c3 + c2, c1);
    lemma_hex_value_concat(c3 + c2 + c1, c0);
    assert(pd =~= c3 + c2 + c1 + c0);
    let l = decode_spec(s, require_prefix)->Ok_0;
    assert(l[0] as nat == hex_value(c0));
    assert(l[1] as nat == hex_value(c1));
    assert(l[2] as nat == hex_value(c2));
    assert(l[3] as nat == hex_value(c3));
}

} // verus!
