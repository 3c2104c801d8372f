//! Hexadecimal encoding of nonces and parsing of hexadecimal numerals.

use vstd::prelude::*;
use vstd::arithmetic::div_mod::{lemma_div_denominator, lemma_fundamental_div_mod};

verus! {

/// `16^k`.
pub open spec fn pow16(k: nat) -> nat
    decreases k,
{
    if k == 0 {
        1
    } else {
        16 * pow16((k - 1) as nat)
    }
}

/// The lowercase ASCII hexadecimal character of a digit `0 <= d < 16`.
pub open spec fn hex_char(d: nat) -> u8 {
    if d < 10 {
        (48 + d) as u8
    } else {
        (87 + d) as u8
    }
}

/// The 16-character, zero-padded, lowercase hexadecimal rendering of a
/// nonce, most significant digit first (what `{:016x}` prints).
pub open spec fn nonce_hex(n: u64) -> Seq<u8> {
    Seq::new(16, |i: int| hex_char((n as nat / pow16((15 - i) as nat)) % 16))
}

/// Whether `c` is an ASCII hexadecimal digit, in either case.
pub open spec fn is_hex_digit(c: u8) -> bool {
    (48 <= c <= 57) || (97 <= c <= 102) || (65 <= c <= 70)
}

/// The value of an ASCII hexadecimal digit.
pub open spec fn hex_digit_value(c: u8) -> nat {
    if 48 <= c <= 57 {
        (c - 48) as nat
    } else if 97 <= c <= 102 {
        (c - 87) as nat
    } else {
        (c - 55) as nat
    }
}

/// The number written by a sequence of hexadecimal digits, most
/// significant first.
pub open spec fn hex_number(s: Seq<u8>) -> nat
    decreases s.len(),
{
    if s.len() == 0 {
        0
    } else {
        hex_number(s.drop_last()) * 16 + hex_digit_value(s.last())
    }
}

/// The digits of a numeral: the text after one optional leading `+`.
pub open spec fn numeral_digits(s: Seq<u8>) -> Seq<u8> {
    if s.len() > 0 && s[0] == 43 {
        s.drop_first()
    } else {
        s
    }
}

/// A well-formed hexadecimal numeral: an optional `+` followed by at least
/// one hexadecimal digit and nothing else.
pub open spec fn is_hex_numeral(s: Seq<u8>) -> bool {
    let d = numeral_digits(s);
    d.len() > 0 && forall|i: int| 0 <= i < d.len() ==> is_hex_digit(#[trigger] d[i])
}

/// The value of `s` read in base 16, when `s` is a well-formed numeral whose
/// value does not exceed `max`; `None` otherwise.
pub open spec fn parse_hex_spec(s: Seq<u8>, max: nat) -> Option<nat> {
    if is_hex_numeral(s) && hex_number(numeral_digits(s)) <= max {
        Some(hex_number(numeral_digits(s)))
    } else {
        None
    }
}

proof fn lemma_pow16_facts(k: nat)
    ensures
        pow16(k) > 0,
        pow16(k + 1) == pow16(k) * 16,
    decreases k,
{
    if k > 0 {
        lemma_pow16_facts((k - 1) as nat);
    }
}

proof fn lemma_pow16_16()
    ensures
        pow16(16) == 0x1_0000_0000_0000_0000,
{
    reveal_with_fuel(pow16, 17);
}

/// Writes the 16 hexadecimal digits of `nonce` into
/// `salt_bytes[salt_start..salt_start + 16]`, leaving every other byte alone.
pub fn write_nonce_to_bytes(salt_bytes: &mut Vec<u8>, nonce: u64, salt_start: usize)
    requires
        salt_start + 16 <= old(salt_bytes).len(),
    ensures
        final(salt_bytes)@ == old(salt_bytes)@.subrange(0, salt_start as int) + nonce_hex(nonce)
            + old(salt_bytes)@.subrange(salt_start + 16, old(salt_bytes)@.len() as int),
{
    let ghost old_bytes = salt_bytes@;
    let ghost n = nonce as nat;
    let mut x: u64 = nonce;
    let mut j: usize = 0;
    assert(pow16(0) == 1);
    while j < 16
        invariant
            j <= 16,
            salt_start + 16 <= old_bytes.len(),
            salt_bytes@.len() == old_bytes.len(),
            salt_start + 16 <= salt_bytes.len(),
            x as nat == n / pow16(j as nat),
            n == nonce as nat,
            forall|k: int|
                0 <= k < old_bytes.len() && !(salt_start + 16 - j <= k < salt_start + 16)
                    ==> #[trigger] salt_bytes@[k] == old_bytes[k],
            forall|k: int| 16 - j <= k < 16 ==> salt_bytes@[salt_start + k] == #[trigger] nonce_hex(
                nonce,
            )[k],
        decreases 16 - j,
    {
        let d: u64 = x % 16;
        let c: u8 = if d < 10 {
            (48 + d) as u8
        } else {
            (87 + d) as u8
        };
        let pos: usize = salt_start + 15 - j;
        salt_bytes.set(pos, c);
        proof {
            lemma_pow16_facts(j as nat);
            assert(nonce_hex(nonce)[15 - j as int] == hex_char(
                (n / pow16((15 - (15 - j as int)) as nat)) % 16,
            ));
            assert((15 - (15 - j as int)) as nat == j as nat);
            lemma_div_denominator(n as int, pow16(j as nat) as int, 16);
        }
        x = x / 16;
        j = j + 1;
    }
    assert(salt_bytes@ =~= old_bytes.subrange(0, salt_start as int) + nonce_hex(nonce)
        + old_bytes.subrange(salt_start + 16, old_bytes.len() as int));
}

/// The 16 hexadecimal digits of `nonce`, as written by `{:016x}`.
pub fn nonce_to_hex(nonce: u64) -> (digits: Vec<u8>)
    ensures
        digits@ == nonce_hex(nonce),
{
    let mut digits: Vec<u8> = vec![0u8; 16];
    write_nonce_to_bytes(&mut digits, nonce, 0);
    assert(digits@ =~= nonce_hex(nonce));
    digits
}

proof fn lemma_nonce_hex_prefix_value(n: u64, k: nat)
    requires
        k <= 16,
    ensures
        hex_number(nonce_hex(n).take(k as int)) == n as nat / pow16((16 - k) as nat),
    decreases k,
{
    let s = nonce_hex(n);
    if k == 0 {
        lemma_pow16_16();
        assert(s.take(0) =~= Seq::<u8>::empty());
        assert(hex_number(s.take(0)) == 0);
        assert(n as nat / 0x1_0000_0000_0000_0000nat == 0) by (nonlinear_arith)
            requires
                n as nat <= u64::MAX,
        ;
    } else {
        let j = (k - 1) as nat;
        lemma_nonce_hex_prefix_value(n, j);
        assert(s.take(k as int).drop_last() =~= s.take(j as int));
        let e = (16 - k) as nat;
        lemma_pow16_facts(e);
        let y = n as nat / pow16(e);
        assert(s.take(k as int).last() == hex_char(y % 16));
        assert(hex_digit_value(hex_char(y % 16)) == y % 16);
        lemma_div_denominator(n as int, pow16(e) as int, 16);
        assert((16 - j) as nat == e + 1);
        assert(n as nat / pow16((16 - j) as nat) == y / 16);
        lemma_fundamental_div_mod(y as int, 16);
        assert(hex_number(s.take(k as int)) == hex_number(s.take(j as int)) * 16 + y % 16);
        assert((y / 16) * 16 + y % 16 == y);
    }
}

/// Reading the hexadecimal rendering of a nonce back gives the nonce: the
/// rendering consists of lowercase hexadecimal digits only and its value is
/// the nonce.
pub proof fn lemma_nonce_hex_decodes(n: u64)
    ensures
        nonce_hex(n).len() == 16,
        forall|i: int| 0 <= i < 16 ==> is_hex_digit(#[trigger] nonce_hex(n)[i]),
        forall|i: int| 0 <= i < 16 ==> !(65 <= #[trigger] nonce_hex(n)[i] <= 70),
        hex_number(nonce_hex(n)) == n as nat,
{
    lemma_nonce_hex_prefix_value(n, 16);
    assert(nonce_hex(n).take(16) =~= nonce_hex(n));
    assert(pow16(0) == 1);
    assert(n as nat / 1 == n as nat);
}

/// Distinct nonces have distinct hexadecimal renderings.
pub proof fn lemma_nonce_hex_injective(a: u64, b: u64)
    requires
        nonce_hex(a) == nonce_hex(b),
    ensures
        a == b,
{
    lemma_nonce_hex_decodes(a);
    lemma_nonce_hex_decodes(b);
}

/// Parsing the hexadecimal rendering of a nonce as a 64-bit numeral gives
/// the nonce back.
pub proof fn lemma_parse_hex_of_nonce_hex(n: u64)
    ensures
        parse_hex_spec(nonce_hex(n), u64::MAX as nat) == Some(n as nat),
{
    lemma_nonce_hex_decodes(n);
    let s = nonce_hex(n);
    assert(is_hex_digit(s[0]));
    assert(numeral_digits(s) == s);
}

proof fn lemma_hex_number_prefix_le(s: Seq<u8>, j: int)
    requires
        0 <= j <= s.len(),
    ensures
        hex_number(s.take(j)) <= hex_number(s),
    decreases s.len(),
{
    if j < s.len() {
        let t = s.drop_last();
        assert(t.take(j) =~= s.take(j));
        lemma_hex_number_prefix_le(t, j);
    } else {
        assert(s.take(j) =~= s);
    }
}

/// The value of one ASCII hexadecimal digit, or `None` for any other byte.
pub fn hex_digit_of(c: u8) -> (v: Option<u64>)
    ensures
        match v {
            Some(d) => is_hex_digit(c) && d as nat == hex_digit_value(c) && d < 16,
            None => !is_hex_digit(c),
        },
        48 <= c <= 57 ==> v == Some((c - 48) as u64),
        97 <= c <= 102 ==> v == Some((c - 87) as u64),
        65 <= c <= 70 ==> v == Some((c - 55) as u64),
        !(48 <= c <= 57 || 97 <= c <= 102 || 65 <= c <= 70) ==> v is None,
{
    if 48 <= c && c <= 57 {
        Some((c - 48) as u64)
    } else if 97 <= c && c <= 102 {
        Some((c - 87) as u64)
    } else if 65 <= c && c <= 70 {
        Some((c - 55) as u64)
    } else {
        None
    }
}

/// Parses `s` as a hexadecimal numeral (an optional `+`, then one or more
/// digits of either case) into a `u64`; `None` when `s` is not such a
/// numeral or its value does not fit.
pub fn parse_hex_u64(s: &[u8]) -> (r: Option<u64>)
    ensures
        match parse_hex_spec(s@, u64::MAX as nat) {
            Some(v) => r == Some(v as u64),
            None => r is None,
        },
{
    let start: usize = if s.len() > 0 && s[0] == 43u8 {
        1
    } else {
        0
    };
    let ghost digits = numeral_digits(s@);
    assert(digits =~= s@.subrange(start as int, s@.len() as int));
    if start >= s.len() {
        return None;
    }
    let mut acc: u64 = 0;
    let mut i: usize = start;
    assert(s@.subrange(start as int, start as int) =~= Seq::<u8>::empty());
    while i < s.len()
        invariant
            start <= i <= s.len(),
            start < s.len(),
            digits == s@.subrange(start as int, s@.len() as int),
            digits == numeral_digits(s@),
            acc as nat == hex_number(s@.subrange(start as int, i as int)),
            forall|k: int| start <= k < i ==> is_hex_digit(#[trigger] s@[k]),
        decreases s.len() - i,
    {
        let c = s[i];
        let d = match hex_digit_of(c) {
            Some(d) => d,
            None => {
                assert(!is_hex_digit(digits[i - start]));
                return None;
            },
        };
        let ghost next = s@.subrange(start as int, i + 1);
        assert(next.drop_last() =~= s@.subrange(start as int, i as int));
        assert(hex_number(next) == acc as nat * 16 + d as nat);
        if acc > (u64::MAX - d) / 16 {
            assert(acc as nat * 16 + d as nat > u64::MAX) by (nonlinear_arith)
                requires
                    acc > (u64::MAX - d) / 16,
                    d < 16,
            ;
            proof {
                assert(digits.take(i + 1 - start) =~= next);
                lemma_hex_number_prefix_le(digits, i + 1 - start);
            }
            return None;
        }
        assert(acc * 16 + d <= u64::MAX) by (nonlinear_arith)
            requires
                acc <= (u64::MAX - d) / 16,
                d < 16,
        ;
        acc = acc * 16 + d;
        i = i + 1;
    }
    assert(s@.subrange(start as int, s@.len() as int) == digits);
    assert(forall|k: int| 0 <= k < digits.len() ==> digits[k] == s@[k + start]);
    Some(acc)
}

/// Parses `s` as a hexadecimal numeral into a `u32`, as `u32::from_str_radix`
/// with radix 16 accepts it; `None` when it is not such a numeral or its
/// value does not fit in 32 bits.
pub fn parse_hex_u32(s: &[u8]) -> (r: Option<u32>)
    ensures
        match parse_hex_spec(s@, u32::MAX as nat) {
            Some(v) => r == Some(v as u32),
            None => r is None,
        },
{
    match parse_hex_u64(s) {
        Some(v) => {
            if v <= u32::MAX as u64 {
                Some(v as u32)
            } else {
                None
            }
        },
        None => None,
    }
}

/// The hexadecimal digits are `0`-`9`, `a`-`f` and `A`-`F`, with their
/// usual values; an uppercase letter has the value of its lowercase form.
pub proof fn lemma_hex_digit_values(c: u8)
    ensures
        48 <= c <= 57 ==> is_hex_digit(c) && hex_digit_value(c) == c - 48,
        97 <= c <= 102 ==> is_hex_digit(c) && hex_digit_value(c) == c - 87,
        65 <= c <= 70 ==> is_hex_digit(c) && hex_digit_value(c) == c - 55 && is_hex_digit(
            (c + 32) as u8,
        ) && hex_digit_value(c) == hex_digit_value((c + 32) as u8),
        !(48 <= c <= 57 || 97 <= c <= 102 || 65 <= c <= 70) ==> !is_hex_digit(c),
        is_hex_digit(c) ==> hex_digit_value(c) < 16,
{
}

/// ASCII lowercasing of one byte.
pub open spec fn ascii_lower(c: u8) -> u8 {
    if 65 <= c <= 90 {
        (c + 32) as u8
    } else {
        c
    }
}

/// ASCII lowercasing of a byte string.
pub open spec fn ascii_lowercase(s: Seq<u8>) -> Seq<u8> {
    s.map_values(|c: u8| ascii_lower(c))
}

proof fn lemma_hex_number_lowercase(s: Seq<u8>)
    requires
        forall|i: int| 0 <= i < s.len() ==> is_hex_digit(#[trigger] s[i]),
    ensures
        hex_number(ascii_lowercase(s)) == hex_number(s),
    decreases s.len(),
{
    if s.len() > 0 {
        let t = s.drop_last();
        assert(ascii_lowercase(s).drop_last() =~= ascii_lowercase(t));
        assert(is_hex_digit(s.last()));
        lemma_hex_number_lowercase(t);
    }
}

/// Parsing ignores the case of the digits: a numeral and its lowercase
/// form parse to the same result, whatever the bound.
pub proof fn lemma_parse_hex_case_insensitive(s: Seq<u8>, max: nat)
    ensures
        parse_hex_spec(s, max) == parse_hex_spec(ascii_lowercase(s), max),
{
    let l = ascii_lowercase(s);
    let d = numeral_digits(s);
    let dl = numeral_digits(l);
    assert(dl =~= ascii_lowercase(d));
    assert forall|i: int| 0 <= i < d.len() implies (is_hex_digit(#[trigger] d[i]) <==> is_hex_digit(
        dl[i],
    )) by {
        assert(dl[i] == ascii_lower(d[i]));
    }
    if is_hex_numeral(s) {
        lemma_hex_number_lowercase(d);
        assert forall|i: int| 0 <= i < dl.len() implies is_hex_digit(#[trigger] dl[i]) by {
            assert(is_hex_digit(d[i]));
        }
    }
    if is_hex_numeral(l) {
        assert forall|i: int| 0 <= i < d.len() implies is_hex_digit(#[trigger] d[i]) by {
            assert(is_hex_digit(dl[i]));
        }
        lemma_hex_number_lowercase(d);
    }
}

/// A one-digit numeral parses to the value of its digit, in either case.
pub proof fn lemma_parse_single_digit(c: u8, max: nat)
    requires
        max >= 15,
    ensures
        (48 <= c <= 57) ==> parse_hex_spec(seq![c], max) == Some((c - 48) as nat),
        (97 <= c <= 102) ==> parse_hex_spec(seq![c], max) == Some((c - 87) as nat),
        (65 <= c <= 70) ==> parse_hex_spec(seq![c], max) == Some((c - 55) as nat),
        !(48 <= c <= 57 || 97 <= c <= 102 || 65 <= c <= 70) ==> parse_hex_spec(seq![c], max) is None,
{
    let s = seq![c];
    if c != 43 {
        assert(numeral_digits(s) == s);
        assert(s.drop_last() =~= Seq::<u8>::empty());
        assert(s[0] == c);
        assert(s.last() == c);
        assert(hex_number(s.drop_last()) == 0);
        assert(hex_number(s) == hex_digit_value(c));
        if is_hex_digit(c) {
            assert forall|i: int| 0 <= i < s.len() implies is_hex_digit(#[trigger] s[i]) by {
                assert(i == 0);
            }
            assert(is_hex_numeral(s));
        } else {
            assert(!is_hex_digit(s[0]));
        }
    } else {
        assert(numeral_digits(s) =~= Seq::<u8>::empty());
    }
}

} // verus!
