//! Decoders for Oracle's internal NUMBER, DATE and TIMESTAMP encodings.

use vstd::prelude::*;
use crate::text::{chars_of, dec, push_all, push_dec_padded, push_repeat, push_signed_padded,
    push_str, signed_pad, string_from_chars, zero_pad};
use crate::types::{hex_bytes, push_hex_bytes};

verus! {

// ─────────────────────────────────────────────────────────────
// NUMBER
// ─────────────────────────────────────────────────────────────

/// The first index `>= from` where `s` holds `b`, if any.
pub open spec fn first_index_of(s: Seq<u8>, b: u8, from: int) -> Option<int>
    decreases s.len() - from,
{
    if from < 0 || from >= s.len() {
        None
    } else if s[from] == b {
        Some(from)
    } else {
        first_index_of(s, b, from + 1)
    }
}

/// The mantissa bytes: everything after the exponent byte; for a negative
/// number only the bytes before the first `0x66` terminator.
pub open spec fn mant_bytes(data: Seq<u8>, neg: bool) -> Seq<u8> {
    let rest = data.subrange(1, data.len() as int);
    if neg {
        match first_index_of(rest, 0x66, 0) {
            Some(k) => rest.subrange(0, k),
            None => rest,
        }
    } else {
        rest
    }
}

/// The base-100 digit a mantissa byte stands for: `101 - b` for negative
/// numbers, `b - 1` otherwise.
pub open spec fn digit_of(b: u8, neg: bool) -> int {
    if neg {
        101 - b
    } else {
        b - 1
    }
}

/// The mantissa digits, each written with at least two decimal places.
pub open spec fn digits_text(bs: Seq<u8>, neg: bool) -> Seq<char>
    decreases bs.len(),
{
    if bs.len() == 0 {
        Seq::empty()
    } else {
        digits_text(bs.drop_last(), neg) + zero_pad(dec(digit_of(bs.last(), neg) as nat), 2)
    }
}

/// `s` without its leading `'0'`s.
pub open spec fn trim_leading_zeros(s: Seq<char>) -> Seq<char>
    decreases s.len(),
{
    if s.len() > 0 && s[0] == '0' {
        trim_leading_zeros(s.subrange(1, s.len() as int))
    } else {
        s
    }
}

/// `s` without its trailing `'0'`s.
pub open spec fn trim_trailing_zeros(s: Seq<char>) -> Seq<char>
    decreases s.len(),
{
    if s.len() > 0 && s.last() == '0' {
        trim_trailing_zeros(s.drop_last())
    } else {
        s
    }
}

/// The position of the decimal point in the digit string, counted from
/// its first digit (leading zeros included): two digits for each base-100
/// place of the exponent, which is the exponent byte's low seven bits less
/// 64 (of the complemented byte for negative numbers). It lies in
/// -128..=126.
pub open spec fn decimal_pos(e: u8) -> int {
    if e < 0x80 {
        ((255 - e) - 128 - 64) * 2
    } else {
        (e - 128 - 64) * 2
    }
}

/// `n` zero characters (none when `n <= 0`).
pub open spec fn zeros(n: int) -> Seq<char> {
    Seq::new(if n > 0 { n as nat } else { 0 }, |i: int| '0')
}

/// The digits padded with zeros so that the decimal point falls inside
/// them: in front when the point lies before the digits, behind when it
/// lies after them.
pub open spec fn padded_digits(t: Seq<char>, dp: int) -> Seq<char> {
    zeros(-dp) + t + zeros(dp - t.len())
}

/// Where the decimal point falls in the padded digits.
pub open spec fn padded_point(dp: int) -> int {
    if dp < 0 {
        0
    } else {
        dp
    }
}

/// The digits `t` with the decimal point after `dp` of them, written
/// canonically: no leading zeros before the point (a single `0` when there
/// is nothing else), no trailing zeros after it, and no point at all for a
/// whole number.
pub open spec fn canonical_decimal(t: Seq<char>, dp: int) -> Seq<char> {
    let p = padded_digits(t, dp);
    let q = padded_point(dp);
    let ip = trim_leading_zeros(p.subrange(0, q));
    let fp = trim_trailing_zeros(p.subrange(q, p.len() as int));
    let whole = if ip.len() == 0 {
        "0"@
    } else {
        ip
    };
    if fp.len() == 0 {
        whole
    } else {
        whole + "."@ + fp
    }
}

/// True when no mantissa byte makes the digit arithmetic leave `u8`: a
/// negative number's bytes before the terminator are at most 101, a
/// positive number's bytes are at least 1.
pub open spec fn number_digits_in_range(data: Seq<u8>) -> bool {
    data.len() > 0 && data[0] != 0x80 ==> forall|i: int|
        0 <= i < number_mantissa(data).len() ==> (data[0] < 0x80 ==> #[trigger] number_mantissa(data)[i]
            <= 101) && (data[0] >= 0x80 ==> number_mantissa(data)[i] >= 1)
}

/// Whether `decode_oracle_number` accepts the data: every mantissa byte
/// stands for a digit (see `number_digits_in_range`).
pub fn number_digits_ok(data: &[u8]) -> (b: bool)
    ensures
        b == number_digits_in_range(data@),
{
    if data.len() == 0 || data[0] == 0x80 {
        return true;
    }
    let negative = data[0] < 0x80;
    let ghost d = data@;
    let ghost m = number_mantissa(d);
    let ghost rest = d.subrange(1, d.len() as int);
    let mut i: usize = 1;
    while i < data.len()
        invariant
            d == data@,
            d.len() > 0,
            d[0] != 0x80,
            negative == (d[0] < 0x80),
            m == number_mantissa(d),
            rest == d.subrange(1, d.len() as int),
            1 <= i <= d.len(),
            negative ==> first_index_of(rest, 0x66, 0) == first_index_of(rest, 0x66, i - 1),
            i - 1 <= m.len(),
            forall|j: int| 0 <= j < i - 1 ==> m[j] == d[j + 1],
            forall|j: int|
                0 <= j < i - 1 ==> (negative ==> #[trigger] m[j] <= 101) && (!negative ==> m[j] >= 1),
        decreases d.len() - i,
    {
        let b = data[i];
        if negative && b == 0x66 {
            assert(first_index_of(rest, 0x66, i - 1) == Some((i - 1) as int));
            assert(m =~= rest.subrange(0, i - 1));
            return true;
        }
        if negative && b > 101 || !negative && b < 1 {
            proof {
                if negative {
                    assert(first_index_of(rest, 0x66, i - 1) == first_index_of(rest, 0x66, i as int));
                    lemma_no_terminator_before(rest, i as int);
                }
                assert(m[i - 1] == b);
            }
            return false;
        }
        proof {
            if negative {
                assert(first_index_of(rest, 0x66, i - 1) == first_index_of(rest, 0x66, i as int));
                lemma_no_terminator_before(rest, i as int);
            }
            assert(m[i - 1] == d[i as int]);
        }
        i = i + 1;
    }
    proof {
        if negative {
            assert(first_index_of(rest, 0x66, (d.len() - 1) as int) is None);
        }
        assert(m =~= rest);
    }
    true
}

/// When the first terminator at or after `k` is the first one overall,
/// the mantissa of a negative number reaches at least to `k`.
proof fn lemma_no_terminator_before(rest: Seq<u8>, k: int)
    requires
        0 <= k <= rest.len(),
        first_index_of(rest, 0x66, 0) == first_index_of(rest, 0x66, k),
    ensures
        match first_index_of(rest, 0x66, 0) {
            Some(t) => k <= t < rest.len(),
            None => true,
        },
    decreases rest.len() - k,
{
    lemma_first_index_from(rest, k);
}

proof fn lemma_first_index_from(rest: Seq<u8>, k: int)
    requires
        0 <= k,
    ensures
        match first_index_of(rest, 0x66, k) {
            Some(t) => k <= t < rest.len(),
            None => true,
        },
    decreases rest.len() - k,
{
    if k < rest.len() && rest[k] != 0x66 {
        lemma_first_index_from(rest, k + 1);
    }
}

/// The mantissa bytes of a NUMBER, by the sign of its exponent byte.
pub open spec fn number_mantissa(data: Seq<u8>) -> Seq<u8> {
    mant_bytes(data, data[0] < 0x80)
}

/// The decimal text of an Oracle NUMBER.
pub open spec fn number_text(data: Seq<u8>) -> Seq<char> {
    if data.len() == 0 {
        "NULL"@
    } else if data[0] == 0x80 {
        "0"@
    } else {
        let neg = data[0] < 0x80;
        let mb = mant_bytes(data, neg);
        if mb.len() == 0 {
            if neg {
                "-0"@
            } else {
                "0"@
            }
        } else {
            let t = digits_text(mb, neg);
            if trim_leading_zeros(t).len() == 0 {
                "0"@
            } else if neg {
                seq!['-'] + canonical_decimal(t, decimal_pos(data[0]))
            } else {
                canonical_decimal(t, decimal_pos(data[0]))
            }
        }
    }
}

proof fn lemma_trim_leading_skip(s: Seq<char>, k: int)
    requires
        0 <= k <= s.len(),
        forall|i: int| 0 <= i < k ==> s[i] == '0',
    ensures
        trim_leading_zeros(s) == trim_leading_zeros(s.subrange(k, s.len() as int)),
    decreases k,
{
    if k > 0 {
        let s1 = s.subrange(1, s.len() as int);
        lemma_trim_leading_skip(s1, k - 1);
        assert(s1.subrange(k - 1, s1.len() as int) =~= s.subrange(k, s.len() as int));
    } else {
        assert(s.subrange(0, s.len() as int) =~= s);
    }
}

proof fn lemma_trim_trailing_take(s: Seq<char>, k: int)
    requires
        0 <= k <= s.len(),
        forall|i: int| k <= i < s.len() ==> s[i] == '0',
    ensures
        trim_trailing_zeros(s) == trim_trailing_zeros(s.subrange(0, k)),
    decreases s.len() - k,
{
    if k < s.len() {
        lemma_trim_trailing_take(s.drop_last(), k);
        assert(s.drop_last().subrange(0, k) =~= s.subrange(0, k));
    } else {
        assert(s.subrange(0, k) =~= s);
    }
}

/// Decodes Oracle's base-100 NUMBER encoding to canonical decimal text:
/// an exponent byte (sign bit, then the base-100 exponent biased by 65 in
/// the low seven bits; complemented for negative numbers) then mantissa
/// bytes (`digit + 1`, or `101 - digit` before a `0x66` terminator for
/// negative numbers). `0x80` alone is zero; empty data is `NULL`.
pub fn decode_oracle_number(data: &[u8]) -> (s: String)
    requires
        number_digits_in_range(data@),
    ensures
        s@ == number_text(data@),
{
    if data.len() == 0 {
        return string_from_chars(chars_of("NULL"));
    }
    let exp_byte = data[0];
    if exp_byte == 0x80 {
        return string_from_chars(chars_of("0"));
    }
    let negative = exp_byte < 0x80;
    let ghost d = data@;
    let ghost rest = d.subrange(1, d.len() as int);
    // Length of the mantissa: up to the terminator for negative numbers.
    let mut n: usize = data.len() - 1;
    if negative {
        let mut k: usize = 0;
        let mut hit = false;
        while k < data.len() - 1
            invariant_except_break
                !hit,
            invariant
                d == data@,
                d.len() >= 1,
                rest == d.subrange(1, d.len() as int),
                k <= rest.len(),
                first_index_of(rest, 0x66, 0) == first_index_of(rest, 0x66, k as int),
            ensures
                hit ==> k < rest.len() && first_index_of(rest, 0x66, 0) == Some(k as int),
                !hit ==> first_index_of(rest, 0x66, 0) is None,
            decreases rest.len() - k,
        {
            if data[k + 1] == 0x66 {
                hit = true;
                break;
            }
            k = k + 1;
        }
        if hit {
            n = k;
        }
    }
    let ghost mb = mant_bytes(d, negative);
    assert(mb =~= d.subrange(1, n + 1));
    if n == 0 {
        if negative {
            return string_from_chars(chars_of("-0"));
        } else {
            return string_from_chars(chars_of("0"));
        }
    }
    // All digits, two (or three) decimal places each.
    let mut all: Vec<char> = Vec::new();
    let mut i: usize = 0;
    while i < n
        invariant
            d == data@,
            mb == d.subrange(1, n + 1),
            n + 1 <= d.len(),
            i <= n,
            number_digits_in_range(d),
            negative == (d[0] < 0x80),
            d[0] != 0x80,
            mb == mant_bytes(d, negative),
            all@ == digits_text(mb.subrange(0, i as int), negative),
        decreases n - i,
    {
        let b = data[i + 1];
        assert(mb[i as int] == b);
        proof {
            let neg = d[0] < 0x80;
            assert(neg == negative);
            let m2 = number_mantissa(d);
            assert(m2 == mb);
            assert(d.len() != 0 && d[0] != 0x80);
            assert((neg ==> m2[i as int] <= 101) && (!neg ==> m2[i as int] >= 1));
        }
        let dgt: u8 = if negative { 101 - b } else { b - 1 };
        push_dec_padded(&mut all, dgt as u64, 2);
        i = i + 1;
        assert(mb.subrange(0, i as int).drop_last() =~= mb.subrange(0, i - 1));
    }
    assert(mb.subrange(0, n as int) =~= mb);
    // Skip leading zeros.
    let mut t: usize = 0;
    while t < all.len() && all[t] == '0'
        invariant
            t <= all@.len(),
            forall|j: int| 0 <= j < t ==> all@[j] == '0',
        decreases all@.len() - t,
    {
        t = t + 1;
    }
    proof {
        lemma_trim_leading_skip(all@, t as int);
    }
    if t == all.len() {
        return string_from_chars(chars_of("0"));
    }
    let dp: i64 = if negative {
        ((255 - exp_byte) as i64 - 192) * 2
    } else {
        (exp_byte as i64 - 192) * 2
    };
    assert(dp as int == decimal_pos(d[0]));
    let body = canonical_chars(all.as_slice(), dp);
    let mut out: Vec<char> = Vec::new();
    if negative {
        out.push('-');
    }
    push_all(&mut out, body.as_slice());
    let s = string_from_chars(out);
    assert(s@ =~= number_text(d));
    s
}

/// The digits with the decimal point after `dp` of them, in canonical form
/// (see `canonical_decimal`).
fn canonical_chars(all: &[char], dp: i64) -> (v: Vec<char>)
    requires
        -128 <= dp <= 126,
    ensures
        v@ == canonical_decimal(all@, dp as int),
{
    // The digits padded so that the point falls inside them.
    let mut p: Vec<char> = Vec::new();
    if dp < 0 {
        push_repeat(&mut p, '0', (-dp) as usize);
    }
    push_all(&mut p, all);
    if dp > 0 && dp as usize > all.len() {
        push_repeat(&mut p, '0', dp as usize - all.len());
    }
    assert(p@ =~= padded_digits(all@, dp as int));
    let q: usize = if dp < 0 { 0 } else { dp as usize };
    assert(q as int == padded_point(dp as int));
    let (int_part, frac_part) = p.as_slice().split_at(q);
    // Skip leading zeros of the whole part.
    let mut s0: usize = 0;
    while s0 < int_part.len() && int_part[s0] == '0'
        invariant
            s0 <= int_part@.len(),
            forall|j: int| 0 <= j < s0 ==> int_part@[j] == '0',
        decreases int_part@.len() - s0,
    {
        s0 = s0 + 1;
    }
    // Drop trailing zeros of the fraction.
    let mut f: usize = frac_part.len();
    while f > 0 && frac_part[f - 1] == '0'
        invariant
            f <= frac_part@.len(),
            forall|j: int| f <= j < frac_part@.len() ==> frac_part@[j] == '0',
        decreases f,
    {
        f = f - 1;
    }
    let whole = int_part.split_at(s0).1;
    let frac = frac_part.split_at(f).0;
    proof {
        lemma_trim_leading_skip(int_part@, s0 as int);
        assert(whole@ =~= int_part@.subrange(s0 as int, int_part@.len() as int));
        assert(trim_leading_zeros(whole@) == whole@);
        lemma_trim_trailing_take(frac_part@, f as int);
        assert(frac@ =~= frac_part@.subrange(0, f as int));
        assert(trim_trailing_zeros(frac@) == frac@);
        assert(int_part@ =~= p@.subrange(0, q as int));
        assert(frac_part@ =~= p@.subrange(q as int, p@.len() as int));
    }
    let mut out: Vec<char> = Vec::new();
    if whole.len() == 0 {
        out.push('0');
    } else {
        push_all(&mut out, whole);
    }
    if f > 0 {
        out.push('.');
        push_all(&mut out, frac);
    }
    proof {
        reveal_strlit("0");
        reveal_strlit(".");
    }
    assert(out@ =~= canonical_decimal(all@, dp as int));
    out
}

// ─────────────────────────────────────────────────────────────
// DATE and TIMESTAMP
// ─────────────────────────────────────────────────────────────

/// The calendar part of a DATE: `YYYY-MM-DD`.
pub open spec fn date_ymd(d: Seq<u8>) -> Seq<char> {
    signed_pad((d[0] - 100) * 100 + (d[1] - 100), 4) + "-"@ + zero_pad(dec(d[2] as nat), 2) + "-"@
        + zero_pad(dec(d[3] as nat), 2)
}

/// The clock part of a DATE: `HH:MM:SS` from hour+1, minute+1, second+1.
pub open spec fn date_hms(d: Seq<u8>) -> Seq<char> {
    signed_pad(d[4] - 1, 2) + ":"@ + signed_pad(d[5] - 1, 2) + ":"@ + signed_pad(d[6] - 1, 2)
}

/// The text of a 7-byte DATE: century+100, year+100, month, day, hour+1,
/// minute+1, second+1. Midnight shows the date only. Shorter data shows
/// `DATE(<hex>)`.
pub open spec fn date_text(d: Seq<u8>) -> Seq<char> {
    if d.len() < 7 {
        "DATE("@ + hex_bytes(d) + ")"@
    } else if d[4] - 1 == 0 && d[5] - 1 == 0 && d[6] - 1 == 0 {
        date_ymd(d)
    } else {
        date_ymd(d) + " "@ + date_hms(d)
    }
}

/// The nanosecond suffix of a TIMESTAMP: `.` and nine digits when bytes
/// 7..11 hold a non-zero big-endian count, else nothing.
pub open spec fn nanos_suffix(d: Seq<u8>) -> Seq<char> {
    if d.len() >= 11 && crate::parser::be32(d, 7) > 0 {
        "."@ + zero_pad(dec(crate::parser::be32(d, 7) as nat), 9)
    } else {
        Seq::empty()
    }
}

/// The text of a TIMESTAMP: with a non-zero nanosecond count, the full
/// `YYYY-MM-DD HH:MM:SS.nnnnnnnnn` (midnight included); otherwise the DATE
/// of its first seven bytes. Shorter data shows `TIMESTAMP(<hex>)`.
pub open spec fn timestamp_text(d: Seq<u8>) -> Seq<char> {
    if d.len() < 7 {
        "TIMESTAMP("@ + hex_bytes(d) + ")"@
    } else if nanos_suffix(d).len() > 0 {
        date_ymd(d.subrange(0, 7)) + " "@ + date_hms(d.subrange(0, 7)) + nanos_suffix(d)
    } else {
        date_text(d.subrange(0, 7))
    }
}

/// Upper-case hex of the bytes, two digits each.
pub fn hex_str(data: &[u8]) -> (s: String)
    ensures
        s@ == hex_bytes(data@),
{
    let mut v: Vec<char> = Vec::new();
    push_hex_bytes(&mut v, data);
    string_from_chars(v)
}

/// Appends `YYYY-MM-DD` of a DATE.
fn push_date_ymd(v: &mut Vec<char>, data: &[u8])
    requires
        data@.len() >= 7,
    ensures
        final(v)@ == old(v)@ + date_ymd(data@),
{
    let century = data[0] as i64 - 100;
    let year_in_cent = data[1] as i64 - 100;
    let year = century * 100 + year_in_cent;
    let ghost v0 = v@;
    push_signed_padded(v, year, 4);
    v.push('-');
    push_dec_padded(v, data[2] as u64, 2);
    v.push('-');
    push_dec_padded(v, data[3] as u64, 2);
    proof {
        reveal_strlit("-");
    }
    assert(v@ =~= v0 + date_ymd(data@));
}

/// Appends `HH:MM:SS` of a DATE.
fn push_date_hms(v: &mut Vec<char>, data: &[u8])
    requires
        data@.len() >= 7,
    ensures
        final(v)@ == old(v)@ + date_hms(data@),
{
    let ghost v0 = v@;
    push_signed_padded(v, data[4] as i64 - 1, 2);
    v.push(':');
    push_signed_padded(v, data[5] as i64 - 1, 2);
    v.push(':');
    push_signed_padded(v, data[6] as i64 - 1, 2);
    proof {
        reveal_strlit(":");
    }
    assert(v@ =~= v0 + date_hms(data@));
}

/// Decodes Oracle's 7-byte DATE format to `YYYY-MM-DD` or
/// `YYYY-MM-DD HH:MM:SS`.
pub fn decode_oracle_date(data: &[u8]) -> (s: String)
    ensures
        s@ == date_text(data@),
{
    if data.len() < 7 {
        let mut v = chars_of("DATE(");
        push_hex_bytes(&mut v, data);
        push_str(&mut v, ")");
        return string_from_chars(v);
    }
    let mut v: Vec<char> = Vec::new();
    push_date_ymd(&mut v, data);
    if !(data[4] == 1 && data[5] == 1 && data[6] == 1) {
        v.push(' ');
        push_date_hms(&mut v, data);
        proof {
            reveal_strlit(" ");
        }
    }
    assert(v@ =~= date_text(data@));
    string_from_chars(v)
}

/// Decodes an Oracle TIMESTAMP: the DATE bytes, then nanoseconds as a
/// 4-byte big-endian count; with nanoseconds the time is always shown.
pub fn decode_oracle_timestamp(data: &[u8]) -> (s: String)
    ensures
        s@ == timestamp_text(data@),
{
    if data.len() < 7 {
        let mut v = chars_of("TIMESTAMP(");
        push_hex_bytes(&mut v, data);
        push_str(&mut v, ")");
        return string_from_chars(v);
    }
    let day = &data[0..7];
    let ns: u32 = if data.len() >= 11 {
        data[7] as u32 * 16777216 + data[8] as u32 * 65536 + data[9] as u32 * 256 + data[10] as u32
    } else {
        0
    };
    if ns == 0 {
        let s = decode_oracle_date(day);
        assert(s@ =~= timestamp_text(data@));
        return s;
    }
    let mut v: Vec<char> = Vec::new();
    push_date_ymd(&mut v, day);
    v.push(' ');
    push_date_hms(&mut v, day);
    v.push('.');
    push_dec_padded(&mut v, ns as u64, 9);
    proof {
        reveal_strlit(" ");
        reveal_strlit(".");
    }
    assert(v@ =~= timestamp_text(data@));
    string_from_chars(v)
}

} // verus!
