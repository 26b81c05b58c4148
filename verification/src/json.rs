//! The publish wire format: readings as JSON with exactly two decimal
//! places, `{"temperature":<t>,"humidity":<h>}`, and its parser.
//!
//! Numbers are canonical: no leading zeros on the integer part, exactly two
//! fraction digits, a minus sign only on strictly negative values. The
//! serializer and parser are exact inverses on this form.

use crate::environment_sensor::EnvironmentReading;
use vstd::prelude::*;
use vstd::string::StringSliceAdditionalSpecFns;

verus! {

/// ASCII codes the format is built from.
pub open spec fn is_digit(b: u8) -> bool {
    48 <= b <= 57
}

/// The digit character for one decimal digit `d` (`0 <= d <= 9`).
pub open spec fn digit_byte(d: int) -> u8 {
    (48 + d) as u8
}

/// Canonical decimal representation of `n >= 0`: most significant digit
/// first, no leading zeros, `0` for zero.
pub open spec fn dec_rep(n: int) -> Seq<u8>
    decreases n,
{
    if n < 10 {
        seq![digit_byte(n)]
    } else {
        dec_rep(n / 10).push(digit_byte(n % 10))
    }
}

/// Two-decimal-place representation of a nonnegative number of hundredths:
/// `dec_rep(m / 100) . two fraction digits`, e.g. `2350` to `23.50`.
pub open spec fn centi_mag_rep(m: int) -> Seq<u8> {
    dec_rep(m / 100) + seq![46u8, digit_byte((m / 10) % 10), digit_byte(m % 10)]
}

/// Two-decimal-place representation of a signed number of hundredths: a
/// minus sign exactly on strictly negative values.
pub open spec fn centi_rep(c: int) -> Seq<u8> {
    if c < 0 {
        seq![45u8] + centi_mag_rep(-c)
    } else {
        centi_mag_rep(c)
    }
}

/// The serialized body for a reading: both values at two decimal places.
pub open spec fn json_body(t: int, h: int) -> Seq<u8> {
    ("{\"temperature\":").spec_bytes() + centi_rep(t) + (",\"humidity\":").spec_bytes()
        + centi_rep(h) + ("}").spec_bytes()
}

/// Length of the run of digit bytes at the front of `s`.
pub open spec fn digits_len(s: Seq<u8>) -> nat
    decreases s.len(),
{
    if s.len() == 0 || !is_digit(s.first()) {
        0
    } else {
        1 + digits_len(s.drop_first())
    }
}

/// Numeric value of a sequence of digit bytes, most significant first.
pub open spec fn digits_val(s: Seq<u8>) -> int
    decreases s.len(),
{
    if s.len() == 0 {
        0
    } else {
        digits_val(s.drop_last()) * 10 + (s.last() - 48)
    }
}

/// Every byte is a digit.
pub open spec fn all_digits(s: Seq<u8>) -> bool {
    forall|i: int| 0 <= i < s.len() ==> is_digit(#[trigger] s[i])
}

/// Parse a canonical unsigned decimal from the front of `s`: at least one
/// digit, no leading zero. Yields the value and the unconsumed rest.
pub open spec fn parse_unsigned(s: Seq<u8>) -> Option<(int, Seq<u8>)> {
    let k = digits_len(s) as int;
    if k == 0 {
        None
    } else if s.first() == 48 && k > 1 {
        None
    } else {
        Some((digits_val(s.take(k)), s.skip(k)))
    }
}

/// Parse a canonical nonnegative two-decimal-place number from the front of
/// `s`: integer part, a dot, exactly two fraction digits. Yields the value
/// in hundredths and the unconsumed rest.
pub open spec fn parse_centi_mag(s: Seq<u8>) -> Option<(int, Seq<u8>)> {
    match parse_unsigned(s) {
        Some((ip, r)) => if r.len() >= 3 && r[0] == 46 && is_digit(r[1]) && is_digit(r[2]) {
            Some((ip * 100 + (r[1] - 48) * 10 + (r[2] - 48), r.skip(3)))
        } else {
            None
        },
        None => None,
    }
}

/// Parse a canonical signed two-decimal-place number: a minus sign is
/// accepted only on a strictly positive magnitude (`-0.00` is not
/// canonical).
pub open spec fn parse_centi(s: Seq<u8>) -> Option<(int, Seq<u8>)> {
    if s.len() > 0 && s.first() == 45 {
        match parse_centi_mag(s.drop_first()) {
            Some((v, r)) => if v > 0 {
                Some((-v, r))
            } else {
                None
            },
            None => None,
        }
    } else {
        parse_centi_mag(s)
    }
}

/// `prefix` is the front of `s`.
pub open spec fn starts_with(s: Seq<u8>, prefix: Seq<u8>) -> bool {
    s.len() >= prefix.len() && s.take(prefix.len() as int) == prefix
}

/// Parse a whole publish body. Succeeds exactly on the canonical serialized
/// form of a reading whose two values fit the reading's integer type.
pub open spec fn parse_body(s: Seq<u8>) -> Option<EnvironmentReading> {
    let lead_key = ("{\"temperature\":").spec_bytes();
    let mid_key = (",\"humidity\":").spec_bytes();
    let closing = ("}").spec_bytes();
    if !starts_with(s, lead_key) {
        None
    } else {
        match parse_centi(s.skip(lead_key.len() as int)) {
            Some((t, r1)) => if !starts_with(r1, mid_key) {
                None
            } else {
                match parse_centi(r1.skip(mid_key.len() as int)) {
                    Some((h, r2)) => if r2 == closing && -2147483648 <= t <= 2147483647 && -2147483648
                        <= h <= 2147483647 {
                        Some(
                            EnvironmentReading {
                                temperature_centi: t as i32,
                                humidity_centi: h as i32,
                            },
                        )
                    } else {
                        None
                    },
                    None => None,
                }
            },
            None => None,
        }
    }
}

/// The digits of `dec_rep(n)` are digits, there is at least one, and the
/// first is zero only for zero itself.
proof fn lemma_dec_rep_shape(n: int)
    requires
        n >= 0,
    ensures
        all_digits(dec_rep(n)),
        dec_rep(n).len() >= 1,
        dec_rep(n).first() == 48 <==> n == 0,
        n == 0 ==> dec_rep(n).len() == 1,
    decreases n,
{
    if n < 10 {
        assert(dec_rep(n) == seq![digit_byte(n)]);
    } else {
        lemma_dec_rep_shape(n / 10);
        let d = dec_rep(n / 10);
        assert(dec_rep(n) == d.push(digit_byte(n % 10)));
        assert(dec_rep(n).first() == d.first());
        assert forall|i: int| 0 <= i < dec_rep(n).len() implies is_digit(
            #[trigger] dec_rep(n)[i],
        ) by {
            if i < d.len() {
                assert(dec_rep(n)[i] == d[i]);
            }
        }
    }
}

/// A digit run followed by a non-digit (or nothing) scans to exactly the
/// run's length.
proof fn lemma_digits_len_concat(d: Seq<u8>, rest: Seq<u8>)
    requires
        all_digits(d),
        rest.len() == 0 || !is_digit(rest.first()),
    ensures
        digits_len(d + rest) == d.len(),
    decreases d.len(),
{
    if d.len() == 0 {
        assert(d + rest =~= rest);
    } else {
        assert((d + rest).first() == d[0]);
        assert((d + rest).drop_first() =~= d.drop_first() + rest);
        assert(all_digits(d.drop_first()));
        lemma_digits_len_concat(d.drop_first(), rest);
    }
}

/// Printing then reading digits is the identity.
proof fn lemma_digits_val_dec_rep(n: int)
    requires
        n >= 0,
    ensures
        digits_val(dec_rep(n)) == n,
    decreases n,
{
    if n < 10 {
        let s = dec_rep(n);
        assert(s == seq![digit_byte(n)]);
        assert(s.drop_last() =~= Seq::<u8>::empty());
        assert(digits_val(Seq::<u8>::empty()) == 0);
        assert(digits_val(s) == digits_val(s.drop_last()) * 10 + (s.last() - 48));
        assert(s.last() == digit_byte(n));
    } else {
        lemma_digits_val_dec_rep(n / 10);
        let d = dec_rep(n / 10);
        let s = dec_rep(n);
        assert(s == d.push(digit_byte(n % 10)));
        assert(s.drop_last() =~= d);
        assert(s.last() == digit_byte(n % 10));
        assert(digits_val(s) == digits_val(d) * 10 + (digit_byte(n % 10) - 48));
    }
}

/// Reading back what `dec_rep` printed consumes exactly the printed digits,
/// whatever follows them (as long as it does not begin with a digit), and
/// yields the printed value.
proof fn lemma_parse_unsigned_inverts(n: int, rest: Seq<u8>)
    requires
        n >= 0,
        rest.len() == 0 || !is_digit(rest.first()),
    ensures
        parse_unsigned(dec_rep(n) + rest) == Some((n, rest)),
{
    let d = dec_rep(n);
    let s = d + rest;
    lemma_dec_rep_shape(n);
    lemma_digits_len_concat(d, rest);
    lemma_digits_val_dec_rep(n);
    let k = digits_len(s) as int;
    assert(k == d.len());
    assert(s.first() == d.first());
    assert(s.take(k) =~= d);
    assert(s.skip(k) =~= rest);
}

/// As `lemma_parse_unsigned_inverts`, for the two-decimal-place magnitude.
/// Nothing is required of `rest`: the fraction always ends after exactly two
/// digits.
proof fn lemma_parse_centi_mag_inverts(m: int, rest: Seq<u8>)
    requires
        m >= 0,
    ensures
        parse_centi_mag(centi_mag_rep(m) + rest) == Some((m, rest)),
{
    let tail = seq![46u8, digit_byte((m / 10) % 10), digit_byte(m % 10)] + rest;
    assert(centi_mag_rep(m) + rest =~= dec_rep(m / 100) + tail);
    lemma_parse_unsigned_inverts(m / 100, tail);
    assert(tail[0] == 46);
    assert(tail[1] == digit_byte((m / 10) % 10));
    assert(tail[2] == digit_byte(m % 10));
    assert(tail.skip(3) =~= rest);
    assert((m / 100) * 100 + ((m / 10) % 10) * 10 + (m % 10) == m) by (nonlinear_arith);
}

/// As `lemma_parse_unsigned_inverts`, for the signed form.
proof fn lemma_parse_centi_inverts(c: int, rest: Seq<u8>)
    ensures
        parse_centi(centi_rep(c) + rest) == Some((c, rest)),
{
    if c < 0 {
        let s = centi_rep(c) + rest;
        assert(s.first() == 45);
        assert(s.drop_first() =~= centi_mag_rep(-c) + rest);
        lemma_parse_centi_mag_inverts(-c, rest);
    } else {
        let s = centi_rep(c) + rest;
        lemma_dec_rep_shape(c / 100);
        assert(s.first() == dec_rep(c / 100).first());
        assert(is_digit(dec_rep(c / 100).first()));
        assert(s.first() != 45);
        lemma_parse_centi_mag_inverts(c, rest);
        assert(centi_rep(c) + rest =~= centi_mag_rep(c) + rest);
    }
}

/// Round trip: parsing a serialized reading yields exactly the reading that
/// was serialized — both values at two decimal places survive unchanged.
pub proof fn lemma_parse_body_inverts_format(t: int, h: int)
    requires
        -2147483648 <= t <= 2147483647,
        -2147483648 <= h <= 2147483647,
    ensures
        parse_body(json_body(t, h)) == Some(
            EnvironmentReading { temperature_centi: t as i32, humidity_centi: h as i32 },
        ),
{
    let lead_key = ("{\"temperature\":").spec_bytes();
    let mid_key = (",\"humidity\":").spec_bytes();
    let closing = ("}").spec_bytes();
    let s = json_body(t, h);
    let rest1 = centi_rep(t) + (mid_key + centi_rep(h) + closing);
    assert(s =~= lead_key + rest1);
    assert(s.take(lead_key.len() as int) =~= lead_key);
    assert(s.skip(lead_key.len() as int) =~= rest1);
    lemma_parse_centi_inverts(t, mid_key + centi_rep(h) + closing);
    let r1 = mid_key + centi_rep(h) + closing;
    assert(r1.take(mid_key.len() as int) =~= mid_key);
    let rest2 = centi_rep(h) + closing;
    assert(r1.skip(mid_key.len() as int) =~= rest2);
    lemma_parse_centi_inverts(h, closing);
}

/// The first `digits_len` bytes are digits and the next one, if any, is not.
proof fn lemma_digits_len_prefix(s: Seq<u8>)
    ensures
        digits_len(s) <= s.len(),
        forall|j: int| 0 <= j < digits_len(s) ==> is_digit(#[trigger] s[j]),
        digits_len(s) < s.len() ==> !is_digit(s[digits_len(s) as int]),
    decreases s.len(),
{
    if s.len() == 0 || !is_digit(s.first()) {
    } else {
        lemma_digits_len_prefix(s.drop_first());
        let k = digits_len(s) as int;
        assert(k == 1 + digits_len(s.drop_first()));
        assert forall|j: int| 0 <= j < k implies is_digit(#[trigger] s[j]) by {
            if j > 0 {
                assert(is_digit(s.drop_first()[j - 1]));
                assert(s.drop_first()[j - 1] == s[j]);
            }
        }
        if k < s.len() {
            assert(!is_digit(s.drop_first()[k - 1]));
            assert(s.drop_first()[k - 1] == s[k]);
        }
    }
}

/// A nonempty canonical digit run that does not start with `0` has a
/// strictly positive value.
proof fn lemma_canonical_digits_positive(d: Seq<u8>)
    requires
        all_digits(d),
        d.len() >= 1,
        d.first() != 48,
    ensures
        digits_val(d) >= 1,
    decreases d.len(),
{
    if d.len() == 1 {
        assert(d.drop_last() =~= Seq::<u8>::empty());
        assert(digits_val(Seq::<u8>::empty()) == 0);
        assert(d.last() == d.first());
        assert(digits_val(d) == d.first() - 48);
    } else {
        let dl = d.drop_last();
        assert(all_digits(dl) && dl.first() == d.first()) by {
            assert(forall|i: int| 0 <= i < d.len() - 1 ==> dl[i] == d[i]);
        }
        lemma_canonical_digits_positive(dl);
        assert(is_digit(d.last()));
        assert(digits_val(d) == digits_val(dl) * 10 + (d.last() - 48));
    }
}

/// Reading a canonical digit run and printing the value again gives back
/// the same bytes.
proof fn lemma_dec_rep_of_digits_val(d: Seq<u8>)
    requires
        all_digits(d),
        d.len() >= 1,
        d.first() != 48 || d.len() == 1,
    ensures
        dec_rep(digits_val(d)) == d,
    decreases d.len(),
{
    if d.len() == 1 {
        assert(d.drop_last() =~= Seq::<u8>::empty());
        assert(digits_val(Seq::<u8>::empty()) == 0);
        assert(d.last() == d.first());
        assert(digits_val(d) == d.first() - 48);
        assert(is_digit(d.first()));
        assert(dec_rep(digits_val(d)) == seq![digit_byte(d.first() - 48)]);
        assert(dec_rep(digits_val(d)) =~= d);
    } else {
        let dl = d.drop_last();
        assert(all_digits(dl) && dl.first() == d.first()) by {
            assert(forall|i: int| 0 <= i < d.len() - 1 ==> dl[i] == d[i]);
        }
        lemma_dec_rep_of_digits_val(dl);
        lemma_canonical_digits_positive(dl);
        let b = d.last() - 48;
        let v = digits_val(d);
        assert(v == digits_val(dl) * 10 + b);
        assert(v / 10 == digits_val(dl) && v % 10 == b) by (nonlinear_arith)
            requires
                v == digits_val(dl) * 10 + b,
                0 <= b < 10,
                digits_val(dl) >= 1,
        ;
        assert(v >= 10) by (nonlinear_arith)
            requires
                v == digits_val(dl) * 10 + b,
                0 <= b,
                digits_val(dl) >= 1,
        ;
        assert(dec_rep(v) == dec_rep(v / 10).push(digit_byte(v % 10)));
        assert(dec_rep(v) =~= d);
    }
}

/// A successful unsigned parse consumed exactly the canonical printing of
/// its value: the input was `dec_rep(v)` followed by the rest, which does
/// not begin with a digit.
proof fn lemma_parse_unsigned_sound(s: Seq<u8>)
    requires
        parse_unsigned(s) is Some,
    ensures
        ({
            let (v, rest) = parse_unsigned(s).unwrap();
            &&& v >= 0
            &&& s == dec_rep(v) + rest
            &&& rest.len() == 0 || !is_digit(rest.first())
        }),
{
    let k = digits_len(s) as int;
    let d = s.take(k);
    lemma_digits_len_prefix(s);
    assert(all_digits(d)) by {
        assert(forall|j: int| 0 <= j < k ==> d[j] == s[j]);
    }
    assert(d.first() == s.first());
    lemma_dec_rep_of_digits_val(d);
    lemma_digits_val_nonneg(d);
    assert(s =~= d + s.skip(k));
}

/// As `lemma_parse_unsigned_sound`, for the two-decimal-place magnitude.
proof fn lemma_parse_centi_mag_sound(s: Seq<u8>)
    requires
        parse_centi_mag(s) is Some,
    ensures
        ({
            let (m, rest) = parse_centi_mag(s).unwrap();
            &&& m >= 0
            &&& s == centi_mag_rep(m) + rest
        }),
{
    let (ip, r) = parse_unsigned(s).unwrap();
    lemma_parse_unsigned_sound(s);
    let a = r[1] - 48;
    let b = r[2] - 48;
    let m = ip * 100 + a * 10 + b;
    assert(ip >= 0 && 0 <= a < 10 && 0 <= b < 10);
    assert(m / 100 == ip && (m / 10) % 10 == a && m % 10 == b) by (nonlinear_arith)
        requires
            m == ip * 100 + a * 10 + b,
            ip >= 0,
            0 <= a < 10,
            0 <= b < 10,
    ;
    assert(m >= 0) by (nonlinear_arith)
        requires
            m == ip * 100 + a * 10 + b,
            ip >= 0,
            0 <= a,
            0 <= b,
    ;
    assert(r =~= seq![46u8, digit_byte(a), digit_byte(b)] + r.skip(3));
    assert(s =~= centi_mag_rep(m) + r.skip(3));
}

/// As `lemma_parse_unsigned_sound`, for the signed form.
proof fn lemma_parse_centi_sound(s: Seq<u8>)
    requires
        parse_centi(s) is Some,
    ensures
        ({
            let (c, rest) = parse_centi(s).unwrap();
            s == centi_rep(c) + rest
        }),
{
    if s.len() > 0 && s.first() == 45 {
        let (v, rest) = parse_centi_mag(s.drop_first()).unwrap();
        lemma_parse_centi_mag_sound(s.drop_first());
        assert(s =~= seq![45u8] + s.drop_first());
        assert(s =~= (seq![45u8] + centi_mag_rep(v)) + rest);
    } else {
        lemma_parse_centi_mag_sound(s);
    }
}

/// A successful body parse consumed exactly the canonical serialized form
/// of the reading it returned: together with
/// `lemma_parse_body_inverts_format`, parsing succeeds on the serialized
/// readings and on nothing else.
pub proof fn lemma_parse_body_sound(s: Seq<u8>)
    requires
        parse_body(s) is Some,
    ensures
        ({
            let r = parse_body(s).unwrap();
            s == json_body(r.temperature_centi as int, r.humidity_centi as int)
        }),
{
    let lead_key = ("{\"temperature\":").spec_bytes();
    let mid_key = (",\"humidity\":").spec_bytes();
    let closing = ("}").spec_bytes();
    let s1 = s.skip(lead_key.len() as int);
    let (t, r1) = parse_centi(s1).unwrap();
    lemma_parse_centi_sound(s1);
    let s2 = r1.skip(mid_key.len() as int);
    let (h, r2) = parse_centi(s2).unwrap();
    lemma_parse_centi_sound(s2);
    assert(s =~= lead_key + s1);
    assert(r1 =~= mid_key + s2);
    assert(s =~= lead_key + centi_rep(t) + mid_key + centi_rep(h) + r2);
    let r = parse_body(s).unwrap();
    assert(r.temperature_centi as int == t && r.humidity_centi as int == h);
    assert(s =~= json_body(t, h));
}

proof fn lemma_digits_val_nonneg(s: Seq<u8>)
    requires
        all_digits(s),
    ensures
        digits_val(s) >= 0,
    decreases s.len(),
{
    if s.len() > 0 {
        assert(all_digits(s.drop_last())) by {
            assert(forall|i: int| 0 <= i < s.len() - 1 ==> s.drop_last()[i] == s[i]);
        }
        lemma_digits_val_nonneg(s.drop_last());
    }
}

/// A longer digit prefix never has a smaller value.
proof fn lemma_digits_val_prefix_mono(u: Seq<u8>, j: int, k: int)
    requires
        0 <= j <= k <= u.len(),
        forall|i: int| 0 <= i < k ==> is_digit(#[trigger] u[i]),
    ensures
        0 <= digits_val(u.take(j)) <= digits_val(u.take(k)),
    decreases k - j,
{
    assert(all_digits(u.take(j)));
    lemma_digits_val_nonneg(u.take(j));
    if j < k {
        lemma_digits_val_prefix_mono(u, j, k - 1);
        assert(all_digits(u.take(k - 1)));
        lemma_digits_val_nonneg(u.take(k - 1));
        assert(u.take(k).drop_last() =~= u.take(k - 1));
        assert(digits_val(u.take(k)) == digits_val(u.take(k - 1)) * 10 + (u[k - 1] - 48));
    }
}

/// `digits_len` is the position of the first non-digit.
proof fn lemma_digits_len_of(u: Seq<u8>, k: int)
    requires
        0 <= k <= u.len(),
        forall|j: int| 0 <= j < k ==> is_digit(#[trigger] u[j]),
        k == u.len() || !is_digit(u[k]),
    ensures
        digits_len(u) == k,
    decreases k,
{
    if k == 0 {
    } else {
        assert(is_digit(u.first()));
        lemma_digits_len_of(u.drop_first(), k - 1);
    }
}

/// First index at or after `start` whose byte is not a digit (or the end).
fn scan_digits(s: &[u8], start: usize) -> (end: usize)
    requires
        start <= s@.len(),
    ensures
        start <= end <= s@.len(),
        digits_len(s@.skip(start as int)) == end - start,
        forall|j: int| start <= j < end ==> is_digit(#[trigger] s@[j]),
        end < s@.len() ==> !is_digit(s@[end as int]),
{
    let n = s.len();
    let mut i = start;
    while i < n && 48 <= s[i] && s[i] <= 57
        invariant
            start <= i <= n,
            n == s@.len(),
            forall|j: int| start <= j < i ==> is_digit(#[trigger] s@[j]),
        decreases n - i,
    {
        i += 1;
    }
    proof {
        let u = s@.skip(start as int);
        assert(forall|j: int| 0 <= j < i - start ==> u[j] == s@[start + j]);
        if i < n {
            assert(u[i - start] == s@[i as int]);
        }
        lemma_digits_len_of(u, i - start);
    }
    i
}

/// Parse a canonical unsigned decimal at `start`, refusing values whose
/// hundredths cannot fit the reading's integer type. Mirrors
/// [`parse_unsigned`]; a refusal coincides with the inputs on which the
/// whole-body parse fails its range check.
fn parse_unsigned_at(s: &[u8], start: usize) -> (r: Option<(u64, usize)>)
    requires
        start <= s@.len(),
    ensures
        match r {
            Some((v, end)) => {
                &&& parse_unsigned(s@.skip(start as int)) == Some((v as int, s@.skip(end as int)))
                &&& v <= 21474836
                &&& start <= end <= s@.len()
            },
            None => parse_unsigned(s@.skip(start as int)) is None || (parse_unsigned(
                s@.skip(start as int),
            ) matches Some(p) && p.0 > 21474836),
        },
{
    let ghost u = s@.skip(start as int);
    let end = scan_digits(s, start);
    let k = end - start;
    if k == 0 {
        return None;
    }
    if s[start] == 48 && k > 1 {
        proof {
            assert(u.first() == s@[start as int]);
        }
        return None;
    }
    proof {
        assert(u.first() == s@[start as int]);
    }
    let mut acc: u64 = 0;
    let mut j = start;
    while j < end
        invariant
            start <= j <= end <= s@.len(),
            u == s@.skip(start as int),
            digits_len(u) == end - start,
            forall|i: int| start <= i < end ==> is_digit(#[trigger] s@[i]),
            acc <= 21474836,
            acc == digits_val(u.take(j - start)),
        decreases end - j,
    {
        proof {
            assert(u.take(j - start + 1).drop_last() =~= u.take(j - start));
            assert(u.take(j - start + 1).last() == s@[j as int]);
        }
        acc = acc * 10 + (s[j] - 48) as u64;
        j += 1;
        if acc > 21474836 {
            proof {
                assert(forall|i: int| 0 <= i < end - start ==> is_digit(#[trigger] u[i]));
                lemma_digits_val_prefix_mono(u, j - start, end - start);
            }
            return None;
        }
    }
    proof {
        assert(u.take(end - start) == u.take(digits_len(u) as int));
    }
    Some((acc, end))
}

/// Parse a canonical nonnegative two-decimal-place number at `start`,
/// mirroring [`parse_centi_mag`] under the same range refusal.
fn parse_centi_mag_at(s: &[u8], start: usize) -> (r: Option<(u64, usize)>)
    requires
        start <= s@.len(),
    ensures
        match r {
            Some((m, end)) => {
                &&& parse_centi_mag(s@.skip(start as int)) == Some(
                    (m as int, s@.skip(end as int)),
                )
                &&& m <= 2147483699
                &&& start <= end <= s@.len()
            },
            None => parse_centi_mag(s@.skip(start as int)) is None || (parse_centi_mag(
                s@.skip(start as int),
            ) matches Some(p) && p.0 > 2147483699),
        },
{
    let ghost u = s@.skip(start as int);
    match parse_unsigned_at(s, start) {
        None => {
            proof {
                match parse_unsigned(u) {
                    Some(p) => {
                        let rest = p.1;
                        if rest.len() >= 3 && rest[0] == 46 && is_digit(rest[1]) && is_digit(
                            rest[2],
                        ) {
                            assert(p.0 * 100 >= 2147483700) by (nonlinear_arith)
                                requires
                                    p.0 > 21474836,
                            ;
                        }
                    },
                    None => {},
                }
            }
            None
        },
        Some((ip, e)) => {
            if s.len() - e >= 3 {
                let b0 = s[e];
                let b1 = s[e + 1];
                let b2 = s[e + 2];
                proof {
                    let rest = s@.skip(e as int);
                    assert(rest[0] == s@[e as int]);
                    assert(rest[1] == s@[e + 1]);
                    assert(rest[2] == s@[e + 2]);
                    assert(rest.skip(3) =~= s@.skip(e + 3));
                }
                if b0 == 46 && 48 <= b1 && b1 <= 57 && 48 <= b2 && b2 <= 57 {
                    Some((ip * 100 + (b1 - 48) as u64 * 10 + (b2 - 48) as u64, e + 3))
                } else {
                    None
                }
            } else {
                proof {
                    assert(s@.skip(e as int).len() < 3);
                }
                None
            }
        },
    }
}

/// Parse a canonical signed two-decimal-place number at `start`, mirroring
/// [`parse_centi`] under the same range refusal.
fn parse_centi_at(s: &[u8], start: usize) -> (r: Option<(i64, usize)>)
    requires
        start <= s@.len(),
    ensures
        match r {
            Some((c, end)) => {
                &&& parse_centi(s@.skip(start as int)) == Some((c as int, s@.skip(end as int)))
                &&& -2147483699 <= c <= 2147483699
                &&& start <= end <= s@.len()
            },
            None => parse_centi(s@.skip(start as int)) is None || (parse_centi(
                s@.skip(start as int),
            ) matches Some(p) && (p.0 > 2147483699 || p.0 < -2147483699)),
        },
{
    let ghost u = s@.skip(start as int);
    if start < s.len() && s[start] == 45 {
        proof {
            assert(u.first() == s@[start as int]);
            assert(u.drop_first() =~= s@.skip(start + 1));
        }
        match parse_centi_mag_at(s, start + 1) {
            Some((m, end)) => {
                if m > 0 {
                    Some((-(m as i64), end))
                } else {
                    None
                }
            },
            None => None,
        }
    } else {
        proof {
            if u.len() > 0 {
                assert(u.first() == s@[start as int]);
            }
        }
        match parse_centi_mag_at(s, start) {
            Some((m, end)) => Some((m as i64, end)),
            None => None,
        }
    }
}

/// Match the bytes of `lit` at `start`, yielding the position just past it.
fn match_lit(s: &[u8], start: usize, lit: &str) -> (r: Option<usize>)
    requires
        start <= s@.len(),
    ensures
        match r {
            Some(end) => {
                &&& end == start + lit.spec_bytes().len()
                &&& end <= s@.len()
                &&& starts_with(s@.skip(start as int), lit.spec_bytes())
            },
            None => !starts_with(s@.skip(start as int), lit.spec_bytes()),
        },
{
    let p = lit.as_bytes();
    let ghost u = s@.skip(start as int);
    let sn = s.len();
    if sn - start < p.len() {
        return None;
    }
    let n = p.len();
    let mut j: usize = 0;
    while j < n
        invariant
            0 <= j <= n,
            n == p@.len(),
            p@ == lit.spec_bytes(),
            sn == s@.len(),
            start + n <= sn,
            u == s@.skip(start as int),
            forall|i: int| 0 <= i < j ==> u[i] == p@[i],
        decreases n - j,
    {
        proof {
            assert(u[j as int] == s@[start + j]);
        }
        if s[start + j] != p[j] {
            proof {
                assert(u.take(n as int)[j as int] != p@[j as int]);
            }
            return None;
        }
        j += 1;
    }
    proof {
        assert(u.take(n as int) =~= p@);
    }
    Some(start + n)
}

/// Parse a publish body. The result is exactly [`parse_body`] of the input:
/// `Some` precisely on the canonical serialized form of an in-range reading,
/// and then the reading itself.
#[verifier::rlimit(100)]
pub fn parse_reading(s: &[u8]) -> (r: Option<EnvironmentReading>)
    ensures
        r == parse_body(s@),
{
    let ghost lead_key = ("{\"temperature\":").spec_bytes();
    let ghost mid_key = (",\"humidity\":").spec_bytes();
    let ghost closing = ("}").spec_bytes();
    proof {
        assert(s@.skip(0) =~= s@);
    }
    let e1 = match match_lit(s, 0, "{\"temperature\":") {
        Some(e) => e,
        None => {
            return None;
        },
    };
    let ghost r1 = s@.skip(lead_key.len() as int);
    proof {
        assert(s@.skip(e1 as int) == r1);
    }
    let (t, e2) = match parse_centi_at(s, e1) {
        Some(x) => x,
        None => {
            proof {
                assert(parse_body(s@) is None);
            }
            return None;
        },
    };
    let ghost r1rest = s@.skip(e2 as int);
    proof {
        assert(parse_centi(r1) == Some((t as int, r1rest)));
    }
    let e3 = match match_lit(s, e2, ",\"humidity\":") {
        Some(e) => e,
        None => {
            proof {
                assert(!starts_with(r1rest, mid_key));
                assert(parse_body(s@) is None);
            }
            return None;
        },
    };
    proof {
        assert(r1rest.skip(mid_key.len() as int) =~= s@.skip(e3 as int));
    }
    let (h, e4) = match parse_centi_at(s, e3) {
        Some(x) => x,
        None => {
            proof {
                assert(parse_body(s@) is None);
            }
            return None;
        },
    };
    let ghost r2 = s@.skip(e4 as int);
    proof {
        assert(parse_centi(r1rest.skip(mid_key.len() as int)) == Some((h as int, r2)));
    }
    let e5 = match match_lit(s, e4, "}") {
        Some(e) => e,
        None => {
            proof {
                if r2 == closing {
                    assert(r2.take(closing.len() as int) =~= closing);
                }
                assert(r2 != closing);
                assert(parse_body(s@) is None);
            }
            return None;
        },
    };
    if e5 != s.len() {
        proof {
            assert(r2.len() != closing.len());
            assert(parse_body(s@) is None);
        }
        return None;
    }
    proof {
        assert(r2.len() == closing.len());
        assert(r2 =~= r2.take(closing.len() as int));
        assert(r2 == closing);
    }
    if -2147483648 <= t && t <= 2147483647 && -2147483648 <= h && h <= 2147483647 {
        Some(EnvironmentReading { temperature_centi: t as i32, humidity_centi: h as i32 })
    } else {
        None
    }
}

/// Append the UTF-8 bytes of `s` to `out`.
pub fn push_str_bytes(out: &mut Vec<u8>, s: &str)
    ensures
        final(out)@ == old(out)@ + s.spec_bytes(),
{
    let bytes = s.as_bytes();
    let n = bytes.len();
    let mut i: usize = 0;
    while i < n
        invariant
            i <= n,
            n == bytes@.len(),
            bytes@ == s.spec_bytes(),
            out@ == old(out)@ + bytes@.take(i as int),
        decreases n - i,
    {
        out.push(bytes[i]);
        proof {
            assert(bytes@.take(i + 1) =~= bytes@.take(i as int).push(bytes@[i as int]));
        }
        i += 1;
    }
    proof {
        assert(bytes@.take(n as int) =~= bytes@);
    }
}

/// Append the canonical decimal digits of `n`.
pub fn push_u64_dec(out: &mut Vec<u8>, n: u64)
    ensures
        final(out)@ == old(out)@ + dec_rep(n as int),
    decreases n,
{
    if n >= 10 {
        push_u64_dec(out, n / 10);
        out.push(48 + (n % 10) as u8);
        proof {
            assert(out@ =~= old(out)@ + dec_rep(n as int));
        }
    } else {
        out.push(48 + n as u8);
        proof {
            assert(out@ =~= old(out)@ + dec_rep(n as int));
        }
    }
}

/// Append the two-decimal-place representation of `centi` hundredths.
pub fn push_centi(out: &mut Vec<u8>, centi: i32)
    ensures
        final(out)@ == old(out)@ + centi_rep(centi as int),
{
    let m: u64 = if centi < 0 {
        out.push(45);
        (-(centi as i64)) as u64
    } else {
        centi as u64
    };
    push_u64_dec(out, m / 100);
    out.push(46);
    out.push(48 + ((m / 10) % 10) as u8);
    out.push(48 + (m % 10) as u8);
    proof {
        assert(out@ =~= old(out)@ + centi_rep(centi as int));
    }
}

/// Serialize a reading as the publish body. The result is exactly
/// [`json_body`] of its two values; its length is the body's byte length.
pub fn format_body(reading: &EnvironmentReading) -> (body: Vec<u8>)
    ensures
        body@ == json_body(reading.temperature_centi as int, reading.humidity_centi as int),
{
    let mut body: Vec<u8> = Vec::new();
    push_str_bytes(&mut body, "{\"temperature\":");
    push_centi(&mut body, reading.temperature_centi);
    push_str_bytes(&mut body, ",\"humidity\":");
    push_centi(&mut body, reading.humidity_centi);
    push_str_bytes(&mut body, "}");
    proof {
        assert(body@ =~= json_body(
            reading.temperature_centi as int,
            reading.humidity_centi as int,
        ));
    }
    body
}

} // verus!
