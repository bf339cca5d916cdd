//! Decimal digit strings: the textual form of every identifier in the event
//! model (IMSI, MSISDN, IMEI, MCCMNC) and of timestamps.
//!
//! The specification-level meaning of a digit string is `digits_value`; the
//! canonical text of a number is `dec_digits` (optionally left-padded with
//! zeros, `padded_decimal`). Parsing and formatting are proved to be exact
//! inverses on those forms.

use vstd::prelude::*;

verus! {

/// A decimal digit character.
pub open spec fn is_digit_char(c: char) -> bool {
    '0' as int <= c as int <= '9' as int
}

/// The numeric value of a digit character.
pub open spec fn digit_val(c: char) -> nat
    recommends
        is_digit_char(c),
{
    (c as int - '0' as int) as nat
}

/// Every character of the sequence is a decimal digit.
pub open spec fn all_digits(s: Seq<char>) -> bool {
    forall|i: int| 0 <= i < s.len() ==> is_digit_char(#[trigger] s[i])
}

/// The number denoted by a digit sequence, most significant digit first.
pub open spec fn digits_value(s: Seq<char>) -> nat
    decreases s.len(),
{
    if s.len() == 0 {
        0
    } else {
        digits_value(s.drop_last()) * 10 + digit_val(s.last())
    }
}

/// The digit character for a value below ten.
pub open spec fn digit_char(d: nat) -> char
    recommends
        d < 10,
{
    if d == 0 { '0' }
    else if d == 1 { '1' }
    else if d == 2 { '2' }
    else if d == 3 { '3' }
    else if d == 4 { '4' }
    else if d == 5 { '5' }
    else if d == 6 { '6' }
    else if d == 7 { '7' }
    else if d == 8 { '8' }
    else { '9' }
}

/// The canonical (no leading zero, except for zero itself) decimal text of a
/// number.
pub open spec fn dec_digits(n: nat) -> Seq<char>
    decreases n,
{
    if n < 10 {
        seq![digit_char(n)]
    } else {
        dec_digits(n / 10).push(digit_char(n % 10))
    }
}

/// A run of zero characters.
pub open spec fn zeros(k: nat) -> Seq<char> {
    Seq::new(k, |i: int| '0')
}

/// The decimal text of `n`, left-padded with zeros to at least `width`
/// characters.
pub open spec fn padded_decimal(n: nat, width: nat) -> Seq<char> {
    let d = dec_digits(n);
    if d.len() >= width {
        d
    } else {
        zeros((width - d.len()) as nat) + d
    }
}

/// Ten to the power `k`.
pub open spec fn pow10(k: nat) -> nat
    decreases k,
{
    if k == 0 {
        1
    } else {
        10 * pow10((k - 1) as nat)
    }
}

/// The numeric values of the powers of ten the identifier widths use.
pub proof fn lemma_pow10_values()
    ensures
        pow10(0) == 1,
        pow10(7) == 10_000_000,
        pow10(10) == 10_000_000_000,
        pow10(14) == 100_000_000_000_000,
        pow10(15) == 1_000_000_000_000_000,
{
    assert(pow10(1) == 10 * pow10(0));
    assert(pow10(2) == 10 * pow10(1));
    assert(pow10(3) == 10 * pow10(2));
    assert(pow10(4) == 10 * pow10(3));
    assert(pow10(5) == 10 * pow10(4));
    assert(pow10(6) == 10 * pow10(5));
    assert(pow10(7) == 10 * pow10(6));
    assert(pow10(8) == 10 * pow10(7));
    assert(pow10(9) == 10 * pow10(8));
    assert(pow10(10) == 10 * pow10(9));
    assert(pow10(11) == 10 * pow10(10));
    assert(pow10(12) == 10 * pow10(11));
    assert(pow10(13) == 10 * pow10(12));
    assert(pow10(14) == 10 * pow10(13));
    assert(pow10(15) == 10 * pow10(14));
}

/// A number below ten to the `k` has at most `k` digits.
pub proof fn lemma_dec_digits_len_le(n: nat, k: nat)
    requires
        k >= 1,
        n < pow10(k),
    ensures
        dec_digits(n).len() <= k,
    decreases k,
{
    if n < 10 {
    } else {
        assert(pow10(k) == 10 * pow10((k - 1) as nat));
        assert(k >= 2) by {
            if k == 1 {
                assert(pow10(1) == 10 * pow10(0));
            }
        }
        assert(n / 10 < pow10((k - 1) as nat)) by (nonlinear_arith)
            requires
                n < pow10(k),
                pow10(k) == 10 * pow10((k - 1) as nat),
                n >= 10,
        ;
        lemma_dec_digits_len_le(n / 10, (k - 1) as nat);
    }
}

/// A number at least ten to the `k - 1` has at least `k` digits.
pub proof fn lemma_dec_digits_len_ge(n: nat, k: nat)
    requires
        k >= 1,
        n >= pow10((k - 1) as nat),
    ensures
        dec_digits(n).len() >= k,
    decreases k,
{
    if k > 1 {
        assert(pow10((k - 1) as nat) == 10 * pow10((k - 2) as nat));
        assert(pow10((k - 2) as nat) >= 1) by {
            lemma_pow10_pos((k - 2) as nat);
        }
        assert(n >= 10);
        assert(n / 10 >= pow10((k - 2) as nat)) by (nonlinear_arith)
            requires
                n >= pow10((k - 1) as nat),
                pow10((k - 1) as nat) == 10 * pow10((k - 2) as nat),
        ;
        lemma_dec_digits_len_ge(n / 10, (k - 1) as nat);
    }
}

/// Powers of ten are positive.
pub proof fn lemma_pow10_pos(k: nat)
    ensures
        pow10(k) >= 1,
    decreases k,
{
    if k > 0 {
        lemma_pow10_pos((k - 1) as nat);
    }
}

/// The value of a digit prefix never exceeds the value of the whole string.
pub proof fn lemma_digits_value_prefix_mono(s: Seq<char>, i: int)
    requires
        0 <= i <= s.len(),
    ensures
        digits_value(s.take(i)) <= digits_value(s),
    decreases s.len() - i,
{
    if i == s.len() {
        assert(s.take(i) =~= s);
    } else {
        assert(s.take(i + 1).drop_last() =~= s.take(i));
        assert(digits_value(s.take(i + 1))
            == digits_value(s.take(i)) * 10 + digit_val(s.take(i + 1).last()));
        assert(digits_value(s.take(i)) <= digits_value(s.take(i)) * 10) by (nonlinear_arith);
        lemma_digits_value_prefix_mono(s, i + 1);
    }
}

/// A run of zeros denotes zero.
pub proof fn lemma_zeros_value(k: nat)
    ensures
        digits_value(zeros(k)) == 0,
    decreases k,
{
    if k > 0 {
        assert(zeros(k).drop_last() =~= zeros((k - 1) as nat));
        assert(zeros(k).last() == '0');
        lemma_zeros_value((k - 1) as nat);
    }
}

/// Leading zeros do not change the denoted value.
pub proof fn lemma_zeros_prepend_value(k: nat, s: Seq<char>)
    ensures
        digits_value(zeros(k) + s) == digits_value(s),
    decreases s.len(),
{
    if s.len() == 0 {
        assert(zeros(k) + s =~= zeros(k));
        lemma_zeros_value(k);
    } else {
        assert((zeros(k) + s).drop_last() =~= zeros(k) + s.drop_last());
        assert((zeros(k) + s).last() == s.last());
        lemma_zeros_prepend_value(k, s.drop_last());
    }
}

/// The canonical decimal text denotes the number it was made from, consists
/// of digits only, and is never empty.
pub proof fn lemma_dec_digits_value(n: nat)
    ensures
        digits_value(dec_digits(n)) == n,
        all_digits(dec_digits(n)),
        dec_digits(n).len() >= 1,
    decreases n,
{
    if n < 10 {
        assert(dec_digits(n) =~= seq![digit_char(n)]);
        assert(dec_digits(n).drop_last() =~= Seq::<char>::empty());
        assert(digits_value(Seq::<char>::empty()) == 0);
        assert(digit_val(digit_char(n)) == n);
        assert(is_digit_char(digit_char(n)));
    } else {
        lemma_dec_digits_value(n / 10);
        assert(dec_digits(n).drop_last() =~= dec_digits(n / 10));
        assert(dec_digits(n).last() == digit_char(n % 10));
        assert(digit_val(digit_char(n % 10)) == n % 10);
        assert((n / 10) * 10 + n % 10 == n) by (nonlinear_arith);
        assert forall|i: int| 0 <= i < dec_digits(n).len()
            implies is_digit_char(#[trigger] dec_digits(n)[i]) by {
            if i < dec_digits(n).len() - 1 {
                assert(dec_digits(n)[i] == dec_digits(n / 10)[i]);
            } else {
                assert(dec_digits(n)[i] == digit_char(n % 10));
                assert(is_digit_char(digit_char(n % 10)));
            }
        }
    }
}

/// Padding preserves the value, the digits-only property, and reaches the
/// requested width: parsing a padded rendering gives the number back.
pub proof fn lemma_decimal_round_trip(n: nat, width: nat)
    ensures
        digits_value(padded_decimal(n, width)) == n,
        all_digits(padded_decimal(n, width)),
        padded_decimal(n, width).len() >= width,
        padded_decimal(n, width).len() >= 1,
{
    lemma_dec_digits_value(n);
    let d = dec_digits(n);
    if d.len() < width {
        lemma_zeros_prepend_value((width - d.len()) as nat, d);
        assert forall|i: int| 0 <= i < padded_decimal(n, width).len()
            implies is_digit_char(#[trigger] padded_decimal(n, width)[i]) by {
            if i < width - d.len() {
                assert(padded_decimal(n, width)[i] == '0');
            } else {
                assert(padded_decimal(n, width)[i] == d[i - (width - d.len())]);
            }
        }
    }
}

/// The canonical text of a signed number: a minus sign before the digits of
/// the magnitude when negative.
pub open spec fn i64_text(n: int) -> Seq<char> {
    if n < 0 {
        seq!['-'] + dec_digits((-n) as nat)
    } else {
        dec_digits(n as nat)
    }
}

/// `s` is a decimal text (optionally with a leading minus sign) whose value
/// fits in an `i64`.
pub open spec fn is_i64_text(s: Seq<char>) -> bool {
    if s.len() > 0 && s[0] == '-' {
        let d = s.skip(1);
        d.len() > 0 && all_digits(d) && digits_value(d) <= i64::MAX as nat + 1
    } else {
        s.len() > 0 && all_digits(s) && digits_value(s) <= i64::MAX as nat
    }
}

/// The value denoted by a signed decimal text.
pub open spec fn i64_text_value(s: Seq<char>) -> int
    recommends
        is_i64_text(s),
{
    if s.len() > 0 && s[0] == '-' {
        -(digits_value(s.skip(1)) as int)
    } else {
        digits_value(s) as int
    }
}

/// The digit character for a value below ten, as executable code.
pub fn digit_to_char(d: u64) -> (c: char)
    requires
        d < 10,
    ensures
        c == digit_char(d as nat),
{
    let b: u8 = 48 + (d as u8);
    b as char
}

/// Relies on `String::push`: appends one character to the string.
#[verifier::external_body]
pub fn push_char(s: &mut String, c: char)
    ensures
        final(s)@ == old(s)@.push(c),
{
    s.push(c);
}

/// Parses a string of decimal digits as a `u64`.
///
/// Returns `Some` exactly when the string is non-empty, consists of digits
/// only, and its value fits in a `u64`.
pub fn parse_u64_digits(s: &str) -> (r: Option<u64>)
    ensures
        match r {
            Some(v) => s@.len() > 0 && all_digits(s@) && digits_value(s@) <= u64::MAX
                && v == digits_value(s@),
            None => s@.len() == 0 || !all_digits(s@) || digits_value(s@) > u64::MAX,
        },
{
    let n = s.unicode_len();
    if n == 0 {
        return None;
    }
    let mut acc: u64 = 0;
    let mut i: usize = 0;
    while i < n
        invariant
            0 <= i <= n,
            n == s@.len(),
            forall|j: int| 0 <= j < i ==> is_digit_char(#[trigger] s@[j]),
            acc == digits_value(s@.take(i as int)),
        decreases n - i,
    {
        let c = s.get_char(i);
        let d = c as u32;
        if d < 48 || d > 57 {
            assert(!is_digit_char(s@[i as int]));
            return None;
        }
        let dv = (d - 48) as u64;
        proof {
            assert(s@.take(i + 1).drop_last() =~= s@.take(i as int));
            assert(s@.take(i + 1).last() == s@[i as int]);
            assert(digit_val(s@[i as int]) == dv);
        }
        let acc10 = match acc.checked_mul(10) {
            Some(x) => x,
            None => {
                proof {
                    assert(digits_value(s@.take(i + 1))
                        == digits_value(s@.take(i as int)) * 10 + digit_val(s@[i as int]));
                    lemma_digits_value_prefix_mono(s@, i + 1);
                }
                return None;
            },
        };
        acc = match acc10.checked_add(dv) {
            Some(x) => x,
            None => {
                proof {
                    assert(digits_value(s@.take(i + 1))
                        == digits_value(s@.take(i as int)) * 10 + digit_val(s@[i as int]));
                    lemma_digits_value_prefix_mono(s@, i + 1);
                }
                return None;
            },
        };
        i = i + 1;
    }
    assert(s@.take(n as int) =~= s@);
    Some(acc)
}

/// Renders `n` in decimal, left-padded with zeros to at least `width`
/// characters.
pub fn u64_to_padded_string(n: u64, width: usize) -> (r: String)
    ensures
        r@ == padded_decimal(n as nat, width as nat),
{
    let mut digits: Vec<char> = Vec::new();
    let mut m = n;
    while m > 0 || digits.len() == 0
        invariant
            m > 0 || digits@.len() > 0 ==> dec_digits(n as nat) =~= (if m > 0 {
                dec_digits(m as nat)
            } else {
                Seq::<char>::empty()
            }) + digits@.reverse(),
            m == 0 && digits@.len() == 0 ==> n == 0,
            m <= n,
        decreases m, (if digits@.len() == 0 { 1int } else { 0int }),
    {
        if m == 0 {
            // n itself is zero: its text is the single digit zero.
            digits.push('0');
            assert(dec_digits(0) =~= seq!['0']);
            assert(digits@.reverse() =~= seq!['0']);
        } else {
            let d = m % 10;
            let ghost old_digits = digits@;
            digits.push(digit_to_char(d));
            proof {
                assert(digits@.reverse() =~= seq![digit_char((m % 10) as nat)]
                    + old_digits.reverse());
                if m >= 10 {
                    assert(dec_digits(m as nat) =~= dec_digits((m as nat) / 10).push(
                        digit_char((m as nat) % 10)));
                    assert(dec_digits((m as nat) / 10).push(digit_char((m as nat) % 10))
                        + old_digits.reverse() =~= dec_digits((m as nat) / 10)
                        + (seq![digit_char((m as nat) % 10)] + old_digits.reverse()));
                } else {
                    assert(dec_digits(m as nat) =~= seq![digit_char(m as nat)]);
                }
            }
            m = m / 10;
        }
    }
    proof {
        assert(Seq::<char>::empty() + digits@.reverse() =~= digits@.reverse());
        assert(dec_digits(n as nat) =~= digits@.reverse());
    }

    let k = digits.len();
    let mut r = String::new();
    let mut pad: usize = 0;
    let pad_total: usize = if width > k {
        width - k
    } else {
        0
    };
    while pad < pad_total
        invariant
            pad <= pad_total,
            r@ =~= zeros(pad as nat),
        decreases pad_total - pad,
    {
        push_char(&mut r, '0');
        assert(r@ =~= zeros((pad + 1) as nat));
        pad = pad + 1;
    }
    let mut j: usize = 0;
    while j < k
        invariant
            j <= k,
            k == digits@.len(),
            dec_digits(n as nat) =~= digits@.reverse(),
            r@ =~= zeros(pad_total as nat) + dec_digits(n as nat).take(j as int),
        decreases k - j,
    {
        let c = digits[k - 1 - j];
        assert(c == digits@.reverse()[j as int]);
        push_char(&mut r, c);
        assert(r@ =~= zeros(pad_total as nat) + dec_digits(n as nat).take(j + 1));
        j = j + 1;
    }
    proof {
        assert(dec_digits(n as nat).take(k as int) =~= dec_digits(n as nat));
        lemma_dec_digits_value(n as nat);
        if pad_total == 0 {
            assert(r@ =~= dec_digits(n as nat));
            assert(dec_digits(n as nat).len() >= width);
        } else {
            assert(r@ =~= padded_decimal(n as nat, width as nat));
        }
    }
    r
}

/// Parses a signed decimal text as an `i64`.
///
/// Returns `Some` exactly when the text (after an optional leading minus
/// sign) is a non-empty digit string whose signed value fits in an `i64`.
pub fn parse_i64_text(s: &str) -> (r: Option<i64>)
    ensures
        match r {
            Some(v) => is_i64_text(s@) && v as int == i64_text_value(s@),
            None => !is_i64_text(s@),
        },
{
    let n = s.unicode_len();
    if n == 0 {
        return None;
    }
    let neg = s.get_char(0) as u32 == 45;
    proof {
        if neg {
            assert(s@[0] == '-');
        } else {
            assert(s@[0] != '-');
        }
    }
    if neg {
        let rest = s.substring_char(1, n);
        assert(rest@ =~= s@.skip(1));
        match parse_u64_digits(rest) {
            None => None,
            Some(v) => {
                if v > 9223372036854775808u64 {
                    None
                } else if v == 9223372036854775808u64 {
                    Some(i64::MIN)
                } else {
                    Some(-(v as i64))
                }
            },
        }
    } else {
        match parse_u64_digits(s) {
            None => None,
            Some(v) => {
                if v > i64::MAX as u64 {
                    None
                } else {
                    Some(v as i64)
                }
            },
        }
    }
}

/// Renders a signed number as decimal text, with a minus sign when negative.
pub fn i64_to_string(n: i64) -> (r: String)
    ensures
        r@ == i64_text(n as int),
{
    if n >= 0 {
        let r = u64_to_padded_string(n as u64, 0);
        proof {
            lemma_dec_digits_value(n as nat);
            assert(padded_decimal(n as nat, 0) =~= dec_digits(n as nat));
        }
        r
    } else {
        let m: u64 = if n == i64::MIN {
            9223372036854775808u64
        } else {
            (-n) as u64
        };
        assert(m as int == -(n as int));
        let digits = u64_to_padded_string(m, 0);
        let mut r = String::new();
        push_char(&mut r, '-');
        proof {
            lemma_dec_digits_value(m as nat);
            assert(padded_decimal(m as nat, 0) =~= dec_digits(m as nat));
        }
        let ghost pre = r@;
        append_str(&mut r, digits.as_str());
        proof {
            assert(pre =~= seq!['-']);
            assert(r@ =~= seq!['-'] + dec_digits((-(n as int)) as nat));
        }
        r
    }
}

/// Relies on `String::push_str` (through vstd's `+=` specification shape):
/// appends the characters of `t` to `s`.
#[verifier::external_body]
pub fn append_str(s: &mut String, t: &str)
    ensures
        final(s)@ == old(s)@ + t@,
{
    s.push_str(t);
}

} // verus!
