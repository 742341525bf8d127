//! Exact decimal amounts. Stock quantities and prices are held in thousandths
//! (`milli`), the precision of the stored `NUMERIC(_, 3)` columns; decimal text
//! is parsed with `bigdecimal` and converted here without rounding.
use bigdecimal::BigDecimal;
use std::str::FromStr;
use vstd::prelude::*;
use vstd::string::*;

verus! {

/// What `BigDecimal::from_str(text)` gives, split as its integer digits (the
/// `Display` of its `BigInt`) and its scale; `None` when the text does not parse.
pub uninterp spec fn decimal_parse(text: Seq<char>) -> Option<(Seq<char>, i64)>;

pub open spec fn is_digit(c: char) -> bool {
    '0' <= c && c <= '9'
}

pub open spec fn all_digits(s: Seq<char>) -> bool {
    forall|i: int| 0 <= i < s.len() ==> is_digit(#[trigger] s[i])
}

/// Text of an integer in base ten: an optional minus sign, then at least one digit.
pub open spec fn is_integer_text(s: Seq<char>) -> bool {
    if s.len() > 0 && s[0] == '-' {
        s.len() > 1 && all_digits(s.drop_first())
    } else {
        s.len() > 0 && all_digits(s)
    }
}

/// Parses `text` as a decimal number with `BigDecimal::from_str`.
#[verifier::external_body]
fn parse_decimal(text: &str) -> (r: Option<(String, i64)>)
    ensures
        match r {
            Some((digits, scale)) => decimal_parse(text@) == Some((digits@, scale))
                && is_integer_text(digits@),
            None => decimal_parse(text@) is None,
        },
{
    match BigDecimal::from_str(text) {
        Ok(d) => {
            let (int_val, scale) = d.into_bigint_and_exponent();
            Some((int_val.to_string(), scale))
        },
        Err(_) => None,
    }
}

pub open spec fn digit_value(c: char) -> nat {
    ((c as u32) - ('0' as u32)) as nat
}

/// The value of a string of decimal digits.
pub open spec fn digits_value(s: Seq<char>) -> nat
    decreases s.len(),
{
    if s.len() == 0 {
        0
    } else {
        digits_value(s.drop_last()) * 10 + digit_value(s.last())
    }
}

pub open spec fn pow10(k: nat) -> nat
    decreases k,
{
    if k == 0 {
        1
    } else {
        10 * pow10((k - 1) as nat)
    }
}

/// A decimal text as far as the stock rules read it.
#[derive(PartialEq, Eq, Structural, Clone, Copy, Debug)]
pub enum DecimalReading {
    /// The text is not a decimal number.
    Malformed,
    /// The value has more than three decimal places.
    Fractional { negative: bool },
    /// At most three decimal places, but the value in thousandths exceeds `i64`.
    Huge { negative: bool },
    /// The exact value in thousandths.
    Milli(i64),
}

/// Magnitude in thousandths of `digits * 10^-scale`, if it is a whole number.
pub open spec fn scaled_milli(n: nat, scale: int) -> Option<nat> {
    if scale <= 3 {
        Some(n * pow10((3 - scale) as nat))
    } else if n % pow10((scale - 3) as nat) == 0 {
        Some(n / pow10((scale - 3) as nat))
    } else {
        None
    }
}

/// How a parsed pair of integer digits and scale reads.
pub open spec fn reading_of_parts(digits: Seq<char>, scale: int) -> DecimalReading {
    let negative = digits.len() > 0 && digits[0] == '-';
    let mag = if negative {
        digits.drop_first()
    } else {
        digits
    };
    match scaled_milli(digits_value(mag), scale) {
        None => DecimalReading::Fractional { negative },
        Some(m) => if m > i64::MAX {
            DecimalReading::Huge { negative }
        } else {
            DecimalReading::Milli(if negative {
                -m
            } else {
                m as int
            } as i64)
        },
    }
}

/// How `text` reads as a decimal amount.
pub open spec fn decimal_reading(text: Seq<char>) -> DecimalReading {
    match decimal_parse(text) {
        None => DecimalReading::Malformed,
        Some((digits, scale)) => reading_of_parts(digits, scale as int),
    }
}

pub proof fn lemma_pow10_pos(k: nat)
    ensures
        pow10(k) >= 1,
    decreases k,
{
    if k > 0 {
        lemma_pow10_pos((k - 1) as nat);
    }
}

pub proof fn lemma_pow10_mono(a: nat, b: nat)
    requires
        a <= b,
    ensures
        pow10(a) <= pow10(b),
    decreases b,
{
    if a < b {
        lemma_pow10_mono(a, (b - 1) as nat);
        lemma_pow10_pos((b - 1) as nat);
    }
}

pub proof fn lemma_digits_bound(s: Seq<char>)
    requires
        all_digits(s),
    ensures
        digits_value(s) < pow10(s.len()),
    decreases s.len(),
{
    if s.len() > 0 {
        let t = s.drop_last();
        assert(all_digits(t)) by {
            assert forall|i: int| 0 <= i < t.len() implies is_digit(#[trigger] t[i]) by {
                assert(t[i] == s[i]);
            }
        }
        lemma_digits_bound(t);
        assert(is_digit(s[s.len() - 1]));
        assert(digit_value(s.last()) <= 9);
        let v = digits_value(t);
        let p = pow10(t.len());
        assert(pow10(s.len()) == 10 * p);
        assert(v * 10 + digit_value(s.last()) < 10 * p) by (nonlinear_arith)
            requires
                v < p,
                digit_value(s.last()) <= 9,
        ;
    }
}

/// Splitting a digit string at `j`: the head shifted by the length of the tail, plus the tail.
pub proof fn lemma_digits_split(s: Seq<char>, j: int)
    requires
        0 <= j <= s.len(),
    ensures
        digits_value(s) == digits_value(s.take(j)) * pow10((s.len() - j) as nat)
            + digits_value(s.skip(j)),
    decreases s.len() - j,
{
    if j == s.len() {
        assert(s.take(j) =~= s);
        assert(s.skip(j).len() == 0);
        assert(digits_value(s.skip(j)) == 0);
        assert(pow10(0) == 1);
        assert(digits_value(s) * 1 == digits_value(s));
    } else {
        let t = s.drop_last();
        lemma_digits_split(t, j);
        assert(t.take(j) =~= s.take(j));
        let tail = s.skip(j);
        assert(tail.drop_last() =~= t.skip(j));
        assert(tail.last() == s.last());
        let a = digits_value(s.take(j));
        let k = (t.len() - j) as nat;
        let b = digits_value(t.skip(j));
        assert(digits_value(s) == digits_value(t) * 10 + digit_value(s.last()));
        assert(digits_value(tail) == digits_value(tail.drop_last()) * 10 + digit_value(tail.last()));
        assert(pow10((s.len() - j) as nat) == 10 * pow10(k));
        assert((a * pow10(k) + b) * 10 + digit_value(s.last()) == a * (10 * pow10(k)) + (b * 10
            + digit_value(s.last()))) by (nonlinear_arith);
    }
}

pub proof fn lemma_zero_digits(s: Seq<char>)
    requires
        forall|i: int| 0 <= i < s.len() ==> #[trigger] s[i] == '0',
    ensures
        digits_value(s) == 0,
    decreases s.len(),
{
    if s.len() > 0 {
        lemma_zero_digits(s.drop_last());
    }
}

pub proof fn lemma_nonzero_digit(s: Seq<char>, i: int)
    requires
        all_digits(s),
        0 <= i < s.len(),
        s[i] != '0',
    ensures
        digits_value(s) >= pow10((s.len() - 1 - i) as nat),
    decreases s.len(),
{
    let t = s.drop_last();
    assert(all_digits(t)) by {
        assert forall|k: int| 0 <= k < t.len() implies is_digit(#[trigger] t[k]) by {
            assert(t[k] == s[k]);
        }
    }
    if i == s.len() - 1 {
        assert(digit_value(s.last()) >= 1);
    } else {
        assert(t[i] == s[i]);
        lemma_nonzero_digit(t, i);
        let v = digits_value(t);
        assert(pow10((s.len() - 1 - i) as nat) == 10 * pow10((t.len() - 1 - i) as nat));
        assert(v * 10 >= 10 * pow10((t.len() - 1 - i) as nat)) by (nonlinear_arith)
            requires
                v >= pow10((t.len() - 1 - i) as nat),
        ;
    }
}

/// `k` trailing characters of `s` are all `'0'`.
pub open spec fn zero_tail(s: Seq<char>, k: int) -> bool {
    forall|i: int| s.len() - k <= i < s.len() ==> #[trigger] s[i] == '0'
}

pub proof fn lemma_drop_zero_tail(s: Seq<char>, k: nat)
    requires
        all_digits(s),
        k <= s.len(),
        zero_tail(s, k as int),
    ensures
        digits_value(s) % pow10(k) == 0,
        digits_value(s) / pow10(k) == digits_value(s.take(s.len() - k)),
{
    let j = s.len() - k;
    lemma_digits_split(s, j);
    let tail = s.skip(j);
    assert forall|i: int| 0 <= i < tail.len() implies #[trigger] tail[i] == '0' by {
        assert(tail[i] == s[i + j]);
    }
    lemma_zero_digits(tail);
    lemma_pow10_pos(k);
    let a = digits_value(s.take(j));
    assert(tail.len() == k);
    vstd::arithmetic::div_mod::lemma_fundamental_div_mod_converse(
        (a * pow10(k)) as int,
        pow10(k) as int,
        a as int,
        0,
    );
}

pub proof fn lemma_nonzero_tail(s: Seq<char>, k: nat, i: int)
    requires
        all_digits(s),
        k <= s.len(),
        s.len() - k <= i < s.len(),
        s[i] != '0',
    ensures
        digits_value(s) % pow10(k) != 0,
{
    let j = s.len() - k;
    lemma_digits_split(s, j);
    let tail = s.skip(j);
    assert(all_digits(tail)) by {
        assert forall|x: int| 0 <= x < tail.len() implies is_digit(#[trigger] tail[x]) by {
            assert(tail[x] == s[x + j]);
        }
    }
    assert(tail[i - j] == s[i]);
    lemma_nonzero_digit(tail, i - j);
    lemma_pow10_pos((tail.len() - 1 - (i - j)) as nat);
    lemma_digits_bound(tail);
    let a = digits_value(s.take(j));
    let b = digits_value(tail);
    lemma_pow10_pos(k);
    vstd::arithmetic::div_mod::lemma_fundamental_div_mod_converse(
        (a * pow10(k) + b) as int,
        pow10(k) as int,
        a as int,
        b as int,
    );
}

pub proof fn lemma_nonzero_short(s: Seq<char>, k: nat, i: int)
    requires
        all_digits(s),
        k > s.len(),
        0 <= i < s.len(),
        s[i] != '0',
    ensures
        digits_value(s) % pow10(k) != 0,
{
    lemma_nonzero_digit(s, i);
    lemma_pow10_pos((s.len() - 1 - i) as nat);
    lemma_digits_bound(s);
    lemma_pow10_mono(s.len(), k);
    let v = digits_value(s);
    vstd::arithmetic::div_mod::lemma_small_mod(v, pow10(k));
}

/// Digits `s[from..to]` accumulated as an integer, if it fits in `i64`.
fn accumulate_digits(s: &str, from: usize, to: usize) -> (r: Option<i64>)
    requires
        from <= to <= s@.len(),
        all_digits(s@.subrange(from as int, to as int)),
    ensures
        match r {
            Some(v) => v == digits_value(s@.subrange(from as int, to as int)),
            None => digits_value(s@.subrange(from as int, to as int)) > i64::MAX,
        },
{
    let mut acc: i64 = 0;
    let mut i: usize = from;
    while i < to
        invariant
            from <= i <= to <= s@.len(),
            all_digits(s@.subrange(from as int, to as int)),
            acc == digits_value(s@.subrange(from as int, i as int)),
        decreases to - i,
    {
        let c = s.get_char(i);
        proof {
            assert(s@.subrange(from as int, to as int)[i - from] == c);
        }
        let d: i64 = ((c as u32) - ('0' as u32)) as i64;
        let ghost next = s@.subrange(from as int, i + 1);
        proof {
            assert(next.drop_last() =~= s@.subrange(from as int, i as int));
            assert(next.last() == c);
        }
        if acc > (i64::MAX - d) / 10 {
            proof {
                assert(digits_value(next) > i64::MAX);
                lemma_digits_split(s@.subrange(from as int, to as int), i + 1 - from);
                assert(s@.subrange(from as int, to as int).take(i + 1 - from) =~= next);
                let rest = s@.subrange(from as int, to as int).skip(i + 1 - from);
                lemma_pow10_pos(rest.len());
                let a = digits_value(next);
                let p = pow10(rest.len());
                assert(a * p >= a) by (nonlinear_arith)
                    requires
                        p >= 1,
                ;
            }
            return None;
        }
        acc = acc * 10 + d;
        i = i + 1;
    }
    Some(acc)
}

/// `value * 10^k` if it fits in `i64`.
fn scale_up(value: i64, k: u32) -> (r: Option<i64>)
    requires
        value >= 0,
    ensures
        match r {
            Some(v) => v == value * pow10(k as nat),
            None => value * pow10(k as nat) > i64::MAX,
        },
{
    let mut acc = value;
    let mut i: u32 = 0;
    assert(pow10(0) == 1);
    assert(value * pow10(0) == value);
    while i < k
        invariant
            i <= k,
            value >= 0,
            acc == value * pow10(i as nat),
        decreases k - i,
    {
        proof {
            assert(pow10((i + 1) as nat) == 10 * pow10(i as nat));
            assert(value * (10 * pow10(i as nat)) == 10 * (value * pow10(i as nat))) by (nonlinear_arith);
        }
        if acc > i64::MAX / 10 {
            proof {
                lemma_pow10_mono((i + 1) as nat, k as nat);
                let p1 = pow10((i + 1) as nat);
                let pk = pow10(k as nat);
                assert(value * pk >= value * p1) by (nonlinear_arith)
                    requires
                        pk >= p1,
                        value >= 0,
                ;
            }
            return None;
        }
        acc = acc * 10;
        i = i + 1;
    }
    Some(acc)
}

/// Reads `text` as an exact amount in thousandths.
#[verifier::loop_isolation(false)]
pub fn read_decimal(text: &str) -> (r: DecimalReading)
    ensures
        r == decimal_reading(text@),
{
    let parsed = parse_decimal(text);
    match parsed {
        None => DecimalReading::Malformed,
        Some((digits, scale)) => {
            let ds = digits.as_str();
            let n = ds.unicode_len();
            let negative = n > 0 && ds.get_char(0) == '-';
            let start: usize = if negative {
                1
            } else {
                0
            };
            let ghost mag = ds@.subrange(start as int, n as int);
            proof {
                if negative {
                    assert(mag =~= ds@.drop_first());
                } else {
                    assert(mag =~= ds@);
                }
                assert(all_digits(mag));
            }
            if scale > 3 {
                let k: i64 = scale - 3;
                let len = n - start;
                if (k as u64) > (len as u64) {
                    // every digit would have to be dropped: exact only for zero
                    let mut i: usize = start;
                    while i < n
                        invariant
                            start <= i <= n,
                            n == ds@.len(),
                            mag == ds@.subrange(start as int, n as int),
                            forall|x: int| start <= x < i ==> #[trigger] ds@[x] == '0',
                        decreases n - i,
                    {
                        if ds.get_char(i) != '0' {
                            proof {
                                assert(mag[i - start] == ds@[i as int]);
                                lemma_nonzero_short(mag, k as nat, i - start);
                            }
                            return DecimalReading::Fractional { negative };
                        }
                        i = i + 1;
                    }
                    proof {
                        assert forall|x: int| 0 <= x < mag.len() implies #[trigger] mag[x]
                            == '0' by {
                            assert(mag[x] == ds@[x + start]);
                        }
                        lemma_zero_digits(mag);
                        lemma_pow10_pos(k as nat);
                        vstd::arithmetic::div_mod::lemma_fundamental_div_mod_converse(
                            0,
                            pow10(k as nat) as int,
                            0,
                            0,
                        );
                    }
                    return DecimalReading::Milli(0);
                }
                let ku = k as usize;
                assert(ku == k);
                let cut = n - ku;
                let mut i: usize = cut;
                while i < n
                    invariant
                        start <= cut <= i <= n,
                        cut == n - ku,
                        n == ds@.len(),
                        mag == ds@.subrange(start as int, n as int),
                        forall|x: int| cut <= x < i ==> #[trigger] ds@[x] == '0',
                    decreases n - i,
                {
                    if ds.get_char(i) != '0' {
                        proof {
                            assert(mag[i - start] == ds@[i as int]);
                            lemma_nonzero_tail(mag, k as nat, i - start);
                        }
                        return DecimalReading::Fractional { negative };
                    }
                    i = i + 1;
                }
                proof {
                    assert forall|x: int| mag.len() - (k as int) <= x < mag.len() implies #[trigger] mag[x]
                        == '0' by {
                        assert(mag[x] == ds@[x + start]);
                    }
                    lemma_drop_zero_tail(mag, k as nat);
                    assert(mag.take(mag.len() - k) =~= ds@.subrange(start as int, cut as int));
                    assert(all_digits(ds@.subrange(start as int, cut as int))) by {
                        assert forall|x: int| 0 <= x < cut - start implies is_digit(
                            #[trigger] ds@.subrange(start as int, cut as int)[x],
                        ) by {
                            assert(ds@.subrange(start as int, cut as int)[x] == mag[x]);
                        }
                    }
                }
                match accumulate_digits(ds, start, cut) {
                    None => DecimalReading::Huge { negative },
                    Some(v) => DecimalReading::Milli(
                        if negative {
                            -v
                        } else {
                            v
                        },
                    ),
                }
            } else {
                match accumulate_digits(ds, start, n) {
                    None => {
                        proof {
                            let v = digits_value(mag);
                            lemma_pow10_pos((3 - scale) as nat);
                            let p = pow10((3 - scale) as nat);
                            assert(v * p >= v) by (nonlinear_arith)
                                requires
                                    p >= 1,
                            ;
                        }
                        DecimalReading::Huge { negative }
                    },
                    Some(v) => {
                        if v == 0 {
                            proof {
                                assert(0 * pow10((3 - scale) as nat) == 0);
                            }
                            return DecimalReading::Milli(0);
                        }
                        if scale < -15 {
                            proof {
                                lemma_pow10_mono(19, (3 - scale) as nat);
                                assert(pow10(19) == 10000000000000000000) by {
                                    reveal_with_fuel(pow10, 20);
                                }
                                let p = pow10((3 - scale) as nat);
                                assert(v * p >= p) by (nonlinear_arith)
                                    requires
                                        v >= 1,
                                        p >= 0,
                                ;
                            }
                            return DecimalReading::Huge { negative };
                        }
                        let up: i64 = 3 - scale;
                        match scale_up(v, up as u32) {
                            None => DecimalReading::Huge { negative },
                            Some(m) => DecimalReading::Milli(
                                if negative {
                                    -m
                                } else {
                                    m
                                },
                            ),
                        }
                    },
                }
            }
        },
    }
}

/// What the rules read of a number that arrives as a floating-point value: its
/// class, its sign, and the amount it is stored as (the decimal its shortest
/// text reads as, as `BigDecimal::from_str(&v.to_string())` gives it, or zero
/// when that text is not a decimal).
#[derive(Clone, Copy, PartialEq, Eq, Structural, Debug)]
pub struct Number {
    pub finite: bool,
    pub negative: bool,
    pub positive: bool,
    pub stored: DecimalReading,
}

/// The amount stored for `text`: the decimal it reads as, and zero when it does
/// not read as a decimal at all (a non-finite value).
pub open spec fn stored_reading(text: Seq<char>) -> DecimalReading {
    match decimal_reading(text) {
        DecimalReading::Malformed => DecimalReading::Milli(0),
        r => r,
    }
}

impl Number {
    /// A number from its class, its sign and its text.
    pub fn from_float(finite: bool, negative: bool, positive: bool, text: &str) -> (r: Number)
        ensures
            r == (Number { finite, negative, positive, stored: stored_reading(text@) }),
    {
        let stored = match read_decimal(text) {
            DecimalReading::Malformed => DecimalReading::Milli(0),
            r => r,
        };
        Number { finite, negative, positive, stored }
    }

    /// An amount already stored, in thousandths.
    pub fn from_milli(m: i64) -> (r: Number)
        ensures
            r == (Number {
                finite: true,
                negative: m < 0,
                positive: m > 0,
                stored: DecimalReading::Milli(m),
            }),
    {
        Number { finite: true, negative: m < 0, positive: m > 0, stored: DecimalReading::Milli(m) }
    }
}

} // verus!
