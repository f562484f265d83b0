//! Exact fixed-point decimals.
//!
//! Upstream sources report every numeric field (percentages, USD values,
//! token amounts) as a decimal string. This module gives those strings an
//! exact mathematical meaning: a value is a whole number of `1/10_000`
//! units, so four fraction digits are kept and arithmetic on them is
//! exact. String truncation tricks are replaced by real parsing and
//! canonical formatting.

use vstd::prelude::*;

verus! {

/// Number of units in 1.0: four fraction digits are kept.
pub const DECIMAL_SCALE: u64 = 10000;

/// Why a numeric field of an upstream payload was rejected.
#[derive(Clone, Copy, PartialEq, Eq, Structural, Debug)]
pub enum DataError {
    /// The text is not a plain non-negative decimal numeral.
    MalformedNumber,
    /// The value does not fit the fixed-point range.
    NumberTooLarge,
    /// A fund name or ticker that no upstream source knows.
    UnknownFund,
}

/// A non-negative decimal number, stored as `units` of `1/10_000`.
#[derive(Clone, Copy, PartialEq, Eq, Structural, Debug)]
pub struct Decimal {
    pub units: u64,
}

pub open spec fn is_digit_char(c: char) -> bool {
    '0' as int <= c as int <= '9' as int
}

pub open spec fn digit_value(c: char) -> nat {
    (c as int - '0' as int) as nat
}

pub open spec fn all_digits(s: Seq<char>) -> bool {
    forall|i: int| 0 <= i < s.len() ==> is_digit_char(s[i])
}

/// Value of a string of decimal digits, most significant first.
pub open spec fn digits_value(s: Seq<char>) -> nat
    decreases s.len(),
{
    if s.len() == 0 {
        0
    } else {
        digits_value(s.drop_last()) * 10 + digit_value(s.last())
    }
}

pub open spec fn pow10(k: nat) -> nat
    decreases k,
{
    if k == 0 {
        1
    } else {
        10 * pow10((k - 1) as nat)
    }
}

/// Index of the first `'.'` in `s`, or `-1` if there is none.
pub open spec fn first_dot(s: Seq<char>) -> int
    decreases s.len(),
{
    if s.len() == 0 {
        -1
    } else if s[0] == '.' {
        0
    } else if first_dot(s.drop_first()) == -1 {
        -1
    } else {
        1 + first_dot(s.drop_first())
    }
}

/// A plain non-negative decimal numeral: digits, optionally followed by
/// a point and at least one more digit.
pub open spec fn valid_decimal_str(s: Seq<char>) -> bool {
    let d = first_dot(s);
    if d == -1 {
        s.len() > 0 && all_digits(s)
    } else {
        0 < d < s.len() - 1 && all_digits(s.take(d)) && all_digits(s.skip(d + 1))
    }
}

/// Units contributed by the fraction digits `f`: digits beyond the
/// fourth are truncated, shorter fractions are scaled up.
pub open spec fn frac_value(f: Seq<char>) -> nat {
    if f.len() >= 4 {
        digits_value(f.take(4))
    } else {
        digits_value(f) * pow10((4 - f.len()) as nat)
    }
}

/// Exact unit count denoted by a valid decimal numeral.
pub open spec fn decimal_units(s: Seq<char>) -> nat {
    let d = first_dot(s);
    if d == -1 {
        digits_value(s) * 10000
    } else {
        digits_value(s.take(d)) * 10000 + frac_value(s.skip(d + 1))
    }
}

proof fn lemma_first_dot_chars(s: Seq<char>)
    ensures
        first_dot(s) == -1 ==> forall|i: int| 0 <= i < s.len() ==> s[i] != '.',
        first_dot(s) != -1 ==> 0 <= first_dot(s) < s.len() && s[first_dot(s)] == '.' && (forall|
            i: int,
        | 0 <= i < first_dot(s) ==> s[i] != '.'),
    decreases s.len(),
{
    if s.len() == 0 {
    } else if s[0] == '.' {
    } else {
        lemma_first_dot_chars(s.drop_first());
        if first_dot(s) == -1 {
            assert forall|i: int| 0 <= i < s.len() implies s[i] != '.' by {
                if i > 0 {
                    assert(s.drop_first()[i - 1] == s[i]);
                }
            }
        }
        if first_dot(s) != -1 {
            let d = first_dot(s);
            assert(s.drop_first()[d - 1] == s[d]);
            assert forall|i: int| 0 <= i < d implies s[i] != '.' by {
                if i > 0 {
                    assert(s.drop_first()[i - 1] == s[i]);
                }
            }
        }
    }
}

/// The first `'.'` found by a left-to-right scan is `first_dot`.
proof fn lemma_first_dot_at(s: Seq<char>, p: int)
    requires
        0 <= p < s.len(),
        s[p] == '.',
        forall|i: int| 0 <= i < p ==> s[i] != '.',
    ensures
        first_dot(s) == p,
{
    lemma_first_dot_chars(s);
    let d = first_dot(s);
    if d == -1 {
    } else if d < p {
    } else if d > p {
    }
}

pub(crate) proof fn lemma_digits_value_step(s: Seq<char>, i: int)
    requires
        0 <= i < s.len(),
    ensures
        digits_value(s.take(i + 1)) == digits_value(s.take(i)) * 10 + digit_value(s[i]),
{
    assert(s.take(i + 1).drop_last() =~= s.take(i));
    assert(s.take(i + 1).last() == s[i]);
}

proof fn lemma_digits_value_bound(s: Seq<char>)
    requires
        all_digits(s),
    ensures
        digits_value(s) < pow10(s.len()),
    decreases s.len(),
{
    if s.len() == 0 {
    } else {
        assert(all_digits(s.drop_last()));
        lemma_digits_value_bound(s.drop_last());
        let v = digits_value(s.drop_last());
        let p = pow10((s.len() - 1) as nat);
        assert(digit_value(s.last()) <= 9);
        assert(v * 10 + digit_value(s.last()) < 10 * p) by (nonlinear_arith)
            requires
                v < p,
                digit_value(s.last()) <= 9,
        ;
        assert(pow10(s.len()) == 10 * pow10((s.len() - 1) as nat));
    }
}

/// A character that is neither a digit nor a point rules the numeral out.
proof fn lemma_bad_char_invalid(s: Seq<char>, i: int)
    requires
        0 <= i < s.len(),
        !is_digit_char(s[i]),
        s[i] != '.',
    ensures
        !valid_decimal_str(s),
{
    let d = first_dot(s);
    if d != -1 {
        lemma_first_dot_chars(s);
        if i < d {
            assert(s.take(d)[i] == s[i]);
        } else if i > d {
            assert(s.skip(d + 1)[i - d - 1] == s[i]);
        }
    }
}

/// A second point after the first rules the numeral out.
proof fn lemma_two_dots_invalid(s: Seq<char>, p: int, q: int)
    requires
        0 <= p < q < s.len(),
        s[p] == '.',
        s[q] == '.',
    ensures
        !valid_decimal_str(s),
{
    let d = first_dot(s);
    lemma_first_dot_chars(s);
    if d != -1 && 0 < d < s.len() - 1 {
        if q > d {
            assert(s.skip(d + 1)[q - d - 1] == s[q]);
            assert(!is_digit_char('.')) by {
                assert('.' as int == 46);
            }
        }
    }
}

impl Decimal {
    /// Whole part of the value: the number of whole currency units.
    pub fn whole_part(&self) -> (r: u64)
        ensures
            r == self.units / 10000,
    {
        self.units / DECIMAL_SCALE
    }

    /// Exact sum; `None` when the sum leaves the fixed-point range.
    pub fn checked_add(&self, other: &Decimal) -> (r: Option<Decimal>)
        ensures
            self.units + other.units <= u64::MAX ==> r == Some(
                Decimal { units: (self.units + other.units) as u64 },
            ),
            self.units + other.units > u64::MAX ==> r is None,
    {
        if self.units <= u64::MAX - other.units {
            Some(Decimal { units: self.units + other.units })
        } else {
            None
        }
    }

    /// Drop fraction digits beyond the first `keep` (0 to 4) of them.
    pub fn truncate_frac(&self, keep: u64) -> (r: Decimal)
        requires
            keep <= 4,
        ensures
            r.units as int == self.units as int - self.units as int % (pow10(
                (4 - keep) as nat,
            ) as int),
    {
        let step: u64 = if keep == 0 {
            10000
        } else if keep == 1 {
            1000
        } else if keep == 2 {
            100
        } else if keep == 3 {
            10
        } else {
            1
        };
        proof {
            reveal_with_fuel(pow10, 5);
            assert(pow10(4) == 10000 && pow10(3) == 1000 && pow10(2) == 100 && pow10(1) == 10
                && pow10(0) == 1);
        }
        Decimal { units: self.units - self.units % step }
    }
}

/// Parse a plain non-negative decimal numeral into exact units.
///
/// Succeeds exactly on valid numerals whose value fits the range;
/// fraction digits beyond the fourth are truncated.
pub fn parse_decimal(s: &str) -> (r: Result<Decimal, DataError>)
    ensures
        match r {
            Ok(d) => valid_decimal_str(s@) && decimal_units(s@) <= u64::MAX && d.units
                == decimal_units(s@),
            Err(e) => if valid_decimal_str(s@) {
                decimal_units(s@) > u64::MAX && e == DataError::NumberTooLarge
            } else {
                e == DataError::MalformedNumber
            },
        },
{
    let n = s.unicode_len();
    if n == 0 {
        return Err(DataError::MalformedNumber);
    }
    // First pass: find the point and check every character.
    let mut dot: usize = n;  // `n` means: no point seen yet
    let mut i: usize = 0;
    while i < n
        invariant
            i <= n,
            n == s@.len(),
            dot == n || (0 < dot < i && s@[dot as int] == '.'),
            forall|j: int| 0 <= j < i && j != dot ==> is_digit_char(s@[j]),
            forall|j: int| 0 <= j < i && j != dot ==> s@[j] != '.',
        decreases n - i,
    {
        let c = s.get_char(i);
        if c == '.' {
            if dot < n {
                proof {
                    lemma_two_dots_invalid(s@, dot as int, i as int);
                }
                return Err(DataError::MalformedNumber);
            }
            if i == 0 {
                proof {
                    lemma_first_dot_at(s@, 0);
                }
                return Err(DataError::MalformedNumber);
            }
            dot = i;
        } else {
            let v = c as u32;
            if v < 48 || v > 57 {
                proof {
                    lemma_bad_char_invalid(s@, i as int);
                }
                return Err(DataError::MalformedNumber);
            }
        }
        i += 1;
    }
    proof {
        if dot == n {
            lemma_first_dot_chars(s@);
            if first_dot(s@) != -1 {
                assert(s@[first_dot(s@)] == '.');
            }
            assert(valid_decimal_str(s@));
        } else {
            lemma_first_dot_at(s@, dot as int);
        }
    }
    if dot == n - 1 {
        // a trailing point has no fraction digits
        return Err(DataError::MalformedNumber);
    }
    proof {
        assert(valid_decimal_str(s@));
    }

    // Second pass: the whole part.
    let intlen: usize = if dot == n { n } else { dot };
    let mut acc: u64 = 0;
    let mut too_big = false;
    i = 0;
    while i < intlen
        invariant
            i <= intlen <= n,
            n == s@.len(),
            intlen == (if first_dot(s@) == -1 { n as int } else { first_dot(s@) }),
            forall|j: int| 0 <= j < intlen ==> is_digit_char(s@[j]),
            !too_big ==> acc == digits_value(s@.take(i as int)),
            too_big ==> digits_value(s@.take(i as int)) > u64::MAX,
        decreases intlen - i,
    {
        let c = s.get_char(i);
        let d: u64 = (c as u32 - 48) as u64;
        proof {
            assert(is_digit_char(s@[i as int]));
            assert(d == digit_value(s@[i as int]));
            lemma_digits_value_step(s@, i as int);
        }
        if too_big {
        } else if acc > (u64::MAX - d) / 10 {
            proof {
                assert(acc * 10 + d > u64::MAX) by (nonlinear_arith)
                    requires
                        acc > (u64::MAX - d) / 10,
                        d <= 9,
                        acc <= u64::MAX,
                ;
            }
            too_big = true;
        } else {
            proof {
                assert(acc * 10 + d <= u64::MAX) by (nonlinear_arith)
                    requires
                        acc <= (u64::MAX - d) / 10,
                        d <= 9,
                ;
            }
            acc = acc * 10 + d;
        }
        i += 1;
    }

    // Third pass: up to four fraction digits.
    let mut frac: u64 = 0;
    if dot < n {
        let flen: usize = n - dot - 1;
        let k: usize = if flen >= 4 {
            4
        } else {
            flen
        };
        let ghost f = s@.skip(dot as int + 1);
        let mut j: usize = 0;
        while j < k
            invariant
                j <= k <= 4,
                k <= flen,
                dot < n,
                n == s@.len(),
                flen == n - dot - 1,
                f == s@.skip(dot as int + 1),
                f.len() == flen,
                forall|p: int| 0 <= p < f.len() ==> is_digit_char(f[p]),
                frac == digits_value(f.take(j as int)),
                frac < pow10(j as nat),
            decreases k - j,
        {
            proof {
                assert(f[j as int] == s@[dot + 1 + j as int]);
                reveal_with_fuel(pow10, 5);
                assert(pow10(j as nat) <= 1000) by {
                    if j == 0 {
                    } else if j == 1 {
                    } else if j == 2 {
                    } else {
                        assert(j == 3);
                    }
                }
            }
            let c = s.get_char(dot + 1 + j);
            let d: u64 = (c as u32 - 48) as u64;
            proof {
                assert(d == digit_value(f[j as int]));
                lemma_digits_value_step(f, j as int);
                assert(pow10((j + 1) as nat) == 10 * pow10(j as nat));
            }
            frac = frac * 10 + d;
            j += 1;
        }
        proof {
            reveal_with_fuel(pow10, 5);
            assert(pow10(1) == 10 && pow10(2) == 100 && pow10(3) == 1000 && pow10(4) == 10000);
            assert(k == 1 ==> frac < 10);
            assert(k == 2 ==> frac < 100);
            assert(k == 3 ==> frac < 1000);
        }
        if k == 1 {
            frac = frac * 1000;
        } else if k == 2 {
            frac = frac * 100;
        } else if k == 3 {
            frac = frac * 10;
        }
        proof {
            if flen >= 4 {
                assert(frac == digits_value(f.take(4)));
            } else {
                assert(f.take(flen as int) =~= f);
            }
            assert(frac == frac_value(f));
            assert(frac < 10000) by {
                if flen >= 4 {
                    assert(all_digits(f.take(4)));
                    lemma_digits_value_bound(f.take(4));
                } else {
                    lemma_digits_value_bound(f);
                    assert(digits_value(f) * pow10((4 - flen) as nat) < pow10(flen as nat)
                        * pow10((4 - flen) as nat)) by (nonlinear_arith)
                        requires
                            digits_value(f) < pow10(flen as nat),
                            pow10((4 - flen) as nat) >= 1,
                    ;
                    reveal_with_fuel(pow10, 5);
                    assert(pow10(1 as nat) * pow10(3 as nat) == 10000 && pow10(2 as nat) * pow10(
                        2 as nat,
                    ) == 10000 && pow10(3 as nat) * pow10(1 as nat) == 10000);
                }
            }
        }
    }
    proof {
        if dot == n {
            assert(s@.take(n as int) =~= s@);
        } else {
            assert(s@.take(first_dot(s@)) =~= s@.take(intlen as int));
        }
    }

    if too_big {
        proof {
            let iv = digits_value(s@.take(intlen as int));
            assert(iv * 10000 >= iv) by (nonlinear_arith)
                requires
                    iv >= 0,
            ;
        }
        return Err(DataError::NumberTooLarge);
    }
    if acc <= (u64::MAX - frac) / 10000 {
        proof {
            assert(acc * 10000 + frac <= u64::MAX) by (nonlinear_arith)
                requires
                    acc <= (u64::MAX - frac) / 10000,
                    frac < 10000,
            ;
        }
        Ok(Decimal { units: acc * 10000 + frac })
    } else {
        proof {
            assert(acc * 10000 + frac > u64::MAX) by (nonlinear_arith)
                requires
                    acc > (u64::MAX - frac) / 10000,
                    frac < 10000,
                    acc <= u64::MAX,
            ;
        }
        Err(DataError::NumberTooLarge)
    }
}

pub open spec fn digit_char(n: nat) -> char {
    ((48 + n) as u8) as char
}

/// Decimal digit string of a whole number, no leading zeros.
pub open spec fn int_digits_str(n: nat) -> Seq<char>
    decreases n,
{
    if n < 10 {
        seq![digit_char(n)]
    } else {
        int_digits_str(n / 10) + seq![digit_char(n % 10)]
    }
}

/// The four fraction digits of `fr` (below 10000), zero-padded.
pub open spec fn frac_digit_chars(fr: nat) -> Seq<char> {
    seq![
        digit_char(fr / 1000 % 10),
        digit_char(fr / 100 % 10),
        digit_char(fr / 10 % 10),
        digit_char(fr % 10),
    ]
}

pub open spec fn trim_zeros(s: Seq<char>) -> Seq<char>
    decreases s.len(),
{
    if s.len() > 0 && s.last() == '0' {
        trim_zeros(s.drop_last())
    } else {
        s
    }
}

/// Canonical rendering of a unit count: whole part, then a point and
/// the fraction digits with trailing zeros dropped, if any remain.
pub open spec fn decimal_str(units: nat) -> Seq<char> {
    let w = units / 10000;
    let fr = units % 10000;
    if fr == 0 {
        int_digits_str(w)
    } else {
        int_digits_str(w) + seq!['.'] + trim_zeros(frac_digit_chars(fr))
    }
}

proof fn lemma_int_digits_str(n: nat)
    ensures
        all_digits(int_digits_str(n)),
        int_digits_str(n).len() >= 1,
        digits_value(int_digits_str(n)) == n,
    decreases n,
{
    if n < 10 {
        assert(int_digits_str(n) =~= seq![digit_char(n)]);
        assert(digits_value(seq![digit_char(n)].drop_last()) == 0) by {
            assert(seq![digit_char(n)].drop_last() =~= Seq::<char>::empty());
        }
        assert(is_digit_char(digit_char(n)));
        assert(digit_value(digit_char(n)) == n);
    } else {
        lemma_int_digits_str(n / 10);
        let a = int_digits_str(n / 10);
        let s = a + seq![digit_char(n % 10)];
        assert(s.drop_last() =~= a);
        assert(s.last() == digit_char(n % 10));
        assert(digit_value(digit_char(n % 10)) == n % 10);
        assert(digits_value(s) == (n / 10) * 10 + n % 10);
        assert(n == (n / 10) * 10 + n % 10);
        assert forall|i: int| 0 <= i < s.len() implies is_digit_char(s[i]) by {
            if i < a.len() {
                assert(s[i] == a[i]);
            }
        }
    }
}

/// Digits are never a point, so a pure digit string has no dot.
proof fn lemma_all_digits_no_dot(s: Seq<char>)
    requires
        all_digits(s),
    ensures
        first_dot(s) == -1,
{
    lemma_first_dot_chars(s);
    if first_dot(s) != -1 {
        assert(is_digit_char(s[first_dot(s)]));
        assert('.' as int == 46);
    }
}

/// The canonical rendering of a unit count parses back to it exactly.
pub proof fn lemma_decimal_str_roundtrip(u: nat)
    ensures
        valid_decimal_str(decimal_str(u)),
        decimal_units(decimal_str(u)) == u,
{
    let w = u / 10000;
    let fr = u % 10000;
    vstd::arithmetic::div_mod::lemma_fundamental_div_mod(u as int, 10000);
    lemma_int_digits_str(w);
    let i = int_digits_str(w);
    reveal_with_fuel(pow10, 5);
    if fr == 0 {
        lemma_all_digits_no_dot(i);
        assert(decimal_units(i) == w * 10000);
    } else {
        let f4 = frac_digit_chars(fr);
        let t = trim_zeros(f4);
        let fri = fr as int;
        vstd::arithmetic::div_mod::lemma_fundamental_div_mod(fri, 10);
        vstd::arithmetic::div_mod::lemma_div_denominator(fri, 10, 10);
        vstd::arithmetic::div_mod::lemma_fundamental_div_mod(fri / 10, 10);
        vstd::arithmetic::div_mod::lemma_div_denominator(fri, 100, 10);
        vstd::arithmetic::div_mod::lemma_fundamental_div_mod(fri / 100, 10);
        let a = fr / 1000 % 10;
        let b = fr / 100 % 10;
        let c = fr / 10 % 10;
        let e = fr % 10;
        assert(fri / 1000 < 10);
        assert(fri == 1000 * (fri / 1000) + 100 * ((fri / 100) % 10) + 10 * ((fri / 10) % 10) + fri
            % 10);
        reveal_with_fuel(trim_zeros, 5);
        reveal_with_fuel(digits_value, 5);
        assert(digit_value(digit_char(a)) == a && is_digit_char(digit_char(a)));
        assert(digit_value(digit_char(b)) == b && is_digit_char(digit_char(b)));
        assert(digit_value(digit_char(c)) == c && is_digit_char(digit_char(c)));
        assert(digit_value(digit_char(e)) == e && is_digit_char(digit_char(e)));
        assert(f4.drop_last() =~= seq![digit_char(a), digit_char(b), digit_char(c)]);
        assert(f4.drop_last().drop_last() =~= seq![digit_char(a), digit_char(b)]);
        assert(f4.drop_last().drop_last().drop_last() =~= seq![digit_char(a)]);
        assert(seq![digit_char(a), digit_char(b), digit_char(c)].drop_last() =~= seq![
            digit_char(a),
            digit_char(b),
        ]);
        assert(seq![digit_char(a), digit_char(b)].drop_last() =~= seq![digit_char(a)]);
        assert(seq![digit_char(a)].drop_last() =~= Seq::<char>::empty());
        // value and digit-hood of the trimmed fraction digits
        assert(a == fri / 1000);
        assert(all_digits(f4)) by {
            assert(f4[0] == digit_char(a) && f4[1] == digit_char(b) && f4[2] == digit_char(c)
                && f4[3] == digit_char(e));
        }
        assert(all_digits(t) && 1 <= t.len() <= 4 && digits_value(t) * pow10((4 - t.len()) as nat)
            == fr) by {
            if e != 0 {
                assert(t == f4);
                assert(digits_value(f4) == ((a * 10 + b) * 10 + c) * 10 + e);
                assert(fr == 1000 * a + 100 * b + 10 * c + e);
                assert(((a * 10 + b) * 10 + c) * 10 + e == 1000 * a + 100 * b + 10 * c + e)
                    by (nonlinear_arith);
                assert(pow10(0) == 1) by {
                    reveal_with_fuel(pow10, 1);
                }
                assert(digits_value(t) == fr);
                assert(digits_value(t) * pow10(0) == fr);
            } else if c != 0 {
                assert(t == f4.drop_last());
                assert(digits_value(t) == (a * 10 + b) * 10 + c);
                assert(all_digits(t)) by {
                    assert(t[0] == digit_char(a) && t[1] == digit_char(b) && t[2] == digit_char(c));
                }
                assert(fr == 1000 * a + 100 * b + 10 * c);
                assert(((a * 10 + b) * 10 + c) * 10 == 1000 * a + 100 * b + 10 * c)
                    by (nonlinear_arith);
                assert(digits_value(t) * pow10(1) == fr);
            } else if b != 0 {
                assert(t == f4.drop_last().drop_last());
                assert(digits_value(t) == a * 10 + b);
                assert(all_digits(t)) by {
                    assert(t[0] == digit_char(a) && t[1] == digit_char(b));
                }
                assert(fr == 1000 * a + 100 * b);
                assert((a * 10 + b) * 100 == 1000 * a + 100 * b) by (nonlinear_arith);
                assert(digits_value(t) * pow10(2) == fr);
            } else {
                assert(fri == 1000 * (fri / 1000));
                assert(fri / 1000 != 0);
                assert(digit_char(a) != '0');
                assert(t == f4.drop_last().drop_last().drop_last());
                assert(digits_value(t) == a);
                assert(all_digits(t)) by {
                    assert(t[0] == digit_char(a));
                }
                assert(fr == 1000 * a);
                assert(pow10(3) == 1000) by {
                    reveal_with_fuel(pow10, 5);
                }
                assert(a * 1000 == 1000 * a) by (nonlinear_arith);
                assert(digits_value(t) * pow10(3) == fr);
            }
        }
        let s = i + seq!['.'] + t;
        assert(s[i.len() as int] == '.');
        assert forall|j: int| 0 <= j < i.len() implies s[j] != '.' by {
            assert(s[j] == i[j]);
            assert(is_digit_char(i[j]));
            assert('.' as int == 46);
        }
        lemma_first_dot_at(s, i.len() as int);
        assert(s.take(i.len() as int) =~= i);
        assert(s.skip(i.len() as int + 1) =~= t);
        assert(frac_value(t) == fr) by {
            if t.len() == 4 {
                assert(t.take(4) =~= t);
            }
        }
        assert(valid_decimal_str(s));
        assert(decimal_units(s) == w * 10000 + fr);
    }
}

fn digit_str(d: u64) -> (r: &'static str)
    requires
        d < 10,
    ensures
        r@ =~= seq![digit_char(d as nat)],
{
    proof {
        reveal_strlit("0");
        reveal_strlit("1");
        reveal_strlit("2");
        reveal_strlit("3");
        reveal_strlit("4");
        reveal_strlit("5");
        reveal_strlit("6");
        reveal_strlit("7");
        reveal_strlit("8");
        reveal_strlit("9");
    }
    if d == 0 {
        "0"
    } else if d == 1 {
        "1"
    } else if d == 2 {
        "2"
    } else if d == 3 {
        "3"
    } else if d == 4 {
        "4"
    } else if d == 5 {
        "5"
    } else if d == 6 {
        "6"
    } else if d == 7 {
        "7"
    } else if d == 8 {
        "8"
    } else {
        "9"
    }
}

fn append_int_digits(n: u64, out: &mut String)
    ensures
        final (out)@ == old(out)@ + int_digits_str(n as nat),
    decreases n,
{
    if n < 10 {
        out.append(digit_str(n));
        proof {
            assert(final (out)@ =~= old(out)@ + int_digits_str(n as nat));
        }
    } else {
        append_int_digits(n / 10, out);
        out.append(digit_str(n % 10));
        proof {
            assert(final (out)@ =~= old(out)@ + int_digits_str(n as nat));
        }
    }
}

/// Render a value in its canonical decimal form.
pub fn format_decimal(d: &Decimal) -> (r: String)
    ensures
        r@ == decimal_str(d.units as nat),
{
    let mut out = String::new();
    append_int_digits(d.units / 10000, &mut out);
    let fr: u64 = d.units % 10000;
    if fr > 0 {
        let ghost f4 = frac_digit_chars(fr as nat);
        out.append(".");
        proof {
            reveal_strlit(".");
        }
        let a: u64 = fr / 1000 % 10;
        let b: u64 = fr / 100 % 10;
        let c: u64 = fr / 10 % 10;
        let e: u64 = fr % 10;
        proof {
            assert(digit_char(e as nat) == '0' ==> e == 0);
            assert(digit_char(c as nat) == '0' ==> c == 0);
            assert(digit_char(b as nat) == '0' ==> b == 0);
            assert(f4.drop_last() =~= seq![
                digit_char(a as nat),
                digit_char(b as nat),
                digit_char(c as nat),
            ]);
            assert(f4.drop_last().drop_last() =~= seq![
                digit_char(a as nat),
                digit_char(b as nat),
            ]);
            assert(f4.drop_last().drop_last().drop_last() =~= seq![digit_char(a as nat)]);
        }
        if e != 0 {
            out.append(digit_str(a));
            out.append(digit_str(b));
            out.append(digit_str(c));
            out.append(digit_str(e));
            proof {
                reveal_with_fuel(trim_zeros, 5);
                assert(trim_zeros(f4) == f4);
                assert(out@ =~= decimal_str(d.units as nat));
            }
        } else if c != 0 {
            out.append(digit_str(a));
            out.append(digit_str(b));
            out.append(digit_str(c));
            proof {
                reveal_with_fuel(trim_zeros, 5);
                assert(trim_zeros(f4) == f4.drop_last());
                assert(out@ =~= decimal_str(d.units as nat));
            }
        } else if b != 0 {
            out.append(digit_str(a));
            out.append(digit_str(b));
            proof {
                reveal_with_fuel(trim_zeros, 5);
                assert(trim_zeros(f4) == f4.drop_last().drop_last());
                assert(out@ =~= decimal_str(d.units as nat));
            }
        } else {
            out.append(digit_str(a));
            proof {
                reveal_with_fuel(trim_zeros, 5);
                let fri = fr as int;
                vstd::arithmetic::div_mod::lemma_fundamental_div_mod(fri, 10);
                vstd::arithmetic::div_mod::lemma_div_denominator(fri, 10, 10);
                vstd::arithmetic::div_mod::lemma_fundamental_div_mod(fri / 10, 10);
                vstd::arithmetic::div_mod::lemma_div_denominator(fri, 100, 10);
                vstd::arithmetic::div_mod::lemma_fundamental_div_mod(fri / 100, 10);
                assert(fri == 1000 * (fri / 1000) + 100 * ((fri / 100) % 10) + 10 * ((fri / 10)
                    % 10) + fri % 10);
                assert(fri == 1000 * (fri / 1000));
                assert(fri / 1000 < 10);
                assert(a != 0);
                assert(digit_char(a as nat) != '0');
                assert(trim_zeros(f4) == f4.drop_last().drop_last().drop_last());
                assert(out@ =~= decimal_str(d.units as nat));
            }
        }
    }
    out
}

} // verus!
