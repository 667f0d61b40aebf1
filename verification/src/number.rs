//! Fixed-point decimal numbers.
//!
//! A number is a signed count of millionths. All arithmetic is exact on that
//! grid; products, quotients and literals that fall between two grid points
//! go to the nearest one, ties away from zero. A result that does not fit in
//! the 64-bit count is reported, never wrapped.

use vstd::prelude::*;

verus! {

/// The count that stands for the value one.
pub const UNITS_PER_ONE: i64 = 1_000_000;

/// The number of decimal places that a number keeps.
pub const FRACTION_DIGITS: usize = 6;

/// The largest whole part of a literal whose scaled value can still fit.
pub const WHOLE_LIMIT: u64 = 9_223_372_036_854;

/// A decimal number with six places, held as a count of millionths.
#[derive(Debug, Clone, Copy, PartialEq, Eq, Structural)]
pub struct Number {
    pub units: i64,
}

/// Whether `v` can be held as a count.
pub open spec fn fits(v: int) -> bool {
    i64::MIN <= v <= i64::MAX
}

/// The number with count `v`, where it fits.
pub open spec fn checked(v: int) -> Option<Number> {
    if fits(v) {
        Some(Number { units: v as i64 })
    } else {
        None
    }
}

/// `n / d` to the nearest integer, halves upward, for `n >= 0` and `d > 0`.
pub open spec fn nearest_nonneg(n: int, d: int) -> int {
    n / d + if 2 * (n % d) >= d {
        1int
    } else {
        0int
    }
}

/// `n / d` to the nearest integer, ties away from zero, for `d > 0`.
pub open spec fn nearest(n: int, d: int) -> int {
    if n >= 0 {
        nearest_nonneg(n, d)
    } else {
        -nearest_nonneg(-n, d)
    }
}

/// The count of the product of the numbers with counts `a` and `b`.
pub open spec fn product_units(a: int, b: int) -> int {
    nearest(a * b, UNITS_PER_ONE as int)
}

/// The count of the quotient of the numbers with counts `a` and `b`, `b != 0`.
pub open spec fn quotient_units(a: int, b: int) -> int {
    if b > 0 {
        nearest(a * UNITS_PER_ONE, b)
    } else {
        nearest(-(a * UNITS_PER_ONE), -b)
    }
}

/// The count of the whole number nearest to the number with count `a`.
pub open spec fn rounded_units(a: int) -> int {
    nearest(a, UNITS_PER_ONE as int) * UNITS_PER_ONE
}

/// Whether `c` is one of the ten decimal digits.
pub open spec fn is_digit(c: char) -> bool {
    '0' <= c <= '9'
}

/// The value of the digit `c`.
pub open spec fn digit_value(c: char) -> int {
    c as int - '0' as int
}

/// The digit that stands for `d`, `0 <= d <= 9`.
pub open spec fn digit_char(d: int) -> char {
    ((d + '0' as int) as u8) as char
}

/// The value of a run of digits read as a decimal numeral.
pub open spec fn digits_value(s: Seq<char>) -> int
    decreases s.len(),
{
    if s.len() == 0 {
        0
    } else {
        digits_value(s.drop_last()) * 10 + digit_value(s.last())
    }
}

/// The index of the first `.` in `s`, or the length of `s`.
pub open spec fn dot_index(s: Seq<char>) -> int
    decreases s.len(),
{
    if s.len() == 0 || s[0] == '.' {
        0
    } else {
        1 + dot_index(s.drop_first())
    }
}

/// The digits of a literal before its decimal point.
pub open spec fn whole_part(s: Seq<char>) -> Seq<char> {
    s.take(dot_index(s))
}

/// The digits of a literal behind its decimal point.
pub open spec fn fraction_part(s: Seq<char>) -> Seq<char> {
    if dot_index(s) < s.len() {
        s.skip(dot_index(s) + 1)
    } else {
        Seq::empty()
    }
}

/// The digit at place `i` behind the point, zero where the literal has none.
pub open spec fn fraction_digit(f: Seq<char>, i: int) -> int {
    if 0 <= i < f.len() {
        digit_value(f[i])
    } else {
        0
    }
}

/// The first `places` fraction digits read as a numeral.
pub open spec fn fraction_units(f: Seq<char>, places: int) -> int
    decreases places,
{
    if places <= 0 {
        0
    } else {
        fraction_units(f, places - 1) * 10 + fraction_digit(f, places - 1)
    }
}

/// The count that a literal denotes: the whole part scaled, the first six
/// places, and one more unit where the seventh place is five or above.
pub open spec fn literal_units(s: Seq<char>) -> int {
    digits_value(whole_part(s)) * UNITS_PER_ONE + fraction_units(
        fraction_part(s),
        FRACTION_DIGITS as int,
    ) + if fraction_digit(fraction_part(s), FRACTION_DIGITS as int) >= 5 {
        1int
    } else {
        0int
    }
}

/// Whether `s` has the shape of a literal: digits, with at most one `.` among
/// them behind a first digit.
pub open spec fn is_literal(s: Seq<char>) -> bool {
    &&& 0 < dot_index(s)
    &&& forall|i: int| 0 <= i < s.len() && i != dot_index(s) ==> is_digit(#[trigger] s[i])
}

/// The number that the literal `s` denotes, where its count fits.
pub open spec fn literal_number(s: Seq<char>) -> Option<Number> {
    checked(literal_units(s))
}

/// The decimal numeral of `n >= 0`, without leading zeros.
pub open spec fn nat_text(n: int) -> Seq<char>
    decreases n,
{
    if n < 10 {
        seq![digit_char(n)]
    } else {
        nat_text(n / 10).push(digit_char(n % 10))
    }
}

/// The numeral of `f` written with exactly `width` digits.
pub open spec fn padded_text(f: int, width: int) -> Seq<char>
    decreases width,
{
    if width <= 0 {
        Seq::empty()
    } else {
        padded_text(f / 10, width - 1).push(digit_char(f % 10))
    }
}

/// The digits behind the point for the fraction `f` of `width` places,
/// without trailing zeros; `f > 0`.
pub open spec fn fraction_text(f: int, width: int) -> Seq<char>
    decreases width,
{
    if width <= 0 {
        Seq::empty()
    } else if f % 10 == 0 {
        fraction_text(f / 10, width - 1)
    } else {
        padded_text(f, width)
    }
}

/// The text of the magnitude `m >= 0` of a count.
pub open spec fn magnitude_text(m: int) -> Seq<char> {
    if m % (UNITS_PER_ONE as int) == 0 {
        nat_text(m / (UNITS_PER_ONE as int))
    } else {
        nat_text(m / (UNITS_PER_ONE as int)).push('.') + fraction_text(
            m % (UNITS_PER_ONE as int),
            FRACTION_DIGITS as int,
        )
    }
}

/// The text of the number with count `units`: a minus sign where it is
/// negative, the whole part, and the places behind the point where any is
/// not zero.
pub open spec fn number_text(units: int) -> Seq<char> {
    if units < 0 {
        seq!['-'] + magnitude_text(-units)
    } else {
        magnitude_text(units)
    }
}

/// A run of digits denotes no negative number.
pub proof fn lemma_digits_value_nonneg(s: Seq<char>)
    requires
        forall|i: int| 0 <= i < s.len() ==> is_digit(#[trigger] s[i]),
    ensures
        digits_value(s) >= 0,
    decreases s.len(),
{
    if s.len() > 0 {
        lemma_digits_value_nonneg(s.drop_last());
    }
}

/// The first places of a fraction denote a number below the matching power of
/// ten.
pub proof fn lemma_fraction_units_bounds(f: Seq<char>, places: int)
    requires
        forall|i: int| 0 <= i < f.len() ==> is_digit(#[trigger] f[i]),
        0 <= places <= 6,
    ensures
        0 <= fraction_units(f, places),
        places == 0 ==> fraction_units(f, places) < 1,
        places == 1 ==> fraction_units(f, places) < 10,
        places == 2 ==> fraction_units(f, places) < 100,
        places == 3 ==> fraction_units(f, places) < 1_000,
        places == 4 ==> fraction_units(f, places) < 10_000,
        places == 5 ==> fraction_units(f, places) < 100_000,
        places == 6 ==> fraction_units(f, places) < 1_000_000,
    decreases places,
{
    if places > 0 {
        lemma_fraction_units_bounds(f, places - 1);
    }
}

/// The magnitude of a count.
fn magnitude(x: i64) -> (m: u128)
    ensures
        m == if x >= 0 {
            x as int
        } else {
            -(x as int)
        },
        m <= 0x8000_0000_0000_0000,
{
    if x >= 0 {
        x as u128
    } else {
        (-(x as i128)) as u128
    }
}

/// The number with magnitude `m` and the given sign, where it fits.
fn signed(m: u128, negative: bool) -> (r: Option<Number>)
    ensures
        r == checked(
            if negative {
                -(m as int)
            } else {
                m as int
            },
        ),
{
    if negative {
        if m <= 0x8000_0000_0000_0000 {
            let v: i128 = -(m as i128);
            Some(Number { units: v as i64 })
        } else {
            None
        }
    } else {
        if m <= 0x7fff_ffff_ffff_ffff {
            Some(Number { units: m as i64 })
        } else {
            None
        }
    }
}

/// `n / d` to the nearest integer, halves upward.
fn nearest_quotient(n: u128, d: u128) -> (q: u128)
    requires
        0 < d <= 0x8000_0000_0000_0000,
        n <= 0x4000_0000_0000_0000_0000_0000_0000_0000,
    ensures
        q == nearest_nonneg(n as int, d as int),
{
    let q: u128 = n / d;
    let r: u128 = n % d;
    if 2 * r >= d {
        q + 1
    } else {
        q
    }
}

impl Number {
    /// The number that is `units` millionths.
    pub fn from_units(units: i64) -> (n: Number)
        ensures
            n.units == units,
    {
        Number { units }
    }

    /// The whole number `value`.
    pub fn from_whole(value: i32) -> (n: Number)
        ensures
            n.units == value * UNITS_PER_ONE,
    {
        Number { units: (value as i64) * UNITS_PER_ONE }
    }

    /// The count of millionths.
    pub fn units(&self) -> (u: i64)
        ensures
            u == self.units,
    {
        self.units
    }

    /// Whether the number is zero.
    pub fn is_zero(&self) -> (b: bool)
        ensures
            b == (self.units == 0),
    {
        self.units == 0
    }

    /// The sum, where it fits.
    pub fn checked_add(self, other: Number) -> (r: Option<Number>)
        ensures
            r == checked(self.units + other.units),
    {
        let v: i128 = self.units as i128 + other.units as i128;
        if v < i64::MIN as i128 || v > i64::MAX as i128 {
            None
        } else {
            Some(Number { units: v as i64 })
        }
    }

    /// The difference, where it fits.
    pub fn checked_sub(self, other: Number) -> (r: Option<Number>)
        ensures
            r == checked(self.units - other.units),
    {
        let v: i128 = self.units as i128 - other.units as i128;
        if v < i64::MIN as i128 || v > i64::MAX as i128 {
            None
        } else {
            Some(Number { units: v as i64 })
        }
    }

    /// The negation, where it fits.
    pub fn checked_neg(self) -> (r: Option<Number>)
        ensures
            r == checked(-self.units),
    {
        if self.units == i64::MIN {
            None
        } else {
            Some(Number { units: -self.units })
        }
    }

    /// The product to the nearest millionth, where it fits.
    pub fn checked_mul(self, other: Number) -> (r: Option<Number>)
        ensures
            r == checked(product_units(self.units as int, other.units as int)),
    {
        let a: u128 = magnitude(self.units);
        let b: u128 = magnitude(other.units);
        let negative = (self.units < 0) != (other.units < 0);
        assert(a * b <= 0x4000_0000_0000_0000_0000_0000_0000_0000) by (nonlinear_arith)
            requires
                a <= 0x8000_0000_0000_0000,
                b <= 0x8000_0000_0000_0000,
        ;
        let p: u128 = a * b;
        proof {
            let x = self.units as int;
            let y = other.units as int;
            assert(p == if negative {
                -(x * y)
            } else {
                x * y
            }) by (nonlinear_arith)
                requires
                    p == a * b,
                    a == if x >= 0 {
                        x
                    } else {
                        -x
                    },
                    b == if y >= 0 {
                        y
                    } else {
                        -y
                    },
                    negative == ((x < 0) != (y < 0)),
            ;
            assert(x * y >= 0 <==> !negative || p == 0) by (nonlinear_arith)
                requires
                    p == if negative {
                        -(x * y)
                    } else {
                        x * y
                    },
                    p >= 0,
            ;
        }
        let m: u128 = nearest_quotient(p, UNITS_PER_ONE as u128);
        signed(m, negative)
    }

    /// The quotient to the nearest millionth, where it fits.
    pub fn checked_div(self, other: Number) -> (r: Option<Number>)
        requires
            other.units != 0,
        ensures
            r == checked(quotient_units(self.units as int, other.units as int)),
    {
        let a: u128 = magnitude(self.units);
        let b: u128 = magnitude(other.units);
        let negative = (self.units < 0) != (other.units < 0);
        let unit: u128 = 1_000_000;
        assert(a * unit <= 0x4000_0000_0000_0000_0000_0000_0000_0000) by (nonlinear_arith)
            requires
                a <= 0x8000_0000_0000_0000,
                unit == 1_000_000,
        ;
        let n: u128 = a * unit;
        let m: u128 = nearest_quotient(n, b);
        proof {
            let x = self.units as int;
            let y = other.units as int;
            assert(UNITS_PER_ONE == 1_000_000);
            assert(x * UNITS_PER_ONE == x * 1_000_000);
            assert(n == a * 1_000_000);
            if y > 0 {
                assert(b == y);
                if x >= 0 {
                    assert(n == x * UNITS_PER_ONE);
                    assert(quotient_units(x, y) == nearest_nonneg(n as int, b as int));
                } else {
                    assert(n == -(x * UNITS_PER_ONE));
                    assert(quotient_units(x, y) == -nearest_nonneg(n as int, b as int));
                }
            } else {
                assert(b == -y);
                if x <= 0 {
                    assert(n == -(x * UNITS_PER_ONE));
                    assert(quotient_units(x, y) == nearest_nonneg(n as int, b as int));
                } else {
                    assert(n == x * UNITS_PER_ONE);
                    assert(quotient_units(x, y) == -nearest_nonneg(n as int, b as int));
                }
            }
            let d = b as int;
            assert(0int / d == 0 && 0int % d == 0) by (nonlinear_arith)
                requires
                    d > 0,
            ;
        }
        signed(m, negative)
    }

    /// The nearest whole number, ties away from zero, where it fits.
    pub fn checked_round(self) -> (r: Option<Number>)
        ensures
            r == checked(rounded_units(self.units as int)),
    {
        let a: u128 = magnitude(self.units);
        let w: u128 = nearest_quotient(a, UNITS_PER_ONE as u128);
        assert(w <= 0x8000_0000_0000_0000);
        let m: u128 = w * (UNITS_PER_ONE as u128);
        signed(m, self.units < 0)
    }

    /// Whether `self` is below `other`.
    pub fn less_than(self, other: Number) -> (b: bool)
        ensures
            b == (self.units < other.units),
    {
        self.units < other.units
    }

    /// Whether the two numbers are the same. The grid is coarser than any
    /// tolerance a comparison could ask for, so this is plain equality.
    pub fn same(self, other: Number) -> (b: bool)
        ensures
            b == (self.units == other.units),
            b == (self == other),
    {
        self.units == other.units
    }

    /// Reads the literal `text[from..to]`.
    pub fn from_literal(text: &Vec<char>, from: usize, to: usize) -> (r: Option<Number>)
        requires
            from <= to <= text.len(),
            is_literal(text@.subrange(from as int, to as int)),
        ensures
            r == literal_number(text@.subrange(from as int, to as int)),
    {
        let ghost s = text@.subrange(from as int, to as int);
        let ghost dot = dot_index(s);
        proof {
            lemma_dot_index(s);
        }
        // The whole part.
        let mut whole: u64 = 0;
        let mut too_large = false;
        let mut i: usize = from;
        while i < to && text[i] != '.'
            invariant
                from <= i <= to <= text.len(),
                s == text@.subrange(from as int, to as int),
                dot == dot_index(s),
                0 <= dot <= s.len(),
                dot < s.len() ==> s[dot] == '.',
                forall|j: int| 0 <= j < dot ==> s[j] != '.',
                is_literal(s),
                i - from <= dot,
                !too_large ==> whole == digits_value(s.take(i - from)),
                !too_large ==> whole <= WHOLE_LIMIT,
                too_large ==> digits_value(s.take(i - from)) > WHOLE_LIMIT,
            decreases to - i,
        {
            let c = text[i];
            assert(c == s[i - from]);
            assert(i - from != dot);
            assert(is_digit(s[i - from]));
            let d: u64 = (c as u32 - '0' as u32) as u64;
            proof {
                let next = s.take(i - from + 1);
                assert(next.drop_last() =~= s.take(i - from));
                assert(next.last() == c);
                assert(digits_value(next) == digits_value(s.take(i - from)) * 10 + d);
            }
            if !too_large {
                let v: u64 = whole * 10 + d;
                if v > WHOLE_LIMIT {
                    too_large = true;
                } else {
                    whole = v;
                }
            }
            i += 1;
        }
        assert(i - from == dot) by {
            if i < to {
                assert(s[i - from] == text[i as int]);
            }
        }
        assert(s.take(i - from) == whole_part(s));
        // The places behind the point.
        let ghost f = fraction_part(s);
        let mut places: u64 = 0;
        let mut k: usize = 0;
        assert(forall|j: int| 0 <= j < f.len() ==> is_digit(#[trigger] f[j])) by {
            assert forall|j: int| 0 <= j < f.len() implies is_digit(#[trigger] f[j]) by {
                assert(f[j] == s[dot + 1 + j]);
            }
        }
        while k < FRACTION_DIGITS
            invariant
                from <= i <= to <= text.len(),
                s == text@.subrange(from as int, to as int),
                i - from == dot_index(s),
                f == fraction_part(s),
                forall|j: int| 0 <= j < f.len() ==> is_digit(#[trigger] f[j]),
                0 <= k <= FRACTION_DIGITS,
                places == fraction_units(f, k as int),
            decreases FRACTION_DIGITS - k,
        {
            proof {
                lemma_fraction_units_bounds(f, k as int);
            }
            let d: u64 = if i < to && k < to - i - 1 {
                let c = text[i + 1 + k];
                assert(c == f[k as int]);
                (c as u32 - '0' as u32) as u64
            } else {
                0
            };
            assert(d == fraction_digit(f, k as int));
            places = places * 10 + d;
            k += 1;
        }
        proof {
            lemma_fraction_units_bounds(f, 6);
        }
        let carry: u64 = if i < to && FRACTION_DIGITS < to - i - 1 {
            let c = text[i + 1 + FRACTION_DIGITS];
            assert(c == f[FRACTION_DIGITS as int]);
            if c >= '5' {
                1
            } else {
                0
            }
        } else {
            0
        };
        assert(carry == if fraction_digit(f, FRACTION_DIGITS as int) >= 5 {
            1int
        } else {
            0int
        });
        if too_large {
            None
        } else {
            let total: u128 = (whole as u128) * (UNITS_PER_ONE as u128) + (places as u128) + (
            carry as u128);
            signed(total, false)
        }
    }

    /// The text of the number.
    pub fn to_text(&self) -> (s: String)
        ensures
            s@ == number_text(self.units as int),
    {
        let m: u128 = magnitude(self.units);
        let mut s = String::new();
        if self.units < 0 {
            s.push('-');
        }
        let ghost sign = s@;
        let whole: u64 = (m / (UNITS_PER_ONE as u128)) as u64;
        let fraction: u64 = (m % (UNITS_PER_ONE as u128)) as u64;
        push_nat(&mut s, whole);
        if fraction != 0 {
            s.push('.');
            push_fraction(&mut s, fraction, FRACTION_DIGITS);
        }
        assert(s@ =~= sign + magnitude_text(m as int));
        s
    }
}

/// A literal denotes no negative number.
pub proof fn lemma_literal_units_nonneg(s: Seq<char>)
    requires
        is_literal(s),
    ensures
        literal_units(s) >= 0,
{
    lemma_dot_index(s);
    let whole = whole_part(s);
    let f = fraction_part(s);
    assert forall|i: int| 0 <= i < whole.len() implies is_digit(#[trigger] whole[i]) by {
        assert(whole[i] == s[i]);
    }
    lemma_digits_value_nonneg(whole);
    assert forall|i: int| 0 <= i < f.len() implies is_digit(#[trigger] f[i]) by {
        assert(f[i] == s[dot_index(s) + 1 + i]);
    }
    lemma_fraction_units_bounds(f, 6);
    assert(digits_value(whole) * 1_000_000 >= 0);
}

/// Whether a literal denotes a whole number: every digit behind its point,
/// if it has any, is zero.
pub open spec fn is_whole_literal(s: Seq<char>) -> bool {
    forall|i: int| 0 <= i < fraction_part(s).len() ==> #[trigger] fraction_part(s)[i] == '0'
}

/// A fraction of zeros is zero.
proof fn lemma_zero_fraction(f: Seq<char>, places: int)
    requires
        forall|i: int| 0 <= i < f.len() ==> #[trigger] f[i] == '0',
    ensures
        fraction_units(f, places) == 0,
        fraction_digit(f, places) == 0,
    decreases places,
{
    if places > 0 {
        lemma_zero_fraction(f, places - 1);
    }
}

/// Rounding gives back the number of every literal that denotes a whole
/// number.
pub proof fn rounding_keeps_whole_literals(s: Seq<char>)
    requires
        is_literal(s),
        is_whole_literal(s),
    ensures
        rounded_units(literal_units(s)) == literal_units(s),
        literal_units(s) >= 0,
{
    let f = fraction_part(s);
    let w = digits_value(whole_part(s));
    lemma_dot_index(s);
    lemma_zero_fraction(f, 6);
    assert forall|i: int| 0 <= i < whole_part(s).len() implies is_digit(
        #[trigger] whole_part(s)[i],
    ) by {
        assert(whole_part(s)[i] == s[i]);
    }
    lemma_digits_value_nonneg(whole_part(s));
    assert(literal_units(s) == w * 1_000_000);
    assert((w * 1_000_000) / 1_000_000 == w && (w * 1_000_000) % 1_000_000 == 0) by (
    nonlinear_arith)
        requires
            w >= 0,
    ;
}

/// The index of the first point lies inside the text or at its end, and no point
/// stands before it.
pub proof fn lemma_dot_index(s: Seq<char>)
    ensures
        0 <= dot_index(s) <= s.len(),
        dot_index(s) < s.len() ==> s[dot_index(s)] == '.',
        forall|j: int| 0 <= j < dot_index(s) ==> s[j] != '.',
    decreases s.len(),
{
    if s.len() == 0 || s[0] == '.' {
    } else {
        let t = s.drop_first();
        lemma_dot_index(t);
        assert forall|j: int| 0 <= j < dot_index(s) implies s[j] != '.' by {
            if j > 0 {
                assert(s[j] == t[j - 1]);
            }
        }
    }
}

/// The digit that stands for `d`.
pub fn digit_of(d: u8) -> (c: char)
    requires
        d <= 9,
    ensures
        c == digit_char(d as int),
{
    (d + 48u8) as char
}

/// Appends the decimal numeral of `n`.
pub fn push_nat(s: &mut String, n: u64)
    ensures
        final(s)@ == old(s)@ + nat_text(n as int),
    decreases n,
{
    if n < 10 {
        s.push(digit_of(n as u8));
        assert(s@ =~= old(s)@ + nat_text(n as int));
    } else {
        push_nat(s, n / 10);
        s.push(digit_of((n % 10) as u8));
        assert(s@ =~= old(s)@ + nat_text(n as int));
    }
}

/// Appends `f` written with exactly `width` digits.
fn push_padded(s: &mut String, f: u64, width: usize)
    ensures
        final(s)@ == old(s)@ + padded_text(f as int, width as int),
    decreases width,
{
    if width > 0 {
        push_padded(s, f / 10, width - 1);
        s.push(digit_of((f % 10) as u8));
    }
    assert(s@ =~= old(s)@ + padded_text(f as int, width as int));
}

/// Appends the places of the fraction `f`, without trailing zeros.
fn push_fraction(s: &mut String, f: u64, width: usize)
    ensures
        final(s)@ == old(s)@ + fraction_text(f as int, width as int),
    decreases width,
{
    if width == 0 {
        assert(s@ =~= old(s)@ + fraction_text(f as int, width as int));
    } else if f % 10 == 0 {
        push_fraction(s, f / 10, width - 1);
    } else {
        push_padded(s, f, width);
    }
}

} // verus!
