//! The numbers that prices, sizes, volumes and rates are made of.
//!
//! The rules of this crate add, compare and round such numbers but never look
//! inside them, so they are written once over [`Quantity`]. [`Decimal`] is the
//! exact fixed-point instance.

use vstd::prelude::*;
use vstd::string::*;

use crate::numeral;
use crate::text;

verus! {

/// A number type. Every operation is a function of its arguments alone: each
/// executable method returns what the specification method beside it says.
/// What the specification methods are is left to the implementation.
pub trait Quantity: Copy {
    closed spec fn zero_spec() -> Self {
        arbitrary()
    }

    closed spec fn highest_spec() -> Self {
        arbitrary()
    }

    closed spec fn ratio_spec(numerator: i64, denominator: i64) -> Self {
        arbitrary()
    }

    closed spec fn from_int_spec(n: i128) -> Self {
        arbitrary()
    }

    closed spec fn parse_spec(s: Seq<char>) -> Option<Self> {
        arbitrary()
    }

    closed spec fn plus_spec(self, other: Self) -> Self {
        arbitrary()
    }

    closed spec fn minus_spec(self, other: Self) -> Self {
        arbitrary()
    }

    closed spec fn times_spec(self, other: Self) -> Self {
        arbitrary()
    }

    closed spec fn over_spec(self, other: Self) -> Self {
        arbitrary()
    }

    closed spec fn magnitude_spec(self) -> Self {
        arbitrary()
    }

    closed spec fn lesser_spec(self, other: Self) -> Self {
        arbitrary()
    }

    closed spec fn below_spec(self, other: Self) -> bool {
        arbitrary()
    }

    closed spec fn at_most_spec(self, other: Self) -> bool {
        arbitrary()
    }

    closed spec fn rounded_spec(self, low: i128, high: i128) -> i128 {
        arbitrary()
    }

    closed spec fn truncated_spec(self, low: i128, high: i128) -> i128 {
        arbitrary()
    }

    closed spec fn tenths_spec(self) -> Seq<char> {
        arbitrary()
    }

    /// The number 0.
    fn zero() -> (r: Self)
        ensures
            r == Self::zero_spec(),
    ;

    /// The largest number of the type.
    fn highest() -> (r: Self)
        ensures
            r == Self::highest_spec(),
    ;

    /// `numerator / denominator`, rounded as the type rounds a quotient.
    fn ratio(numerator: i64, denominator: i64) -> (r: Self)
        requires
            denominator > 0,
        ensures
            r == Self::ratio_spec(numerator, denominator),
    ;

    /// The integer `n`, as far as the type holds it.
    fn from_int(n: i128) -> (r: Self)
        ensures
            r == Self::from_int_spec(n),
    ;

    /// `n` hundredths. Taken a hundredfold and rounded, they are `n` again, up to
    /// 99 of them.
    fn hundredths(n: u16) -> (r: Self)
        ensures
            r == Self::from_int_spec(n as i128).over_spec(Self::from_int_spec(100)),
            n <= 99 ==> r.times_spec(Self::from_int_spec(100)).rounded_spec(0, 0xffff) == n,
    ;

    /// Reads a number written in decimal, with a power of ten behind it if
    /// there is one.
    fn parse(s: &str) -> (r: Option<Self>)
        ensures
            r == Self::parse_spec(s@),
    ;

    /// The sum of the two numbers.
    fn plus(self, other: Self) -> (r: Self)
        ensures
            r == self.plus_spec(other),
    ;

    /// This number less the other.
    fn minus(self, other: Self) -> (r: Self)
        ensures
            r == self.minus_spec(other),
    ;

    /// The product of the two numbers.
    fn times(self, other: Self) -> (r: Self)
        ensures
            r == self.times_spec(other),
    ;

    /// This number divided by the other.
    fn over(self, other: Self) -> (r: Self)
        ensures
            r == self.over_spec(other),
    ;

    /// The absolute value.
    fn magnitude(self) -> (r: Self)
        ensures
            r == self.magnitude_spec(),
    ;

    /// The smaller of the two numbers.
    fn lesser(self, other: Self) -> (r: Self)
        ensures
            r == self.lesser_spec(other),
    ;

    /// Whether this number is less than the other.
    fn below(self, other: Self) -> (r: bool)
        ensures
            r == self.below_spec(other),
    ;

    /// Whether this number is less than the other or equal to it.
    fn at_most(self, other: Self) -> (r: bool)
        ensures
            r == self.at_most_spec(other),
    ;

    /// The nearest integer, halves away from zero, brought into `low..=high`.
    fn rounded(self, low: i128, high: i128) -> (r: i128)
        requires
            low <= 0 <= high,
        ensures
            r == self.rounded_spec(low, high),
            low <= r <= high,
    ;

    /// The integer part, brought into `low..=high`.
    fn truncated(self, low: i128, high: i128) -> (r: i128)
        requires
            low <= 0 <= high,
        ensures
            r == self.truncated_spec(low, high),
            low <= r <= high,
    ;

    /// The number in decimal, with one decimal place.
    fn tenths(self) -> (r: String)
        ensures
            r@ == self.tenths_spec(),
    ;
}

/// Millionths written with one decimal place, halves away from zero.
pub open spec fn tenths_text(units: int) -> Seq<char> {
    let m = if units < 0 {
        -units
    } else {
        units
    };
    let tenths = (m + 50_000) / 100_000;
    let sign = if units < 0 {
        seq!['-']
    } else {
        Seq::<char>::empty()
    };
    sign + text::decimal_text((tenths / 10) as nat) + seq!['.'] + text::decimal_text(
        (tenths % 10) as nat,
    )
}

/// A fixed-point number with six decimal places. Results out of range are
/// brought to the nearest end of the range, and so is infinity; there is no
/// value for what is not a number, and a text that says so is not read. What is
/// written with up to six places is held exactly, so that half a cent is half a
/// cent, where a binary number may be just below it.
#[derive(Clone, Copy, Debug, PartialEq, Eq, Structural)]
pub struct Decimal {
    /// The number in millionths.
    pub units: i64,
}

/// `n` brought into the range of the units.
pub open spec fn clamp_units(n: int) -> int {
    if n < i64::MIN {
        i64::MIN as int
    } else if n > i64::MAX {
        i64::MAX as int
    } else {
        n
    }
}

/// `a / b` rounded toward zero, for a positive `b`.
pub open spec fn quotient(a: int, b: int) -> int {
    if a >= 0 {
        a / b
    } else {
        -((-a) / b)
    }
}

/// `n` brought into `low..=high`.
pub open spec fn clamp_between(n: int, low: int, high: int) -> int {
    if n < low {
        low
    } else if n > high {
        high
    } else {
        n
    }
}

fn clamp(n: i128) -> (r: i64)
    ensures
        r == clamp_units(n as int),
{
    if n < i64::MIN as i128 {
        i64::MIN
    } else if n > i64::MAX as i128 {
        i64::MAX
    } else {
        n as i64
    }
}

fn divide(a: i128, b: i128) -> (r: i128)
    requires
        b > 0,
        a > i128::MIN,
    ensures
        r == quotient(a as int, b as int),
        a >= 0 ==> 0 <= r <= a,
        a < 0 ==> a <= r <= 0,
{
    if a >= 0 {
        assert(a / b <= a) by (nonlinear_arith)
            requires
                a >= 0,
                b > 0,
        ;
        assert(a / b >= 0) by (nonlinear_arith)
            requires
                a >= 0,
                b > 0,
        ;
        a / b
    } else {
        let m: i128 = -a;
        assert(m / b <= m) by (nonlinear_arith)
            requires
                m >= 0,
                b > 0,
        ;
        assert(m / b >= 0) by (nonlinear_arith)
            requires
                m >= 0,
                b > 0,
        ;
        -(m / b)
    }
}

fn clamp_to(n: i128, low: i128, high: i128) -> (r: i128)
    requires
        low <= high,
    ensures
        r == clamp_between(n as int, low as int, high as int),
{
    if n < low {
        low
    } else if n > high {
        high
    } else {
        n
    }
}

impl Decimal {
    /// The number `units` millionths.
    pub fn from_units(units: i64) -> (r: Self)
        ensures
            r.units == units,
    {
        Decimal { units }
    }
}

impl Quantity for Decimal {
    open spec fn zero_spec() -> Self {
        Decimal { units: 0 }
    }

    open spec fn highest_spec() -> Self {
        Decimal { units: i64::MAX }
    }

    open spec fn ratio_spec(numerator: i64, denominator: i64) -> Self {
        Decimal { units: clamp_units(quotient(numerator * 1_000_000, denominator as int)) as i64 }
    }

    open spec fn from_int_spec(n: i128) -> Self {
        Decimal { units: clamp_units(clamp_units(n as int) * 1_000_000) as i64 }
    }

    open spec fn parse_spec(s: Seq<char>) -> Option<Self> {
        match numeral::millionths(s) {
            None => None,
            Some(units) => Some(Decimal { units }),
        }
    }

    open spec fn plus_spec(self, other: Self) -> Self {
        Decimal { units: clamp_units(self.units + other.units) as i64 }
    }

    open spec fn minus_spec(self, other: Self) -> Self {
        Decimal { units: clamp_units(self.units - other.units) as i64 }
    }

    open spec fn times_spec(self, other: Self) -> Self {
        Decimal { units: clamp_units(quotient(self.units * other.units, 1_000_000)) as i64 }
    }

    open spec fn over_spec(self, other: Self) -> Self {
        let scaled = self.units * 1_000_000;
        Decimal {
            units: if other.units == 0 {
                if self.units == 0 {
                    0
                } else if self.units > 0 {
                    i64::MAX
                } else {
                    i64::MIN
                }
            } else if other.units > 0 {
                clamp_units(quotient(scaled, other.units as int)) as i64
            } else {
                clamp_units(quotient(-scaled, -(other.units as int))) as i64
            },
        }
    }

    open spec fn magnitude_spec(self) -> Self {
        Decimal {
            units: if self.units >= 0 {
                self.units
            } else {
                clamp_units(-(self.units as int)) as i64
            },
        }
    }

    open spec fn lesser_spec(self, other: Self) -> Self {
        if other.units < self.units {
            other
        } else {
            self
        }
    }

    open spec fn below_spec(self, other: Self) -> bool {
        self.units < other.units
    }

    open spec fn at_most_spec(self, other: Self) -> bool {
        self.units <= other.units
    }

    open spec fn rounded_spec(self, low: i128, high: i128) -> i128 {
        let half = 500_000int;
        let shifted = if self.units >= 0 {
            self.units + half
        } else {
            self.units - half
        };
        clamp_between(quotient(shifted, 1_000_000), low as int, high as int) as i128
    }

    open spec fn truncated_spec(self, low: i128, high: i128) -> i128 {
        clamp_between(quotient(self.units as int, 1_000_000), low as int, high as int) as i128
    }

    fn zero() -> (r: Self) {
        Decimal { units: 0 }
    }

    fn highest() -> (r: Self) {
        Decimal { units: i64::MAX }
    }

    fn ratio(numerator: i64, denominator: i64) -> (r: Self) {
        let scaled: i128 = numerator as i128 * 1_000_000;
        Decimal { units: clamp(divide(scaled, denominator as i128)) }
    }

    fn from_int(n: i128) -> (r: Self) {
        Decimal { units: clamp(clamp(n) as i128 * 1_000_000) }
    }

    fn hundredths(n: u16) -> (r: Self) {
        let r: Decimal = Decimal::from_int(n as i128).over(Decimal::from_int(100));
        proof {
            let hundred = Decimal::from_int_spec(100);
            assert(hundred.units == 100_000_000);
            assert(r.units == n * 10_000);
            assert(r.units * hundred.units == n * 10_000 * 100_000_000);
            assert(r.times_spec(hundred).units == n * 1_000_000);
        }
        r
    }

    fn parse(s: &str) -> (r: Option<Self>) {
        match numeral::read_millionths(s) {
            None => None,
            Some(units) => Some(Decimal { units }),
        }
    }

    fn plus(self, other: Self) -> (r: Self) {
        Decimal { units: clamp(self.units as i128 + other.units as i128) }
    }

    fn minus(self, other: Self) -> (r: Self) {
        Decimal { units: clamp(self.units as i128 - other.units as i128) }
    }

    fn times(self, other: Self) -> (r: Self) {
        let (a, b): (i128, i128) = (self.units as i128, other.units as i128);
        assert(-0x4000_0000_0000_0000_0000_0000_0000_0000 <= a * b
            <= 0x4000_0000_0000_0000_0000_0000_0000_0000) by (nonlinear_arith)
            requires
                -0x8000_0000_0000_0000 <= a <= 0x7fff_ffff_ffff_ffff,
                -0x8000_0000_0000_0000 <= b <= 0x7fff_ffff_ffff_ffff,
        ;
        Decimal { units: clamp(divide(a * b, 1_000_000)) }
    }

    fn over(self, other: Self) -> (r: Self) {
        let scaled: i128 = self.units as i128 * 1_000_000;
        let units: i64 = if other.units == 0 {
            if self.units == 0 {
                0
            } else if self.units > 0 {
                i64::MAX
            } else {
                i64::MIN
            }
        } else if other.units > 0 {
            clamp(divide(scaled, other.units as i128))
        } else {
            clamp(divide(-scaled, -(other.units as i128)))
        };
        Decimal { units }
    }

    fn magnitude(self) -> (r: Self) {
        if self.units >= 0 {
            self
        } else {
            Decimal { units: clamp(-(self.units as i128)) }
        }
    }

    fn lesser(self, other: Self) -> (r: Self) {
        if other.units < self.units {
            other
        } else {
            self
        }
    }

    fn below(self, other: Self) -> (r: bool) {
        self.units < other.units
    }

    fn at_most(self, other: Self) -> (r: bool) {
        self.units <= other.units
    }

    fn rounded(self, low: i128, high: i128) -> (r: i128) {
        let half: i128 = 500_000;
        let units: i128 = self.units as i128;
        let shifted: i128 = if units >= 0 { units + half } else { units - half };
        clamp_to(divide(shifted, 1_000_000), low, high)
    }

    fn truncated(self, low: i128, high: i128) -> (r: i128) {
        clamp_to(divide(self.units as i128, 1_000_000), low, high)
    }

    open spec fn tenths_spec(self) -> Seq<char> {
        tenths_text(self.units as int)
    }

    fn tenths(self) -> String {
        proof {
            reveal_strlit("-");
            reveal_strlit("");
            reveal_strlit(".");
        }
        let m: u64 = if self.units < 0 { (-(self.units as i128)) as u64 } else { self.units as u64 };
        let t: u64 = (m + 50_000) / 100_000;
        let mut s: String = if self.units < 0 { "-".to_string() } else { "".to_string() };
        s.append(text::decimal(t / 10).as_str());
        s.append(".");
        s.append(text::decimal(t % 10).as_str());
        assert(s@ =~= tenths_text(self.units as int));
        s
    }
}

/// Decimals add and subtract exactly, where the result is within range.
pub proof fn law_decimals_add_exactly(a: Decimal, b: Decimal)
    ensures
        i64::MIN <= a.units + b.units <= i64::MAX ==> a.plus_spec(b).units == a.units + b.units,
        i64::MIN <= a.units - b.units <= i64::MAX ==> a.minus_spec(b).units == a.units - b.units,
{
}

/// A product of decimals that are not negative is the largest number of
/// millionths that does not exceed it, where it is within range; a sign carries
/// over.
pub proof fn law_decimals_multiply(a: Decimal, b: Decimal, negated: Decimal)
    requires
        a.units >= 0,
        b.units >= 0,
        a.units * b.units <= i64::MAX * 1_000_000,
        negated.units == -a.units,
    ensures
        a.times_spec(b).units * 1_000_000 <= a.units * b.units < (a.times_spec(b).units + 1)
            * 1_000_000,
        negated.times_spec(b).units == -a.times_spec(b).units,
{
    let (x, y) = (a.units as int, b.units as int);
    assert(x * y >= 0) by (nonlinear_arith)
        requires
            x >= 0,
            y >= 0,
    ;
    assert((-x) * y == -(x * y)) by (nonlinear_arith);
    assert(x * y / 1_000_000 <= i64::MAX);
}

/// A quotient of decimals that are not negative is the largest number of
/// millionths that does not exceed it, where it is within range; a sign carries
/// over.
pub proof fn law_decimals_divide(a: Decimal, b: Decimal, negated: Decimal)
    requires
        a.units >= 0,
        b.units > 0,
        a.units * 1_000_000 <= i64::MAX * b.units,
        negated.units == -a.units,
    ensures
        a.over_spec(b).units * b.units <= a.units * 1_000_000 < (a.over_spec(b).units + 1)
            * b.units,
        negated.over_spec(b).units == -a.over_spec(b).units,
{
    let n = a.units * 1_000_000;
    let d = b.units as int;
    let q = n / d;
    assert(q * d <= n < (q + 1) * d && q >= 0) by (nonlinear_arith)
        requires
            q == n / d,
            d > 0,
            n >= 0,
    ;
    assert(q <= i64::MAX) by (nonlinear_arith)
        requires
            q * d <= n,
            n <= i64::MAX * d,
            d > 0,
    ;
}

/// Decimals are ordered as the numbers that they are, and the smaller of two is
/// one of them.
pub proof fn law_decimals_are_ordered(a: Decimal, b: Decimal)
    ensures
        a.below_spec(b) == (a.units < b.units),
        a.at_most_spec(b) == (a.units <= b.units),
        a.lesser_spec(b).units == if a.units <= b.units {
            a.units
        } else {
            b.units
        },
        a.units > i64::MIN ==> a.magnitude_spec().units >= 0 && (a.magnitude_spec().units == a.units
            || a.magnitude_spec().units == -a.units),
        a.at_most_spec(Decimal::highest_spec()),
        Decimal::zero_spec().units == 0,
{
}

/// Rounding gives the nearest integer, halves away from zero, brought into the
/// range.
pub proof fn law_decimals_round_to_nearest(a: Decimal, low: i128, high: i128)
    requires
        low <= 0 <= high,
    ensures
        ({
            let r = a.rounded_spec(low, high);
            &&& low <= r <= high
            &&& low < r < high && a.units >= 0 ==> r * 1_000_000 - 500_000 <= a.units < r * 1_000_000
                + 500_000
            &&& low < r < high && a.units < 0 ==> r * 1_000_000 - 500_000 < a.units <= r * 1_000_000
                + 500_000
            &&& r == high && high > 0 ==> a.units >= high * 1_000_000 - 500_000
            &&& r == low && low < 0 ==> a.units <= low * 1_000_000 + 500_000
        }),
{
}

/// Truncating gives the integer part, brought into the range.
pub proof fn law_decimals_truncate_toward_zero(a: Decimal, low: i128, high: i128)
    requires
        low <= 0 <= high,
    ensures
        ({
            let r = a.truncated_spec(low, high);
            &&& low <= r <= high
            &&& low < r < high && a.units >= 0 ==> r * 1_000_000 <= a.units < (r + 1) * 1_000_000
            &&& low < r < high && a.units < 0 ==> (r - 1) * 1_000_000 < a.units <= r * 1_000_000
            &&& r == high && high > 0 ==> a.units >= high * 1_000_000
            &&& r == low && low < 0 ==> a.units <= low * 1_000_000
        }),
{
}

/// Integers are held exactly, where they are within range, and a ratio that is
/// not negative is the largest number of millionths that does not exceed it.
pub proof fn law_decimals_from_integers(n: i128, numerator: i64, denominator: i64)
    requires
        0 <= numerator <= 1_000_000_000_000,
        denominator > 0,
    ensures
        -9_000_000_000_000 <= n <= 9_000_000_000_000 ==> Decimal::from_int_spec(n).units == n
            * 1_000_000,
        Decimal::ratio_spec(numerator, denominator).units * denominator <= numerator * 1_000_000
            < (Decimal::ratio_spec(numerator, denominator).units + 1) * denominator,
{
    let m = numerator * 1_000_000;
    let d = denominator as int;
    let q = m / d;
    assert(q * d <= m < (q + 1) * d && 0 <= q <= m) by (nonlinear_arith)
        requires
            q == m / d,
            d > 0,
            m >= 0,
    ;
}

/// A decimal with one place, without its point, is the nearest number of tenths,
/// halves away from zero.
pub proof fn law_tenths_are_nearest(units: int)
    ensures
        ({
            let t = tenths_text(units);
            &&& t.len() >= 3
            &&& t[t.len() - 2] == '.'
            &&& text::integer_of(t.take(t.len() - 2) + t.skip(t.len() - 1)) matches Some(n) && (
            if units >= 0 {
                n * 100_000 - 50_000 <= units < n * 100_000 + 50_000
            } else {
                n * 100_000 - 50_000 < units <= n * 100_000 + 50_000
            })
        }),
{
    let t = tenths_text(units);
    let m = if units < 0 {
        -units
    } else {
        units
    };
    let tenths = (m + 50_000) / 100_000;
    let whole = text::decimal_text((tenths / 10) as nat);
    let last = text::digit_char(tenths % 10);
    text::law_decimal_reads_back((tenths / 10) as nat);
    assert(text::decimal_text((tenths % 10) as nat) =~= seq![last]);
    let digits = whole.push(last);
    assert(digits.drop_last() =~= whole);
    assert forall|i: int| 0 <= i < digits.len() implies '0' <= #[trigger] digits[i] <= '9' by {
        if i < whole.len() {
            assert(digits[i] == whole[i]);
        }
    }
    let joined = t.take(t.len() - 2) + t.skip(t.len() - 1);
    if units < 0 {
        assert(joined =~= seq!['-'] + digits);
        assert(joined.skip(1) =~= digits);
    } else {
        assert(joined =~= digits);
        assert('0' <= digits[0] <= '9');
    }
    assert(text::digits_value(digits) == tenths);
}

} // verus!
