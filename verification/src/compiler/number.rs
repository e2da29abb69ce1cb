//! Numbers of the language: exact decimal fractions with six fractional
//! digits, held as a signed 64-bit count of millionths.
//!
//! Sums, differences, products and quotients are computed exactly and then
//! cut toward zero to a whole number of millionths. A result that does not
//! fit in 64 bits is not produced: the operation returns `None`.

use crate::compiler::text::{append_decimal, chars_of, decimal, digit_char, digit_of, push_char};
use vstd::prelude::*;
use vstd::string::*;

verus! {

/// How many millionths make one.
pub const SCALE: u64 = 1_000_000;

/// Above any count of millionths that a number can hold.
pub const CEILING: u128 = 100_000_000_000_000_000_000_000_000;

/// A number: a count of millionths.
#[derive(Debug, Clone, Copy, PartialEq, Eq, Structural)]
pub struct Number {
    pub millionths: i64,
}

impl View for Number {
    type V = int;

    open spec fn view(&self) -> int {
        self.millionths as int
    }
}

/// Whether a count of millionths fits in a number.
pub open spec fn in_range(v: int) -> bool {
    i64::MIN <= v <= i64::MAX
}

/// The absolute value of `v`.
pub open spec fn magnitude(v: int) -> nat {
    if v < 0 {
        (-v) as nat
    } else {
        v as nat
    }
}

/// `a / b` cut toward zero; zero where `b` is zero.
pub open spec fn quotient(a: int, b: int) -> int {
    if b == 0 {
        0
    } else if (a < 0) == (b < 0) {
        (magnitude(a) / magnitude(b)) as int
    } else {
        -((magnitude(a) / magnitude(b)) as int)
    }
}

/// The product of two counts of millionths, as a count of millionths.
pub open spec fn product(a: int, b: int) -> int {
    quotient(a * b, SCALE as int)
}

/// The ratio of two counts of millionths, as a count of millionths.
pub open spec fn ratio(a: int, b: int) -> int {
    quotient(a * SCALE, b)
}

/// `Some(v)` where `v` fits in a number.
pub open spec fn checked(v: int) -> Option<int> {
    if in_range(v) {
        Some(v)
    } else {
        None
    }
}

/// Ten to the power `n`.
pub open spec fn power_of_ten(n: nat) -> nat
    decreases n,
{
    if n == 0 {
        1
    } else {
        10 * power_of_ten((n - 1) as nat)
    }
}

/// The first digits of `rest` written with `width` digits, up to its last
/// digit that is not zero.
pub open spec fn fraction_digits(rest: nat, width: nat) -> Seq<char>
    decreases width,
{
    if rest == 0 || width == 0 {
        Seq::<char>::empty()
    } else {
        let unit = power_of_ten((width - 1) as nat);
        seq![digit_char(rest / unit)] + fraction_digits(rest % unit, (width - 1) as nat)
    }
}

/// How a number is written: an optional minus sign, the whole part in
/// decimal and, unless the number is whole, a point and the fractional
/// digits without trailing zeros.
pub open spec fn number_text(v: int) -> Seq<char> {
    let whole = magnitude(v) / (SCALE as nat);
    let part = magnitude(v) % (SCALE as nat);
    (if v < 0 {
        seq!['-']
    } else {
        Seq::<char>::empty()
    }) + decimal(whole) + (if part == 0 {
        Seq::<char>::empty()
    } else {
        seq!['.'] + fraction_digits(part, 6)
    })
}

/// Whether `c` is a decimal digit.
pub open spec fn is_digit(c: char) -> bool {
    '0' <= c <= '9'
}

/// The number that the digit `c` stands for.
pub open spec fn digit_value(c: char) -> nat {
    (c as nat - '0' as nat) as nat
}

/// Whether every character of `s` is a decimal digit.
pub open spec fn all_digits(s: Seq<char>) -> bool {
    forall|i: int| 0 <= i < s.len() ==> is_digit(#[trigger] s[i])
}

/// The number that a run of decimal digits writes.
pub open spec fn digits_value(s: Seq<char>) -> nat
    decreases s.len(),
{
    if s.len() == 0 {
        0
    } else {
        digits_value(s.drop_last()) * 10 + digit_value(s.last())
    }
}

/// The index of the first point in `s`, or the length of `s` if it has none.
pub open spec fn point_position(s: Seq<char>) -> int
    decreases s.len(),
{
    if s.len() == 0 {
        0
    } else if s[0] == '.' {
        0
    } else {
        1 + point_position(s.drop_first())
    }
}

/// The millionths that the digits after a point stand for; digits beyond the
/// sixth are dropped.
pub open spec fn fraction_value(s: Seq<char>) -> nat {
    if s.len() >= 6 {
        digits_value(s.take(6))
    } else {
        digits_value(s) * power_of_ten((6 - s.len()) as nat)
    }
}

/// The count of millionths that a numeral stands for: digits, optionally
/// followed by a point and more digits. `None` for any other text and for a
/// numeral too large for a number.
pub open spec fn numeral_value(text: Seq<char>) -> Option<int> {
    let p = point_position(text);
    let whole = text.take(p);
    if whole.len() == 0 || !all_digits(whole) {
        None
    } else if p == text.len() {
        checked(digits_value(whole) * SCALE)
    } else {
        let part = text.skip(p + 1);
        if part.len() == 0 || !all_digits(part) {
            None
        } else {
            checked(digits_value(whole) * SCALE + fraction_value(part))
        }
    }
}

fn magnitude_of(v: i64) -> (m: u64)
    ensures
        m == magnitude(v as int),
{
    if v >= 0 {
        v as u64
    } else {
        ((-(v + 1)) as u64) + 1
    }
}

fn with_sign(negative: bool, m: u128) -> (r: Option<Number>)
    ensures
        r matches Some(n) ==> in_range(if negative { -(m as int) } else { m as int }) && n@ == (if negative {
            -(m as int)
        } else {
            m as int
        }),
        r is None ==> !in_range(if negative { -(m as int) } else { m as int }),
{
    if negative {
        if m > 0x8000_0000_0000_0000u128 {
            None
        } else if m == 0x8000_0000_0000_0000u128 {
            Some(Number { millionths: i64::MIN })
        } else {
            Some(Number { millionths: -(m as i64) })
        }
    } else {
        if m > 0x7fff_ffff_ffff_ffffu128 {
            None
        } else {
            Some(Number { millionths: m as i64 })
        }
    }
}

fn ten_to(n: u32) -> (r: u64)
    requires
        n <= 6,
    ensures
        r == power_of_ten(n as nat),
{
    proof {
        lemma_powers();
    }
    if n == 0 {
        1
    } else if n == 1 {
        10
    } else if n == 2 {
        100
    } else if n == 3 {
        1_000
    } else if n == 4 {
        10_000
    } else if n == 5 {
        100_000
    } else {
        1_000_000
    }
}

impl Number {
    /// The whole number `n`, if it fits.
    pub fn from_integer(n: i64) -> (r: Option<Number>)
        ensures
            r matches Some(v) ==> v@ == n * SCALE,
            r is Some <==> in_range(n * SCALE),
    {
        let m = magnitude_of(n);
        assert(m as u128 * 1_000_000u128 <= u128::MAX) by (nonlinear_arith)
            requires
                m <= 0x8000_0000_0000_0000u64,
        ;
        assert(n < 0 ==> n * 1_000_000 == -(m * 1_000_000)) by (nonlinear_arith)
            requires
                n < 0 ==> m == -n,
        ;
        with_sign(n < 0, (m as u128) * 1_000_000u128)
    }

    /// Whether the number is zero.
    pub fn is_zero(&self) -> (r: bool)
        ensures
            r == (self@ == 0),
    {
        self.millionths == 0
    }

    /// `self + other`, if it fits.
    pub fn add(&self, other: &Number) -> (r: Option<Number>)
        ensures
            r matches Some(v) ==> v@ == self@ + other@,
            r is Some <==> in_range(self@ + other@),
    {
        let wide: i128 = self.millionths as i128 + other.millionths as i128;
        if wide < i64::MIN as i128 || wide > i64::MAX as i128 {
            None
        } else {
            Some(Number { millionths: wide as i64 })
        }
    }

    /// `self - other`, if it fits.
    pub fn sub(&self, other: &Number) -> (r: Option<Number>)
        ensures
            r matches Some(v) ==> v@ == self@ - other@,
            r is Some <==> in_range(self@ - other@),
    {
        let wide: i128 = self.millionths as i128 - other.millionths as i128;
        if wide < i64::MIN as i128 || wide > i64::MAX as i128 {
            None
        } else {
            Some(Number { millionths: wide as i64 })
        }
    }

    /// `self * other` cut toward zero to millionths, if it fits.
    pub fn mul(&self, other: &Number) -> (r: Option<Number>)
        ensures
            r matches Some(v) ==> v@ == product(self@, other@),
            r is Some <==> in_range(product(self@, other@)),
    {
        let a = magnitude_of(self.millionths);
        let b = magnitude_of(other.millionths);
        let negative = (self.millionths < 0) != (other.millionths < 0);
        assert(a as u128 * b as u128 <= u128::MAX) by (nonlinear_arith)
            requires
                a <= 0x8000_0000_0000_0000u64,
                b <= 0x8000_0000_0000_0000u64,
        ;
        let wide: u128 = (a as u128) * (b as u128);
        proof {
            let x = self@;
            let y = other@;
            assert(magnitude(x * y) == magnitude(x) * magnitude(y)) by (nonlinear_arith);
            assert((x * y < 0) ==> ((x < 0) != (y < 0))) by (nonlinear_arith);
            assert(((x < 0) != (y < 0)) && x != 0 && y != 0 ==> x * y < 0) by (nonlinear_arith);
            assert(x == 0 || y == 0 ==> x * y == 0) by (nonlinear_arith);
        }
        with_sign(negative && wide / 1_000_000u128 != 0, wide / 1_000_000u128)
    }

    /// `self / other` cut toward zero to millionths, if `other` is not zero
    /// and the result fits.
    pub fn div(&self, other: &Number) -> (r: Option<Number>)
        ensures
            r matches Some(v) ==> v@ == ratio(self@, other@),
            r is Some <==> other@ != 0 && in_range(ratio(self@, other@)),
    {
        if other.millionths == 0 {
            return None;
        }
        let a = magnitude_of(self.millionths);
        let b = magnitude_of(other.millionths);
        let negative = (self.millionths < 0) != (other.millionths < 0);
        assert(a as u128 * 1_000_000u128 <= u128::MAX) by (nonlinear_arith)
            requires
                a <= 0x8000_0000_0000_0000u64,
        ;
        let wide: u128 = (a as u128) * 1_000_000u128;
        proof {
            let x = self@;
            assert(magnitude(x * 1_000_000) == magnitude(x) * 1_000_000) by (nonlinear_arith);
            assert((x * 1_000_000 < 0) == (x < 0)) by (nonlinear_arith);
        }
        with_sign(negative && wide / (b as u128) != 0, wide / (b as u128))
    }

    /// `-self`, if it fits.
    pub fn negate(&self) -> (r: Option<Number>)
        ensures
            r matches Some(v) ==> v@ == -self@,
            r is Some <==> in_range(-self@),
    {
        if self.millionths == i64::MIN {
            None
        } else {
            Some(Number { millionths: -self.millionths })
        }
    }

    /// Whether `self` is less than `other`.
    pub fn less(&self, other: &Number) -> (r: bool)
        ensures
            r == (self@ < other@),
    {
        self.millionths < other.millionths
    }

    /// Whether `self` is at most `other`.
    pub fn less_equal(&self, other: &Number) -> (r: bool)
        ensures
            r == (self@ <= other@),
    {
        self.millionths <= other.millionths
    }

    /// How the number is written.
    pub fn to_string(&self) -> (s: String)
        ensures
            s@ == number_text(self@),
    {
        let m = magnitude_of(self.millionths);
        let whole: u64 = m / SCALE;
        let part: u64 = m % SCALE;
        let mut s = String::new();
        if self.millionths < 0 {
            push_char(&mut s, '-');
        }
        append_decimal(&mut s, whole);
        if part != 0 {
            push_char(&mut s, '.');
            let ghost head = s@;
            let mut rest: u64 = part;
            let mut width: u32 = 6;
            proof {
                lemma_powers();
            }
            while rest != 0 && width != 0
                invariant
                    width <= 6,
                    rest < power_of_ten(width as nat),
                    s@ + fraction_digits(rest as nat, width as nat) == head + fraction_digits(
                        part as nat,
                        6,
                    ),
                decreases width,
            {
                let ghost before = s@;
                let unit = ten_to(width - 1);
                assert(rest / unit < 10 && rest % unit < unit) by (nonlinear_arith)
                    requires
                        unit > 0,
                        rest < 10 * unit,
                ;
                push_char(&mut s, digit_of((rest / unit) as u8));
                assert(before.push(digit_char((rest / unit) as nat)) + fraction_digits(
                    (rest % unit) as nat,
                    (width - 1) as nat,
                ) =~= before + fraction_digits(rest as nat, width as nat));
                rest = rest % unit;
                width = width - 1;
            }
            assert(s@ + Seq::<char>::empty() =~= s@);
        }
        assert(s@ =~= number_text(self@));
        s
    }

    /// Reads a numeral.
    #[verifier::loop_isolation(false)]
    pub fn parse(text: &str) -> (r: Option<Number>)
        ensures
            r matches Some(v) ==> numeral_value(text@) == Some(v@),
            r is None ==> numeral_value(text@) is None,
    {
        let chars = chars_of(text);
        let n = chars.len();
        // the whole part
        let mut i: usize = 0;
        let mut whole: u128 = 0;
        assert(chars@.skip(0) =~= chars@);
        while i < n && chars[i] != '.'
            invariant
                i <= n,
                n == chars.len(),
                all_digits(chars@.take(i as int)),
                point_position(chars@) == i + point_position(chars@.skip(i as int)),
                whole <= CEILING,
                whole == if digits_value(chars@.take(i as int)) < CEILING {
                    digits_value(chars@.take(i as int))
                } else {
                    CEILING as nat
                },
            decreases n - i,
        {
            let c = chars[i];
            if !(c >= '0' && c <= '9') {
                proof {
                    lemma_point_after(chars@, i as int);
                    assert(chars@.take(point_position(chars@))[i as int] == c);
                }
                return None;
            }
            proof {
                assert(chars@.skip(i as int).drop_first() =~= chars@.skip(i + 1));
                assert(chars@.take(i + 1).drop_last() =~= chars@.take(i as int));
                assert(chars@.take(i + 1).last() == c);
            }
            let d: u128 = (c as u32 - '0' as u32) as u128;
            whole = if whole * 10 + d < CEILING {
                whole * 10 + d
            } else {
                CEILING
            };
            i += 1;
        }
        proof {
            if i < n {
                assert(chars@.skip(i as int)[0] == '.');
            }
            assert(point_position(chars@) == i);
        }
        if i == 0 {
            return None;
        }
        let mut part: u64 = 0;
        if i < n {
            // the digits after the point
            let start: usize = i + 1;
            let mut j: usize = start;
            let mut taken: u32 = 0;
            let ghost tail = chars@.skip(start as int);
            proof {
                lemma_powers();
            }
            while j < n
                invariant
                    start <= j <= n,
                    n == chars.len(),
                    tail == chars@.skip(start as int),
                    all_digits(tail.take(j - start)),
                    taken <= 6,
                    taken == if j - start < 6 {
                        j - start
                    } else {
                        6
                    },
                    part == digits_value(tail.take(taken as int)),
                    part < power_of_ten(taken as nat),
                decreases n - j,
            {
                let c = chars[j];
                if !(c >= '0' && c <= '9') {
                    assert(tail[j - start] == c);
                    return None;
                }
                let d: u64 = (c as u32 - '0' as u32) as u64;
                if taken < 6 {
                    proof {
                        assert(tail.take(taken + 1).drop_last() =~= tail.take(taken as int));
                        assert(tail.take(taken + 1).last() == c);
                    }
                    assert(part * 10 + d < power_of_ten((taken + 1) as nat)) by (nonlinear_arith)
                        requires
                            part < power_of_ten(taken as nat),
                            d < 10,
                            power_of_ten((taken + 1) as nat) == 10 * power_of_ten(taken as nat),
                    ;
                    assert(power_of_ten((taken + 1) as nat) <= 1_000_000) by {
                        assert(taken == 0 || taken == 1 || taken == 2 || taken == 3 || taken == 4
                            || taken == 5);
                    }
                    part = part * 10 + d;
                    taken = taken + 1;
                }
                j += 1;
            }
            assert(tail.take(n - start) =~= tail);
            if j == start {
                return None;
            }
            if taken < 6 {
                let unit = ten_to(6 - taken);
                assert(power_of_ten(taken as nat) * unit == 1_000_000) by {
                    assert(taken == 0 || taken == 1 || taken == 2 || taken == 3 || taken == 4
                        || taken == 5);
                }
                assert(part * unit < 1_000_000) by (nonlinear_arith)
                    requires
                        part < power_of_ten(taken as nat),
                        power_of_ten(taken as nat) * unit == 1_000_000,
                        unit > 0,
                ;
                part = part * unit;
            }
        } else {
            assert(chars@.take(n as int) =~= chars@);
        }
        if whole >= CEILING {
            return None;
        }
        assert(whole * 1_000_000 + part <= u128::MAX) by (nonlinear_arith)
            requires
                whole < CEILING,
                part < 1_000_000,
        ;
        with_sign(false, whole * 1_000_000u128 + part as u128)
    }
}

/// The point of `s` does not come before `i` if no point stands before `i`.
proof fn lemma_point_after(s: Seq<char>, i: int)
    requires
        0 <= i < s.len(),
        point_position(s) == i + point_position(s.skip(i)),
        s[i] != '.',
    ensures
        i < point_position(s) <= s.len(),
{
    assert(s.skip(i)[0] == s[i]);
    lemma_point_bound(s.skip(i).drop_first());
}

proof fn lemma_point_bound(s: Seq<char>)
    ensures
        0 <= point_position(s) <= s.len(),
    decreases s.len(),
{
    if s.len() > 0 && s[0] != '.' {
        lemma_point_bound(s.drop_first());
    }
}

proof fn lemma_powers()
    ensures
        power_of_ten(0) == 1,
        power_of_ten(1) == 10,
        power_of_ten(2) == 100,
        power_of_ten(3) == 1_000,
        power_of_ten(4) == 10_000,
        power_of_ten(5) == 100_000,
        power_of_ten(6) == 1_000_000,
{
    reveal_with_fuel(power_of_ten, 8);
}

} // verus!
