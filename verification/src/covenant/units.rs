//! Money in whole cents, and ratios in millionths. Nothing is rounded by
//! floating point.

use vstd::prelude::*;
use vstd::string::StrSliceExecFns;
use vstd::string::StringExecFns;

use crate::num;
use crate::text;

verus! {

/// Millionths per unit of a [`Ratio`].
pub const RATIO_SCALE: i128 = 1_000_000;

/// Money in cents.
#[derive(Debug, Clone, Copy, Default, PartialEq, Eq, PartialOrd, Ord, Structural)]
pub struct Cents(pub i128);

/// A ratio in millionths.
#[derive(Debug, Clone, Copy, Default, PartialEq, Eq, PartialOrd, Ord, Structural)]
pub struct Ratio(pub i128);

/// A text that is no amount in cents.
#[derive(Debug, Clone, PartialEq, Eq)]
pub struct CentsParseError(pub String);

/// A text that is no ratio.
#[derive(Debug, Clone, PartialEq, Eq)]
pub struct RatioParseError(pub String);

pub open spec fn in_i128(i: int) -> bool {
    i128::MIN <= i <= i128::MAX
}

impl core::ops::Add for Cents {
    type Output = Cents;

    fn add(self, rhs: Cents) -> Cents {
        Cents(self.0 + rhs.0)
    }
}

impl vstd::std_specs::ops::AddSpecImpl for Cents {
    open spec fn obeys_add_spec() -> bool {
        true
    }

    open spec fn add_req(self, rhs: Cents) -> bool {
        in_i128(self.0 + rhs.0)
    }

    open spec fn add_spec(self, rhs: Cents) -> Cents {
        Cents((self.0 + rhs.0) as i128)
    }
}

impl core::ops::Sub for Cents {
    type Output = Cents;

    fn sub(self, rhs: Cents) -> Cents {
        Cents(self.0 - rhs.0)
    }
}

impl vstd::std_specs::ops::SubSpecImpl for Cents {
    open spec fn obeys_sub_spec() -> bool {
        true
    }

    open spec fn sub_req(self, rhs: Cents) -> bool {
        in_i128(self.0 - rhs.0)
    }

    open spec fn sub_spec(self, rhs: Cents) -> Cents {
        Cents((self.0 - rhs.0) as i128)
    }
}

impl core::ops::Add for Ratio {
    type Output = Ratio;

    fn add(self, rhs: Ratio) -> Ratio {
        Ratio(self.0 + rhs.0)
    }
}

impl vstd::std_specs::ops::AddSpecImpl for Ratio {
    open spec fn obeys_add_spec() -> bool {
        true
    }

    open spec fn add_req(self, rhs: Ratio) -> bool {
        in_i128(self.0 + rhs.0)
    }

    open spec fn add_spec(self, rhs: Ratio) -> Ratio {
        Ratio((self.0 + rhs.0) as i128)
    }
}

impl core::ops::Sub for Ratio {
    type Output = Ratio;

    fn sub(self, rhs: Ratio) -> Ratio {
        Ratio(self.0 - rhs.0)
    }
}

impl vstd::std_specs::ops::SubSpecImpl for Ratio {
    open spec fn obeys_sub_spec() -> bool {
        true
    }

    open spec fn sub_req(self, rhs: Ratio) -> bool {
        in_i128(self.0 - rhs.0)
    }

    open spec fn sub_spec(self, rhs: Ratio) -> Ratio {
        Ratio((self.0 - rhs.0) as i128)
    }
}

impl core::ops::Mul<i128> for Ratio {
    type Output = Ratio;

    fn mul(self, rhs: i128) -> Ratio {
        Ratio(self.0 * rhs)
    }
}

impl vstd::std_specs::ops::MulSpecImpl<i128> for Ratio {
    open spec fn obeys_mul_spec() -> bool {
        true
    }

    open spec fn mul_req(self, rhs: i128) -> bool {
        in_i128(self.0 * rhs)
    }

    open spec fn mul_spec(self, rhs: i128) -> Ratio {
        Ratio((self.0 * rhs) as i128)
    }
}

/// A text split into its sign and what follows.
pub open spec fn signed_parts(s: Seq<char>) -> (bool, Seq<char>) {
    if s.len() > 0 && s[0] == '-' {
        (true, s.skip(1))
    } else if s.len() > 0 && s[0] == '+' {
        (false, s.skip(1))
    } else {
        (false, s)
    }
}

/// The value of a signed run of digits; nothing for any other text, and
/// where the value exceeds `i128`.
pub open spec fn cents_value(raw: Seq<char>) -> Option<int> {
    let (negative, digits) = signed_parts(text::trimmed(raw));
    let value: int = if negative {
        -(text::digits_value(digits) as int)
    } else {
        text::digits_value(digits) as int
    };
    if digits.len() == 0 || !text::all_digits(digits) || !in_i128(value) {
        None
    } else {
        Some(value)
    }
}

/// Where the first point stands in `s`, or the length of `s` without one.
pub open spec fn point_at(s: Seq<char>) -> int
    decreases s.len(),
{
    if s.len() == 0 || s[0] == '.' {
        0
    } else {
        1 + point_at(s.drop_first())
    }
}

/// The digits before the point.
pub open spec fn whole_part(s: Seq<char>) -> Seq<char> {
    s.take(point_at(s))
}

/// The digits behind the point.
pub open spec fn fraction_part(s: Seq<char>) -> Seq<char> {
    if point_at(s) < s.len() {
        s.skip(point_at(s) + 1)
    } else {
        Seq::empty()
    }
}

/// Ten to the power `n`.
pub open spec fn ten_to(n: int) -> int
    decreases n,
{
    if n <= 0 {
        1
    } else {
        10 * ten_to(n - 1)
    }
}

/// Up to six digits behind the point, in millionths.
pub open spec fn millionths(fraction: Seq<char>) -> int {
    text::digits_value(fraction) * ten_to(6 - fraction.len())
}

/// Whether a text, without its sign, is an exact decimal of at most six
/// digits behind the point. Digits before the point may be missing; a point
/// at the end is not allowed.
pub open spec fn is_decimal(s: Seq<char>) -> bool {
    &&& s.len() > 0
    &&& s.last() != '.'
    &&& text::all_digits(whole_part(s))
    &&& text::all_digits(fraction_part(s))
    &&& fraction_part(s).len() <= 6
    &&& text::digits_value(whole_part(s)) <= i128::MAX
}

/// The value of a decimal in millionths; nothing for any other text.
pub open spec fn ratio_value(raw: Seq<char>) -> Option<int> {
    let (negative, s) = signed_parts(text::trimmed(raw));
    let value = text::digits_value(whole_part(s)) * RATIO_SCALE + millionths(fraction_part(s));
    if !is_decimal(s) {
        None
    } else if negative {
        Some(-value)
    } else {
        Some(value)
    }
}

fn sign_of(chars: &Vec<char>) -> (r: (bool, usize))
    ensures
        r.1 <= chars.len(),
        signed_parts(chars@) == (r.0, chars@.skip(r.1 as int)),
{
    if chars.len() > 0 && chars[0] == '-' {
        (true, 1)
    } else if chars.len() > 0 && chars[0] == '+' {
        (false, 1)
    } else {
        assert(chars@.skip(0) =~= chars@);
        (false, 0)
    }
}

impl Cents {
    /// An amount of cents.
    pub fn from_cents(value: i128) -> (r: Cents)
        ensures
            r.0 == value,
    {
        Cents(value)
    }

    /// The amount.
    pub fn get(self) -> (r: i128)
        ensures
            r == self.0,
    {
        self.0
    }

    /// Read a signed run of digits.
    pub fn from_decimal_str(raw: &str) -> (r: Result<Cents, CentsParseError>)
        ensures
            (match r {
                Ok(c) => cents_value(raw@) == Some(c.0 as int),
                Err(e) => cents_value(raw@) is None && e.0@ == raw@,
            }),
    {
        let chars = text::chars_of(text::trim(raw));
        let (negative, from) = sign_of(&chars);
        let ghost digits = chars@.skip(from as int);
        assert(digits =~= chars@.subrange(from as int, chars.len() as int));
        if from == chars.len() || !text::only_digits(&chars, from, chars.len()) {
            return Err(CentsParseError(String::from_str(raw)));
        }
        let least: u128 = 170141183460469231731687303715884105728;
        let limit: u128 = if negative {
            least
        } else {
            i128::MAX as u128
        };
        match text::read_digits_within(&chars, from, chars.len(), limit) {
            None => Err(CentsParseError(String::from_str(raw))),
            Some(value) => Ok(
                Cents(
                    if !negative {
                        value as i128
                    } else if value == least {
                        i128::MIN
                    } else {
                        -(value as i128)
                    },
                ),
            ),
        }
    }

    /// The amount in digits.
    pub fn text(self) -> (r: String)
        ensures
            r@ == text::signed_decimal(self.0 as int),
    {
        text::signed_text(self.0)
    }
}

impl CentsParseError {
    /// The error as a line of text.
    pub fn message(&self) -> (r: String)
        ensures
            r@ == "invalid cents value "@ + text::debug_text(self.0@)
                + ": expected an integer string like \"-1234500\""@,
    {
        let mut out = String::from_str("invalid cents value ");
        out.append(text::debug_of(self.0.as_str()).as_str());
        out.append(": expected an integer string like \"-1234500\"");
        out
    }
}

impl RatioParseError {
    /// The error as a line of text.
    pub fn message(&self) -> (r: String)
        ensures
            r@ == "invalid ratio "@ + text::debug_text(self.0@)
                + ": expected a decimal string with at most 6 fractional digits, like \"3.50\""@,
    {
        let mut out = String::from_str("invalid ratio ");
        out.append(text::debug_of(self.0.as_str()).as_str());
        out.append(
            ": expected a decimal string with at most 6 fractional digits, like \"3.50\"",
        );
        out
    }
}

/// The six digits of a fraction in millionths.
pub open spec fn six_digits(n: nat) -> Seq<char> {
    text::digit_text(n / 100_000) + text::digit_text(n / 10_000 % 10) + text::digit_text(
        n / 1_000 % 10,
    ) + text::digit_text(n / 100 % 10) + text::digit_text(n / 10 % 10) + text::digit_text(n % 10)
}

/// `s` without zeros at its end.
pub open spec fn without_zeros(s: Seq<char>) -> Seq<char>
    decreases s.len(),
{
    if s.len() > 0 && s.last() == '0' {
        without_zeros(s.drop_last())
    } else {
        s
    }
}

/// The exact decimal of a ratio, without zeros at its end.
pub open spec fn ratio_text(value: int) -> Seq<char> {
    let size = num::magnitude(value);
    let sign = if value < 0 {
        "-"@
    } else {
        ""@
    };
    let fraction = size % (RATIO_SCALE as nat);
    if fraction == 0 {
        sign + text::decimal(size / (RATIO_SCALE as nat))
    } else {
        sign + text::decimal(size / (RATIO_SCALE as nat)) + "."@ + without_zeros(
            six_digits(fraction),
        )
    }
}

fn six_digit_text(n: u128) -> (r: String)
    requires
        n < 1_000_000,
    ensures
        r@ == six_digits(n as nat),
{
    let mut out = text::unsigned_text(n / 100_000);
    out.append(text::unsigned_text(n / 10_000 % 10).as_str());
    out.append(text::unsigned_text(n / 1_000 % 10).as_str());
    out.append(text::unsigned_text(n / 100 % 10).as_str());
    out.append(text::unsigned_text(n / 10 % 10).as_str());
    out.append(text::unsigned_text(n % 10).as_str());
    out
}

fn trim_zeros(s: String) -> (r: String)
    ensures
        r@ == without_zeros(s@),
{
    let chars = text::chars_of(s.as_str());
    let mut to: usize = chars.len();
    assert(s@.take(to as int) =~= s@);
    while to > 0 && chars[to - 1] == '0'
        invariant
            to <= chars.len(),
            chars@ == s@,
            without_zeros(s@) == without_zeros(s@.take(to as int)),
        decreases to,
    {
        assert(s@.take(to as int).drop_last() =~= s@.take(to - 1));
        to = to - 1;
    }
    assert(s@.take(to as int) =~= s@.subrange(0, to as int));
    String::from_str(s.as_str().substring_char(0, to))
}

impl Ratio {
    /// A ratio of millionths.
    pub fn from_scaled(value: i128) -> (r: Ratio)
        ensures
            r.0 == value,
    {
        Ratio(value)
    }

    /// The ratio in millionths.
    pub fn scaled(self) -> (r: i128)
        ensures
            r == self.0,
    {
        self.0
    }

    /// Read an exact decimal. None where the decimal does not fit.
    pub fn try_from_decimal_str(raw: &str) -> (r: Option<Result<Ratio, RatioParseError>>)
        ensures
            (match r {
                Some(Ok(x)) => ratio_value(raw@) == Some(x.0 as int),
                Some(Err(e)) => ratio_value(raw@) is None && e.0@ == raw@,
                None => ratio_value(raw@) is Some && num::magnitude(ratio_value(raw@)->0)
                    > i128::MAX,
            }),
    {
        let chars = text::chars_of(text::trim(raw));
        let (negative, from) = sign_of(&chars);
        let to: usize = chars.len();
        let ghost s = chars@.skip(from as int);
        if from == to || chars[to - 1] == '.' {
            return Some(Err(RatioParseError(String::from_str(raw))));
        }
        let mut point: usize = from;
        assert(s.skip(0) =~= s);
        while point < to && chars[point] != '.'
            invariant
                from <= point <= to == chars.len(),
                s == chars@.skip(from as int),
                point_at(s) == point - from + point_at(s.skip(point - from)),
            decreases to - point,
        {
            assert(s.skip(point - from).drop_first() =~= s.skip(point - from + 1));
            assert(s.skip(point - from)[0] == chars@[point as int]);
            point = point + 1;
        }
        let fraction_from: usize = if point < to { point + 1 } else { to };
        proof {
            if point < to {
                assert(s.skip(point - from)[0] == '.');
            }
            assert(whole_part(s) =~= chars@.subrange(from as int, point as int));
            assert(fraction_part(s) =~= chars@.subrange(fraction_from as int, to as int));
        }
        if !text::only_digits(&chars, from, point) || !text::only_digits(&chars, fraction_from, to)
            || to - fraction_from > 6 {
            return Some(Err(RatioParseError(String::from_str(raw))));
        }
        let whole: i128 = match text::read_digits(&chars, from, point) {
            Some(whole) => whole,
            None => return Some(Err(RatioParseError(String::from_str(raw)))),
        };
        let mut fraction: i128 = 0;
        let mut i: usize = fraction_from;
        let ghost f = fraction_part(s);
        assert(f.take(0) =~= Seq::<char>::empty());
        while i < to
            invariant
                fraction_from <= i <= to == chars.len(),
                f == chars@.subrange(fraction_from as int, to as int),
                f.len() <= 6,
                text::all_digits(f),
                fraction == text::digits_value(f.take(i - fraction_from)),
                0 <= fraction < ten_to(i - fraction_from),
            decreases to - i,
        {
            let ghost now = f.take(i - fraction_from + 1);
            proof {
                assert(now.drop_last() =~= f.take(i - fraction_from));
                assert(now.last() == chars@[i as int]);
                assert(text::is_digit(f[i - fraction_from]));
                ten_to_grows(i - fraction_from, 6);
                assert(ten_to(6) == 1_000_000) by {
                    reveal_with_fuel(ten_to, 7);
                }
            }
            fraction = fraction * 10 + text::digit_of(chars[i]) as i128;
            i = i + 1;
        }
        assert(f.take(i - fraction_from) =~= f);
        proof {
            ten_to_splits(6 - f.len(), f.len() as int);
            assert(ten_to(6) == 1_000_000) by {
                reveal_with_fuel(ten_to, 7);
            }
        }
        let mut places: usize = to - fraction_from;
        let ghost read = fraction;
        proof {
            assert(read * ten_to(0) == read) by {
                assert(ten_to(0) == 1);
            }
        }
        while places < 6
            invariant
                f.len() <= places <= 6,
                fraction == read * ten_to(places - f.len()),
                0 <= fraction < ten_to(places as int),
            decreases 6 - places,
        {
            proof {
                ten_to_grows(places as int, 6);
                assert(ten_to(6) == 1_000_000) by {
                    reveal_with_fuel(ten_to, 7);
                }
                let t = ten_to(places - f.len());
                assert(ten_to(places + 1 - f.len()) == 10 * t);
                assert(read * (10 * t) == (read * t) * 10) by (nonlinear_arith);
            }
            fraction = fraction * 10;
            places = places + 1;
        }
        assert(fraction == millionths(f));
        match whole.checked_mul(RATIO_SCALE) {
            None => None,
            Some(scaled) => {
                match scaled.checked_add(fraction) {
                    None => None,
                    Some(value) => Some(Ok(Ratio(if negative { -value } else { value }))),
                }
            },
        }
    }

    /// Read an exact decimal ("3.50", ".5", "-0.903175"). More than six
    /// digits behind the point are refused.
    pub fn from_decimal_str(raw: &str) -> (r: Result<Ratio, RatioParseError>)
        requires
            ratio_value(raw@) is Some ==> num::magnitude(ratio_value(raw@)->0) <= i128::MAX,
        ensures
            (match r {
                Ok(x) => ratio_value(raw@) == Some(x.0 as int),
                Err(e) => ratio_value(raw@) is None && e.0@ == raw@,
            }),
    {
        match Ratio::try_from_decimal_str(raw) {
            Some(r) => r,
            None => Err(RatioParseError(String::from_str(raw))),
        }
    }

    /// The exact decimal, without zeros at its end.
    pub fn to_decimal_string(self) -> (r: String)
        ensures
            r@ == ratio_text(self.0 as int),
    {
        let size: u128 = num::unsigned_abs(self.0);
        let whole: u128 = size / 1_000_000;
        let fraction: u128 = size % 1_000_000;
        let mut out = String::from_str(if self.0 < 0 { "-" } else { "" });
        out.append(text::unsigned_text(whole).as_str());
        if fraction != 0 {
            out.append(".");
            out.append(trim_zeros(six_digit_text(fraction)).as_str());
        }
        out
    }

    /// `num / den` in millionths, rounded toward zero. None where `den` is
    /// zero.
    pub fn scaled_div(num: i128, den: i128) -> (r: Option<Ratio>)
        requires
            den != 0 ==> in_i128(num * RATIO_SCALE),
        ensures
            (match r {
                Some(x) => den != 0 && x.0 == num::quotient(num * RATIO_SCALE, den as int),
                None => den == 0,
            }),
    {
        if den == 0 {
            None
        } else {
            Some(Ratio(num::divide(num * RATIO_SCALE, den)))
        }
    }
}

pub proof fn ten_to_grows(a: int, b: int)
    requires
        0 <= a <= b,
    ensures
        1 <= ten_to(a) <= ten_to(b),
    decreases b - a, a,
{
    if a < b {
        ten_to_grows(a, b - 1);
    } else if a > 0 {
        ten_to_grows(a - 1, b - 1);
    }
}

pub proof fn ten_to_splits(a: int, b: int)
    requires
        0 <= a,
        0 <= b,
    ensures
        ten_to(a + b) == ten_to(a) * ten_to(b),
    decreases a,
{
    if a > 0 {
        ten_to_splits(a - 1, b);
        let x = ten_to(a - 1);
        let y = ten_to(b);
        assert((10 * x) * y == 10 * (x * y)) by (nonlinear_arith);
    } else {
        assert(ten_to(a) == 1);
    }
}

} // verus!
