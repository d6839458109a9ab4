//! Fixed-point numbers: lengths, ratios and resolutions to a billionth.
//!
//! A value is a whole number of billionths, so equality and order are exact
//! and every operation says how it rounds.

use vstd::prelude::*;

use crate::text::{decimal_text, digit_char, digit_of, push_decimal};

verus! {

/// Billionths in one.
pub const ONE: i64 = 1_000_000_000;

/// The most decimal places a value carries.
pub const PLACES: u8 = 9;

/// A number to a billionth.
#[derive(Debug, Clone, Copy, PartialEq, Eq, Structural)]
pub struct Fixed {
    /// How many billionths the number is.
    pub nanos: i64,
}

/// `v`, brought to the nearest value that fits.
pub open spec fn clamped(v: int) -> i64 {
    if v > i64::MAX {
        i64::MAX
    } else if v < i64::MIN {
        i64::MIN
    } else {
        v as i64
    }
}

/// `n / d` to the nearest whole number, halves away from zero.
pub open spec fn round_div(n: int, d: int) -> int
    recommends
        d > 0,
{
    if n >= 0 {
        (n + d / 2) / d
    } else {
        -((-n + d / 2) / d)
    }
}

/// [`round_div`] on machine numbers.
pub fn round_quotient(n: i128, d: i128) -> (q: i128)
    requires
        0 < d <= 0x4000_0000_0000_0000_0000_0000_0000_0000,
        -0x4000_0000_0000_0000_0000_0000_0000_0000 <= n
            <= 0x4000_0000_0000_0000_0000_0000_0000_0000,
    ensures
        q == round_div(n as int, d as int),
        q <= n || n <= 0,
        n <= q || n >= 0,
        n == 0 ==> q == 0,
        n > 0 ==> q >= 0,
        n < 0 ==> q <= 0,
{
    if n >= 0 {
        let q = (n + d / 2) / d;
        proof {
            lemma_round_div_shrinks(n as int, d as int);
        }
        q
    } else {
        let m: i128 = 0 - n;
        let q = (m + d / 2) / d;
        proof {
            lemma_round_div_shrinks(m as int, d as int);
        }
        0 - q
    }
}

proof fn lemma_round_div_shrinks(n: int, d: int)
    requires
        n >= 0,
        d > 0,
    ensures
        0 <= (n + d / 2) / d <= n,
{
    assert(0 <= (n + d / 2) / d <= n) by (nonlinear_arith)
        requires
            n >= 0,
            d > 0,
    {
        if n == 0 {
            assert((d / 2) / d == 0);
        } else {
            assert(n + d / 2 <= n * d + d - 1) by (nonlinear_arith)
                requires
                    n >= 1,
                    d > 0,
            ;
        }
    }
}

/// `v`, brought into range.
pub fn clamp_to_range(v: i128) -> (r: i64)
    ensures
        r == clamped(v as int),
{
    if v > i64::MAX as i128 {
        i64::MAX
    } else if v < i64::MIN as i128 {
        i64::MIN
    } else {
        v as i64
    }
}

impl Fixed {
    /// The whole number `n`.
    pub fn whole(n: i32) -> (r: Fixed)
        ensures
            r.nanos == n * ONE,
    {
        Fixed { nanos: n as i64 * ONE }
    }

    /// `n` thousandths.
    pub fn milli(n: i32) -> (r: Fixed)
        ensures
            r.nanos == n * 1_000_000,
    {
        Fixed { nanos: n as i64 * 1_000_000 }
    }

    /// The sum, brought into range.
    pub open spec fn spec_plus(self, other: Fixed) -> Fixed {
        Fixed { nanos: clamped(self.nanos + other.nanos) }
    }

    /// The sum, brought into range.
    pub fn plus(self, other: Fixed) -> (r: Fixed)
        ensures
            r == self.spec_plus(other),
    {
        Fixed { nanos: clamp_to_range(self.nanos as i128 + other.nanos as i128) }
    }

    /// The difference, brought into range.
    pub open spec fn spec_minus(self, other: Fixed) -> Fixed {
        Fixed { nanos: clamped(self.nanos - other.nanos) }
    }

    /// The difference, brought into range.
    pub fn minus(self, other: Fixed) -> (r: Fixed)
        ensures
            r == self.spec_minus(other),
    {
        Fixed { nanos: clamp_to_range(self.nanos as i128 - other.nanos as i128) }
    }

    /// `self * num / den`, rounded once and brought into range.
    pub open spec fn spec_scaled(self, num: int, den: int) -> Fixed
        recommends
            den != 0,
    {
        Fixed {
            nanos: clamped(
                if den > 0 {
                    round_div(self.nanos * num, den)
                } else {
                    round_div(-(self.nanos * num), -den)
                },
            ),
        }
    }

    /// `self * num / den`, rounded once and brought into range.
    pub fn scaled(self, num: i64, den: i64) -> (r: Fixed)
        requires
            den != 0,
        ensures
            r == self.spec_scaled(num as int, den as int),
    {
        assert(-0x4000_0000_0000_0000_0000_0000_0000_0000 <= self.nanos * num
            <= 0x4000_0000_0000_0000_0000_0000_0000_0000) by (nonlinear_arith)
            requires
                -0x8000_0000_0000_0000 <= self.nanos <= 0x7fff_ffff_ffff_ffff,
                -0x8000_0000_0000_0000 <= num <= 0x7fff_ffff_ffff_ffff,
        ;
        let product: i128 = self.nanos as i128 * num as i128;
        if den > 0 {
            Fixed { nanos: clamp_to_range(round_quotient(product, den as i128)) }
        } else {
            Fixed { nanos: clamp_to_range(round_quotient(-product, -(den as i128))) }
        }
    }

    /// The product, rounded once and brought into range.
    pub open spec fn spec_times(self, other: Fixed) -> Fixed {
        self.spec_scaled(other.nanos as int, ONE as int)
    }

    /// The product, rounded once and brought into range.
    pub fn times(self, other: Fixed) -> (r: Fixed)
        ensures
            r == self.spec_times(other),
    {
        self.scaled(other.nanos, ONE)
    }
}

/// Ten to the power `n`.
pub open spec fn power_of_ten(n: nat) -> nat
    decreases n,
{
    if n == 0 {
        1
    } else {
        10 * power_of_ten((n - 1) as nat)
    }
}

/// `n / d` to the nearest whole number, halves to the even neighbour.
pub open spec fn round_even(n: nat, d: nat) -> nat
    recommends
        d > 0,
{
    let q = n / d;
    let r = n % d;
    if 2 * r > d || (2 * r == d && q % 2 == 1) {
        q + 1
    } else {
        q
    }
}

/// The last `width` digits of `n`, leading zeros kept.
pub open spec fn padded_text(n: nat, width: nat) -> Seq<char>
    decreases width,
{
    if width == 0 {
        seq![]
    } else {
        padded_text(n / 10, (width - 1) as nat).push(digit_char(n % 10))
    }
}

/// A fraction of `places` digits as written after the integer part: nothing
/// when it is zero, otherwise a point and its digits up to the last one that
/// is not zero.
pub open spec fn fraction_text(n: nat, places: nat) -> Seq<char>
    decreases places,
{
    if n == 0 || places == 0 {
        seq![]
    } else if n % 10 == 0 {
        fraction_text(n / 10, (places - 1) as nat)
    } else {
        seq!['.'] + padded_text(n, places)
    }
}

/// How many decimal places a number asked for `decimals` is written to.
pub open spec fn places_kept(decimals: nat) -> nat {
    if decimals < PLACES {
        decimals
    } else {
        PLACES as nat
    }
}

/// How far a value lies from zero, in billionths.
pub open spec fn magnitude(x: Fixed) -> nat {
    if x.nanos < 0 {
        (-x.nanos) as nat
    } else {
        x.nanos as nat
    }
}

/// The magnitude of `x` as a whole number of the last decimal place kept.
pub open spec fn rounded(x: Fixed, decimals: nat) -> nat {
    round_even(magnitude(x), power_of_ten((PLACES - places_kept(decimals)) as nat))
}

/// `x` as a document writes it: at most `decimals` places, nearest value,
/// halves to even, no trailing zeros, no exponent, and never a negative zero.
pub open spec fn num_text(x: Fixed, decimals: nat) -> Seq<char> {
    let q = rounded(x, decimals);
    let unit = power_of_ten(places_kept(decimals));
    let sign = if x.nanos < 0 && q > 0 {
        seq!['-']
    } else {
        seq![]
    };
    sign + decimal_text(q / unit) + fraction_text(q % unit, places_kept(decimals))
}

/// Ten to the power `n`, for the places a value carries.
fn ten_to(n: u8) -> (r: u64)
    requires
        n <= PLACES,
    ensures
        r == power_of_ten(n as nat),
        1 <= r <= 1_000_000_000,
    decreases n,
{
    proof {
        reveal_with_fuel(power_of_ten, 10);
    }
    if n == 0 {
        1
    } else {
        let below = ten_to(n - 1);
        assert(below <= 100_000_000);
        10 * below
    }
}

/// Append the last `width` digits of `n`.
fn push_padded(out: &mut String, n: u64, width: u8)
    ensures
        final(out)@ == old(out)@ + padded_text(n as nat, width as nat),
    decreases width,
{
    if width > 0 {
        push_padded(out, n / 10, width - 1);
        out.push(digit_of(n % 10));
    }
    assert(out@ =~= old(out)@ + padded_text(n as nat, width as nat));
}

/// Append a fraction of `places` digits, if there is one.
fn push_fraction(out: &mut String, n: u64, places: u8)
    ensures
        final(out)@ == old(out)@ + fraction_text(n as nat, places as nat),
    decreases places,
{
    if n == 0 || places == 0 {
        assert(out@ =~= old(out)@ + fraction_text(n as nat, places as nat));
    } else if n % 10 == 0 {
        push_fraction(out, n / 10, places - 1);
    } else {
        out.push('.');
        push_padded(out, n, places);
        assert(out@ =~= old(out)@ + (seq!['.'] + padded_text(n as nat, places as nat)));
    }
}

/// Append `x` to `out` with at most `decimals` places.
pub fn num(out: &mut String, x: Fixed, decimals: u8)
    ensures
        final(out)@ == old(out)@ + num_text(x, decimals as nat),
{
    let places: u8 = if decimals < PLACES {
        decimals
    } else {
        PLACES
    };
    let far: u64 = if x.nanos < 0 {
        (0 - x.nanos as i128) as u64
    } else {
        x.nanos as u64
    };
    assert(far as nat == magnitude(x));
    let step: u64 = ten_to(PLACES - places);
    let unit: u64 = ten_to(places);
    let q: u64 = far / step;
    let r: u64 = far % step;
    let up: bool = 2 * r > step || (2 * r == step && q % 2 == 1);
    let q: u64 = if up {
        q + 1
    } else {
        q
    };
    assert(q as nat == rounded(x, decimals as nat));
    if x.nanos < 0 && q > 0 {
        out.push('-');
    }
    push_decimal(out, q / unit);
    push_fraction(out, q % unit, places);
    assert(out@ =~= old(out)@ + num_text(x, decimals as nat));
}

/// A character that can stand in a written number.
pub open spec fn number_char(c: char) -> bool {
    '0' <= c <= '9' || c == '-' || c == '.'
}

/// True when `s` is made of digits, points and minus signs.
pub open spec fn plain_number(s: Seq<char>) -> bool {
    forall|i: int| 0 <= i < s.len() ==> number_char(#[trigger] s[i])
}

proof fn lemma_fraction_text_is_plain(n: nat, places: nat)
    ensures
        plain_number(fraction_text(n, places)),
    decreases places,
{
    if n == 0 || places == 0 {
    } else if n % 10 == 0 {
        lemma_fraction_text_is_plain(n / 10, (places - 1) as nat);
    } else {
        lemma_padded_text_is_digits(n, places);
    }
}

proof fn lemma_padded_text_is_digits(n: nat, width: nat)
    ensures
        crate::text::all_digits(padded_text(n, width)),
        padded_text(n, width).len() == width,
    decreases width,
{
    if width > 0 {
        lemma_padded_text_is_digits(n / 10, (width - 1) as nat);
    }
}

/// A number is written with digits, a point and a minus sign alone: never
/// with an exponent, and never as a word.
pub proof fn lemma_num_text_is_plain(x: Fixed, decimals: nat)
    ensures
        num_text(x, decimals).len() > 0,
        plain_number(num_text(x, decimals)),
{
    let q = rounded(x, decimals);
    let unit = power_of_ten(places_kept(decimals));
    crate::text::lemma_decimal_text_is_digits(q / unit);
    lemma_fraction_text_is_plain(q % unit, places_kept(decimals));
}

/// A number as it was given: finite, or one of the values that are not.
#[derive(Debug, Clone, Copy, PartialEq, Eq, Structural)]
pub enum Reading {
    Finite(Fixed),
    NotANumber,
    Infinity,
    MinusInfinity,
}

/// A reading as it is shown to a person.
pub open spec fn reading_text(r: Reading) -> Seq<char> {
    match r {
        Reading::Finite(x) => num_text(x, PLACES as nat),
        Reading::NotANumber => "NaN"@,
        Reading::Infinity => "inf"@,
        Reading::MinusInfinity => "-inf"@,
    }
}

/// The number that a reading is, when it is positive and finite.
pub open spec fn usable(r: Reading) -> Option<Fixed> {
    match r {
        Reading::Finite(x) => if x.nanos > 0 {
            Some(x)
        } else {
            None
        },
        _ => None,
    }
}

impl Reading {
    /// Append the reading as it is shown to a person.
    pub fn show(self, out: &mut String)
        ensures
            final(out)@ == old(out)@ + reading_text(self),
    {
        match self {
            Reading::Finite(x) => num(out, x, PLACES),
            Reading::NotANumber => out.append("NaN"),
            Reading::Infinity => out.append("inf"),
            Reading::MinusInfinity => out.append("-inf"),
        }
    }

    /// The number that the reading is, when it is positive and finite.
    pub fn positive(self) -> (r: Option<Fixed>)
        ensures
            r == usable(self),
    {
        match self {
            Reading::Finite(x) => if x.nanos > 0 {
                Some(x)
            } else {
                None
            },
            _ => None,
        }
    }
}

/// A division that rounds is off by half a unit at most.
pub proof fn lemma_rounding_is_nearest(n: int, d: int)
    requires
        d > 0,
    ensures
        -d <= 2 * (round_div(n, d) * d - n) <= d,
        n % d == 0 ==> round_div(n, d) * d == n,
        round_div(-n, d) == -round_div(n, d),
        n >= 0 && 2 * (n % d) == d ==> round_div(n, d) * d > n,
{
    let m = if n >= 0 {
        n
    } else {
        -n
    };
    let q = (m + d / 2) / d;
    vstd::arithmetic::div_mod::lemma_fundamental_div_mod(m + d / 2, d);
    vstd::arithmetic::div_mod::lemma_mod_bound(m + d / 2, d);
    assert(d * q == q * d && (-q) * d == -(q * d)) by (nonlinear_arith);
    if n % d == 0 {
        vstd::arithmetic::div_mod::lemma_fundamental_div_mod(n, d);
        let e = if n >= 0 {
            n / d
        } else {
            -(n / d)
        };
        assert(m == e * d) by (nonlinear_arith)
            requires
                n == d * (n / d),
                m == (if n >= 0 {
                    n
                } else {
                    -n
                }),
                e == (if n >= 0 {
                    n / d
                } else {
                    -(n / d)
                }),
        ;
        assert(q == e) by (nonlinear_arith)
            requires
                -d <= 2 * (q * d - e * d) <= d,
                d > 0,
        ;
    }
    vstd::arithmetic::div_mod::lemma_basic_div(d / 2, d);
    if n >= 0 && 2 * (n % d) == d {
        vstd::arithmetic::div_mod::lemma_fundamental_div_mod(n, d);
        let e = n / d;
        assert(q == e + 1) by (nonlinear_arith)
            requires
                n == d * e + n % d,
                2 * (n % d) == d,
                d > 0,
                n + d / 2 == d * q + (n + d / 2) % d,
                0 <= (n + d / 2) % d < d,
        ;
        assert((e + 1) * d == d * e + d) by (nonlinear_arith);
    }
}

/// A number times a ratio is that product to the nearest billionth, wherever it
/// can be held, and the nearest number that can be held elsewhere.
pub proof fn lemma_scaling_is_nearest(x: Fixed, num: int, den: int)
    requires
        den > 0,
    ensures
        ({
            let r = x.spec_scaled(num, den).nanos;
            let exact = x.nanos * num;
            &&& i64::MIN * den <= exact <= i64::MAX * den ==> -den <= 2 * (r * den - exact) <= den
            &&& exact > i64::MAX * den ==> r == i64::MAX
            &&& exact < i64::MIN * den ==> r == i64::MIN
            &&& x.spec_scaled(-num, -den) == x.spec_scaled(num, den)
        }),
{
    let exact = x.nanos * num;
    lemma_rounding_is_nearest(exact, den);
    let q = round_div(exact, den);
    assert(x.nanos * -num == -exact) by (nonlinear_arith)
        requires
            exact == x.nanos * num,
    ;
    let hi = i64::MAX as int;
    let lo = i64::MIN as int;
    assert(lo * den <= exact <= hi * den ==> lo <= q <= hi) by (nonlinear_arith)
        requires
            -den <= 2 * (q * den - exact) <= den,
            den > 0,
    ;
    assert(exact > hi * den ==> q >= hi) by (nonlinear_arith)
        requires
            -den <= 2 * (q * den - exact) <= den,
            den > 0,
    ;
    assert(exact < lo * den ==> q <= lo) by (nonlinear_arith)
        requires
            -den <= 2 * (q * den - exact) <= den,
            den > 0,
    ;
}

/// Sums and differences are exact wherever they can be held, and what is taken
/// away comes back when it is put back.
pub proof fn lemma_sums_are_exact(x: Fixed, y: Fixed)
    ensures
        i64::MIN <= x.nanos + y.nanos <= i64::MAX ==> x.spec_plus(y).nanos == x.nanos + y.nanos,
        i64::MIN <= x.nanos - y.nanos <= i64::MAX ==> x.spec_minus(y).nanos == x.nanos - y.nanos
            && x.spec_minus(y).spec_plus(y) == x,
        x.nanos + y.nanos > i64::MAX ==> x.spec_plus(y).nanos == i64::MAX,
        x.nanos + y.nanos < i64::MIN ==> x.spec_plus(y).nanos == i64::MIN,
        x.nanos - y.nanos > i64::MAX ==> x.spec_minus(y).nanos == i64::MAX,
        x.nanos - y.nanos < i64::MIN ==> x.spec_minus(y).nanos == i64::MIN,
{
}

} // verus!
