//! Numbers read back from the text they were written as.
//!
//! A numeral is read the way any reader does: a sign, the digits before the
//! point each worth ten times the next, and the digits after it each worth a
//! tenth of the one before.

use vstd::arithmetic::power::pow;
use vstd::prelude::*;

use crate::fixed::{
    fraction_text, magnitude, num_text, padded_text, places_kept, power_of_ten, round_even, rounded,
    Fixed, PLACES,
};
use crate::text::{all_digits, decimal_text, lemma_decimal_text_is_digits};

verus! {

/// What a digit is worth.
pub open spec fn digit_value(c: char) -> int {
    c as u32 - 48
}

/// What digits before a point are worth.
pub open spec fn whole_value(s: Seq<char>) -> int
    decreases s.len(),
{
    if s.len() == 0 {
        0
    } else {
        10 * whole_value(s.drop_last()) + digit_value(s.last())
    }
}

/// What digits after a point are worth, in billionths.
pub open spec fn fraction_value(s: Seq<char>) -> int
    decreases s.len(),
{
    if s.len() == 0 {
        0
    } else {
        fraction_value(s.drop_last()) + digit_value(s.last()) * pow(10, (9 - s.len()) as nat)
    }
}

/// The first point from `i` on, or the end.
pub open spec fn point_in(s: Seq<char>, i: int) -> int
    decreases s.len() - i,
{
    if i >= s.len() || s[i] == '.' {
        i
    } else {
        point_in(s, i + 1)
    }
}

/// A numeral without its sign.
pub open spec fn unsigned(s: Seq<char>) -> Seq<char> {
    if s.len() > 0 && s[0] == '-' {
        s.skip(1)
    } else {
        s
    }
}

/// True when a text is a numeral: a minus sign or none, digits without a
/// leading zero, and, if there is a point, digits after it that do not end in
/// a zero.
pub open spec fn numeral(s: Seq<char>) -> bool {
    let t = unsigned(s);
    let p = point_in(t, 0);
    &&& 0 < p <= t.len()
    &&& all_digits(t.take(p))
    &&& t[0] == '0' ==> p == 1
    &&& p < t.len() ==> p + 1 < t.len() <= p + 10 && all_digits(t.skip(p + 1)) && t.last() != '0'
}

/// What a numeral is worth, in billionths.
pub open spec fn value_of(s: Seq<char>) -> int {
    let t = unsigned(s);
    let p = point_in(t, 0);
    let far = whole_value(t.take(p)) * 1_000_000_000 + if p < t.len() {
        fraction_value(t.skip(p + 1))
    } else {
        0
    };
    if s.len() > 0 && s[0] == '-' {
        -far
    } else {
        far
    }
}

/// What a unit of the last of `decimals` places is worth, in billionths.
pub open spec fn last_place(decimals: nat) -> int {
    if decimals < 9 {
        pow(10, (9 - decimals) as nat)
    } else {
        1
    }
}

/// True when `s` is `x` to `decimals` places: a numeral with no more of them,
/// worth the nearest such number, with halves to the even neighbour, exactly
/// `x` when that has no more places, and without a sign when it is zero.
#[verifier::opaque]
pub open spec fn writes(s: Seq<char>, x: Fixed, decimals: nat) -> bool {
    let unit = last_place(decimals);
    let off = value_of(s) - x.nanos;
    &&& numeral(s)
    &&& value_of(s) % unit == 0
    &&& -unit <= 2 * off <= unit
    &&& 2 * off == unit || 2 * off == -unit ==> (value_of(s) / unit) % 2 == 0
    &&& x.nanos as int % unit == 0 ==> value_of(s) == x.nanos
    &&& s[0] == '-' ==> value_of(s) < 0
}

/// True when `s` is `n`: digits alone, without a leading zero, worth that.
pub open spec fn counts(s: Seq<char>, n: int) -> bool {
    &&& s.len() > 0
    &&& all_digits(s)
    &&& s[0] == '0' ==> s.len() == 1
    &&& whole_value(s) == n
}

/// Powers of ten, by either name.
pub proof fn lemma_pow(n: nat)
    ensures
        power_of_ten(n) == pow(10, n),
        pow(10, n) > 0,
        n > 0 ==> pow(10, n) == 10 * pow(10, (n - 1) as nat),
    decreases n,
{
    reveal(pow);
    if n > 0 {
        lemma_pow((n - 1) as nat);
    }
}

proof fn lemma_nine(k: nat)
    requires
        k <= 9,
    ensures
        pow(10, k) * pow(10, (9 - k) as nat) == 1_000_000_000,
{
    vstd::arithmetic::power::lemma_pow_adds(10, k, (9 - k) as nat);
    reveal_with_fuel(pow, 10);
}

/// A count is written in the digits it is read from.
pub proof fn lemma_count_reads_back(n: nat)
    ensures
        counts(decimal_text(n), n as int),
    decreases n,
{
    reveal_with_fuel(whole_value, 2);
    lemma_decimal_text_is_digits(n);
    let s = decimal_text(n);
    if n >= 10 {
        lemma_count_reads_back(n / 10);
        lemma_decimal_text_is_digits(n / 10);
        assert(s.drop_last() =~= decimal_text(n / 10));
        assert(s[0] == decimal_text(n / 10)[0]);
        if decimal_text(n / 10)[0] == '0' {
            assert(decimal_text(n / 10).len() == 1);
            let d = decimal_text(n / 10);
            assert(d.drop_last() =~= Seq::<char>::empty());
            assert(whole_value(d) == 0);
        }
    } else {
        assert(s.drop_last() =~= Seq::<char>::empty());
    }
}

proof fn lemma_padded_reads_back(n: nat, width: nat)
    requires
        width <= 9,
        n < pow(10, width),
    ensures
        padded_text(n, width).len() == width,
        all_digits(padded_text(n, width)),
        fraction_value(padded_text(n, width)) == n * pow(10, (9 - width) as nat),
    decreases width,
{
    lemma_pow(width);
    if width == 0 {
        reveal(pow);
        assert(n * pow(10, 9) == 0) by (nonlinear_arith)
            requires
                n == 0,
        ;
    } else {
        let s = padded_text(n, width);
        let below = (width - 1) as nat;
        lemma_padded_reads_back(n / 10, below);
        assert(s.drop_last() =~= padded_text(n / 10, below));
        lemma_pow((9 - below) as nat);
        let unit = pow(10, (9 - width) as nat);
        assert(fraction_value(s) == (n / 10) * (10 * unit) + (n % 10) * unit);
        assert((n / 10) * (10 * unit) + (n % 10) * unit == n * unit) by (nonlinear_arith)
            requires
                n == 10 * (n / 10) + n % 10,
        ;
    }
}

/// What a fraction of `places` digits is written as: nothing, or a point and
/// digits that do not end in a zero.
proof fn lemma_fraction_reads_back(n: nat, places: nat)
    requires
        places <= 9,
        n < pow(10, places),
    ensures
        ({
            let s = fraction_text(n, places);
            &&& n == 0 ==> s.len() == 0
            &&& n > 0 ==> 1 < s.len() <= 10 && s[0] == '.' && all_digits(s.skip(1)) && s.last()
                != '0' && fraction_value(s.skip(1)) == n * pow(10, (9 - places) as nat)
        }),
    decreases places,
{
    lemma_pow(places);
    if n == 0 {
    } else if places == 0 {
        reveal(pow);
    } else if n % 10 == 0 {
        let below = (places - 1) as nat;
        lemma_fraction_reads_back(n / 10, below);
        lemma_pow((9 - below) as nat);
        let unit = pow(10, (9 - places) as nat);
        assert((n / 10) * (10 * unit) == n * unit) by (nonlinear_arith)
            requires
                n == 10 * (n / 10),
        ;
    } else {
        let s = fraction_text(n, places);
        lemma_padded_reads_back(n, places);
        assert(s.skip(1) =~= padded_text(n, places));
        assert(s.last() == padded_text(n, places).last());
    }
}

proof fn lemma_point(s: Seq<char>, p: int, i: int)
    requires
        0 <= i <= p <= s.len(),
        forall|j: int| 0 <= j < p ==> #[trigger] s[j] != '.',
        p == s.len() || s[p] == '.',
    ensures
        point_in(s, i) == p,
    decreases p - i,
{
    if i < p {
        lemma_point(s, p, i + 1);
    }
}

proof fn lemma_rounds_to_nearest(n: nat, d: nat)
    requires
        d > 0,
    ensures
        ({
            let off = round_even(n, d) * d - n;
            &&& -d <= 2 * off <= d
            &&& 2 * off == d || 2 * off == -d ==> round_even(n, d) % 2 == 0
            &&& n % d == 0 ==> off == 0
        }),
{
    let q = n / d;
    let r = n % d;
    vstd::arithmetic::div_mod::lemma_fundamental_div_mod(n as int, d as int);
    assert(q * d == d * q) by (nonlinear_arith);
    assert((q + 1) * d == q * d + d) by (nonlinear_arith);
}

/// Reading a written number back gives the nearest number of the places that
/// were asked for, and the number itself when it has no more of them.
pub proof fn lemma_number_reads_back(x: Fixed, decimals: nat)
    ensures
        writes(num_text(x, decimals), x, decimals),
{
    reveal(writes);
    let kept = places_kept(decimals);
    let low = (PLACES - kept) as nat;
    lemma_pow(kept);
    lemma_pow(low);
    lemma_nine(kept);
    let unit = pow(10, kept);
    let step = pow(10, low);
    assert(step == last_place(decimals)) by {
        reveal(pow);
    }
    let q = rounded(x, decimals);
    lemma_rounds_to_nearest(magnitude(x), step as nat);
    let a = q / (unit as nat);
    let b = q % (unit as nat);
    vstd::arithmetic::div_mod::lemma_fundamental_div_mod(q as int, unit);
    vstd::arithmetic::div_mod::lemma_mod_bound(q as int, unit);
    lemma_count_reads_back(a);
    lemma_fraction_reads_back(b, kept);
    let whole = decimal_text(a);
    let frac = fraction_text(b, kept);
    let t = whole + frac;
    let s = num_text(x, decimals);
    let minus = x.nanos < 0 && q > 0;
    if minus {
        assert(s =~= seq!['-'] + t);
        assert(s.skip(1) =~= t);
    } else {
        assert(s =~= t);
        assert(s[0] == whole[0]);
    }
    assert(unsigned(s) == t);
    let p = whole.len() as int;
    assert forall|j: int| 0 <= j < p implies #[trigger] t[j] != '.' by {
        assert(t[j] == whole[j]);
    }
    if frac.len() > 0 {
        assert(t[p] == frac[0]);
    }
    lemma_point(t, p, 0);
    assert(t.take(p) =~= whole);
    assert(t[0] == whole[0]);
    if frac.len() > 0 {
        assert(t.skip(p + 1) =~= frac.skip(1));
        assert(t.last() == frac.last());
    }
    let far = a * 1_000_000_000 + b * step;
    assert(far == q * step) by (nonlinear_arith)
        requires
            far == a * 1_000_000_000 + b * step,
            unit * step == 1_000_000_000,
            q == unit * a + b,
    ;
    assert(value_of(s) == if minus {
        -far
    } else {
        far
    });
    assert(numeral(s));
    let v = value_of(s);
    let m = if minus {
        -q as int
    } else {
        q as int
    };
    assert(v == m * step) by (nonlinear_arith)
        requires
            far == q * step,
            m == -(q as int) && v == -far || m == q && v == far,
    ;
    vstd::arithmetic::div_mod::lemma_mod_multiples_basic(m, step);
    vstd::arithmetic::div_mod::lemma_fundamental_div_mod_converse(v, step, m, 0);
    if x.nanos as int % step == 0 {
        vstd::arithmetic::div_mod::lemma_fundamental_div_mod(x.nanos as int, step);
        let k = x.nanos as int / step;
        if x.nanos < 0 {
            assert(magnitude(x) as int == (-k) * step) by (nonlinear_arith)
                requires
                    x.nanos as int == step * k,
                    magnitude(x) as int == -x.nanos,
            ;
            vstd::arithmetic::div_mod::lemma_mod_multiples_basic(-k, step);
        }
    }
    if q == 0 {
        assert(far == 0) by (nonlinear_arith)
            requires
                far == q * step,
                q == 0,
        ;
    } else {
        assert(far > 0) by (nonlinear_arith)
            requires
                far == q * step,
                q > 0,
                step > 0,
        ;
    }
}

} // verus!
