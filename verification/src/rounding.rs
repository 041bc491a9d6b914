//! Numbers with a fixed count of significant binary digits, and times that are
//! multiplied as such numbers of seconds.
//!
//! A number is held as a multiple of a unit that is fine enough for all that
//! are met here, so that a number with `p` significant digits is a whole number
//! below 2^p times a power of two. An operation yields the number of this kind
//! that is nearest to the exact result; of two equally near, the one whose last
//! digit is even.

use vstd::arithmetic::div_mod::{
    lemma_div_denominator, lemma_fundamental_div_mod, lemma_fundamental_div_mod_converse,
};
use vstd::prelude::*;

verus! {

/// The numbers below this have at most 53 binary digits.
pub const DOUBLE: u128 = 0x20_0000_0000_0000;

/// The numbers below this have at most 24 binary digits.
pub const SINGLE: u128 = 0x100_0000;

/// How many units of [`seconds`] a second has: 2^87.
pub const SECOND: u128 = 0x80_0000_0000_0000_0000_0000;

/// How many nanoseconds a second has.
pub const NANOS: u128 = 1_000_000_000;

/// The longest time that [`scaled`] takes, in nanoseconds: 2^66.
pub const LONGEST: u128 = 0x4_0000_0000_0000_0000;

/// The whole number nearest to a quotient; of two, the even one.
pub open spec fn nearest(n: int, d: int) -> int {
    let q = n / d;
    let r = n % d;
    if 2 * r > d || (2 * r == d && q % 2 == 1) {
        q + 1
    } else {
        q
    }
}

/// The place of the last significant digit of `q`: the least power of two of
/// which `q` holds fewer than `limit`.
pub open spec fn last_place(q: int, limit: int) -> int
    decreases q,
{
    if q < limit || limit < 2 {
        1
    } else {
        2 * last_place(q / 2, limit)
    }
}

/// A quotient, rounded to as many significant digits as the numbers below
/// `limit` have.
pub open spec fn rounded(n: int, d: int, limit: int) -> int {
    let place = last_place(n / d, limit);
    nearest(n, d * place) * place
}

/// A time of `t` nanoseconds as a number of seconds with 53 digits: the whole
/// seconds, and to them what is left over, divided by a billion.
pub open spec fn seconds(t: int) -> int {
    rounded(
        (t / NANOS as int) * SECOND + rounded(
            (t % NANOS as int) * SECOND,
            NANOS as int,
            DOUBLE as int,
        ),
        1,
        DOUBLE as int,
    )
}

/// `num / den` times a time, multiplied as a number of seconds and brought back
/// to the nearest nanosecond.
pub open spec fn scaled(t: int, num: int, den: int) -> int {
    nearest(rounded(seconds(t) * num, den, DOUBLE as int) * NANOS, SECOND as int)
}

/// A last place is positive, and is one or has its number within twice the
/// limit.
proof fn lemma_last_place(q: int, limit: int)
    requires
        0 <= q,
        2 <= limit,
    ensures
        1 <= last_place(q, limit),
        last_place(q, limit) == 1 || last_place(q, limit) * limit <= 2 * q,
    decreases q,
{
    if q >= limit {
        lemma_last_place(q / 2, limit);
        let p = last_place(q / 2, limit);
        assert((2 * p) * limit == 2 * (p * limit)) by (nonlinear_arith);
    }
}

/// Rounding adds one last place at most, and yields no less than nothing.
pub proof fn lemma_rounded(n: int, d: int, limit: int)
    requires
        0 <= n,
        0 < d,
        2 <= limit,
    ensures
        0 <= rounded(n, d, limit) <= n / d + last_place(n / d, limit),
        last_place(n / d, limit) == 1 || last_place(n / d, limit) * limit <= 2 * (n / d),
        1 <= last_place(n / d, limit),
        0 <= n / d <= n,
{
    assert(0 <= n / d <= n) by (nonlinear_arith)
        requires
            0 <= n,
            0 < d,
    ;
    let q = n / d;
    let p = last_place(q, limit);
    lemma_last_place(q, limit);
    lemma_div_denominator(n, d, p);
    let m = n / (d * p);
    lemma_fundamental_div_mod(q, p);
    assert(m == q / p);
    assert(0 <= m && m * p <= q) by (nonlinear_arith)
        requires
            q == p * m + q % p,
            1 <= p,
            0 <= q,
            m == q / p,
            0 <= q % p,
    ;
    let r = nearest(n, d * p);
    assert(0 <= r * p <= q + p) by (nonlinear_arith)
        requires
            m <= r <= m + 1,
            0 <= m,
            m * p <= q,
            1 <= p,
    ;
}

/// The whole number nearest to a quotient; of two, the even one.
fn nearest_quotient(n: u128, d: u128) -> (r: u128)
    requires
        0 < d,
        n < u128::MAX,
    ensures
        r == nearest(n as int, d as int),
{
    let q: u128 = n / d;
    let rest: u128 = n % d;
    proof {
        assert(q <= n) by (nonlinear_arith)
            requires
                q == n / d,
                0 < d,
        ;
    }
    if rest > d - rest || (rest == d - rest && q % 2 == 1) {
        q + 1
    } else {
        q
    }
}

/// A quotient, rounded to as many significant digits as the numbers below
/// `limit` have.
pub fn round_quotient(n: u128, d: u128, limit: u128) -> (r: u128)
    requires
        n < 0x8000_0000_0000_0000_0000_0000_0000_0000,
        0 < d,
        2 <= limit,
    ensures
        r == rounded(n as int, d as int, limit as int),
{
    let q: u128 = n / d;
    let mut place: u128 = 1;
    proof {
        assert(d * q <= n) by {
            lemma_fundamental_div_mod(n as int, d as int);
        }
        assert(q <= n) by (nonlinear_arith)
            requires
                q == n / d,
                0 < d,
        ;
    }
    while q / place >= limit
        invariant
            q == n / d,
            0 < d,
            2 <= limit,
            d * q <= n,
            q <= n,
            n < 0x8000_0000_0000_0000_0000_0000_0000_0000,
            1 <= place,
            place == 1 || place <= q,
            last_place(q as int, limit as int) == place * last_place(
                q as int / place as int,
                limit as int,
            ),
        decreases q / place,
    {
        let ghost rest = q as int / place as int;
        proof {
            lemma_fundamental_div_mod(q as int, place as int);
            assert(2 * place <= q) by (nonlinear_arith)
                requires
                    q == place * rest + q as int % place as int,
                    rest >= 2,
                    0 < place,
                    0 <= q as int % place as int,
            ;
            lemma_div_denominator(q as int, place as int, 2);
            assert(place * (2 * last_place(rest / 2, limit as int)) == (place * 2) * last_place(
                rest / 2,
                limit as int,
            )) by (nonlinear_arith);
        }
        place = place * 2;
    }
    proof {
        assert(last_place(q as int / place as int, limit as int) == 1);
        lemma_rounded(n as int, d as int, limit as int);
        assert(place == last_place(q as int, limit as int)) by (nonlinear_arith)
            requires
                last_place(q as int, limit as int) == place * 1,
        ;
        if place == 1 {
            assert(d * place == d);
        } else {
            assert(d * place <= d * q) by (nonlinear_arith)
                requires
                    place <= q,
                    0 < d,
            ;
        }
        assert(0 < d * place) by (nonlinear_arith)
            requires
                0 < d,
                1 <= place,
        ;
    }
    let m: u128 = nearest_quotient(n, d * place);
    m * place
}

/// What [`seconds`] and what it is made of come to at most.
proof fn lemma_seconds(t: int)
    requires
        0 <= t <= LONGEST,
    ensures
        0 <= (t % NANOS as int) * SECOND < 0x4000_0000_0000_0000_0000_0000_0000_0000,
        0 <= rounded((t % NANOS as int) * SECOND, NANOS as int, DOUBLE as int),
        (t / NANOS as int) * SECOND + rounded(
            (t % NANOS as int) * SECOND,
            NANOS as int,
            DOUBLE as int,
        ) < 0x4000_0000_0000_0000_0000_0000_0000_0000,
        0 <= seconds(t) < 0x900_0000_0000_0000_0000_0000_0000_0000,
        seconds(t) * NANOS <= t * SECOND + 0x200_0000_0000_0000_0000 * NANOS,
{
    let s = t / NANOS as int;
    let f = t % NANOS as int;
    lemma_fundamental_div_mod(t, NANOS as int);
    let a = f * SECOND;
    lemma_rounded(a, NANOS as int, DOUBLE as int);
    lemma_fundamental_div_mod(a, NANOS as int);
    let x = rounded(a, NANOS as int, DOUBLE as int);
    let b = s * SECOND + x;
    lemma_rounded(b, 1, DOUBLE as int);
    assert(b / 1 == b);
}

/// A share of a time is not above that share by more than about a millisecond,
/// for all times that are taken.
pub proof fn lemma_scaled(t: int, num: int, den: int)
    requires
        0 <= t <= LONGEST,
        0 <= num <= 8,
        0 < den,
    ensures
        0 <= seconds(t) * num < 0x4800_0000_0000_0000_0000_0000_0000_0000,
        0 <= rounded(seconds(t) * num, den, DOUBLE as int)
            < 0x4801_0000_0000_0000_0000_0000_0000_0000,
        0 <= scaled(t, num, den) <= t * num / den + 0x10_0000,
{
    lemma_seconds(t);
    let y = seconds(t);
    assert(0 <= y * num <= 8 * y) by (nonlinear_arith)
        requires
            0 <= y,
            0 <= num <= 8,
    ;
    lemma_rounded(y * num, den, DOUBLE as int);
    let k = y * num / den;
    let z = rounded(y * num, den, DOUBLE as int);
    let whole = t * num / den;
    let over: int = 0x200_0000_0000_0000_0000 * NANOS;
    lemma_fundamental_div_mod(y * num, den);
    lemma_fundamental_div_mod(t * num, den);
    assert(k * NANOS <= (whole + 1) * SECOND + 8 * over) by (nonlinear_arith)
        requires
            y * NANOS <= t * SECOND + over,
            y * num == den * k + (y * num) % den,
            0 <= (y * num) % den,
            t * num == den * whole + (t * num) % den,
            (t * num) % den < den,
            0 <= num <= 8,
            0 < den,
            0 <= over,
            NANOS == 1_000_000_000,
            SECOND == 0x80_0000_0000_0000_0000_0000,
    ;
    let n = z * NANOS;
    lemma_fundamental_div_mod(n, SECOND as int);
}

/// `num / den` times a time, multiplied as a number of seconds and brought back
/// to the nearest nanosecond.
pub fn scale(t: u128, num: u128, den: u128) -> (r: u128)
    requires
        t <= LONGEST,
        num <= 8,
        0 < den,
    ensures
        r == scaled(t as int, num as int, den as int),
{
    proof {
        lemma_seconds(t as int);
        lemma_scaled(t as int, num as int, den as int);
    }
    let left: u128 = round_quotient((t % NANOS) * SECOND, NANOS, DOUBLE);
    let time: u128 = round_quotient((t / NANOS) * SECOND + left, 1, DOUBLE);
    let product: u128 = round_quotient(time * num, den, DOUBLE);
    let whole: u128 = product / SECOND;
    let part: u128 = product % SECOND;
    let nanos: u128 = nearest_quotient(part * NANOS, SECOND);
    proof {
        lemma_fundamental_div_mod(product as int, SECOND as int);
        lemma_fundamental_div_mod(part * NANOS, SECOND as int);
        lemma_fundamental_div_mod_converse(
            product * NANOS,
            SECOND as int,
            whole * NANOS + (part * NANOS) / SECOND as int,
            (part * NANOS) % SECOND as int,
        );
    }
    whole * NANOS + nanos
}

/// The nearest whole number is at most half away from the quotient.
pub proof fn law_nearest_is_near(n: int, d: int)
    requires
        0 <= n,
        0 < d,
    ensures
        -d <= 2 * (nearest(n, d) * d) - 2 * n <= d,
        n % d == 0 ==> nearest(n, d) * d == n,
{
    lemma_fundamental_div_mod(n, d);
    let q = n / d;
    let r = n % d;
    assert(q * d == d * q) by (nonlinear_arith);
    assert((q + 1) * d == d * q + d) by (nonlinear_arith);
    assert(0 <= r < d) by (nonlinear_arith)
        requires
            r == n % d,
            0 < d,
    ;
}

/// A number that is rounded to some digits is at most half of its last place away
/// from the quotient; and the last place is no more than the digits leave.
pub proof fn law_rounding_is_near(n: int, d: int, limit: int)
    requires
        0 <= n,
        0 < d,
        2 <= limit,
    ensures
        ({
            let p = last_place(n / d, limit);
            &&& -(d * p) <= 2 * (d * rounded(n, d, limit)) - 2 * n <= d * p
            &&& 1 <= p
            &&& p == 1 || p * limit <= 2 * (n / d)
            &&& n / d < limit ==> p == 1
        }),
{
    lemma_rounded(n, d, limit);
    let p = last_place(n / d, limit);
    let m = nearest(n, d * p);
    assert(0 < d * p) by (nonlinear_arith)
        requires
            0 < d,
            1 <= p,
    ;
    law_nearest_is_near(n, d * p);
    assert(d * (m * p) == m * (d * p)) by (nonlinear_arith);
}

#[verifier::spinoff_prover]
proof fn lemma_seconds_near(t: int)
    requires
        0 <= t <= 0x100_0000_0000,
    ensures
        -NANOS * 0x1_0000_0000_0000 <= NANOS * seconds(t) - t * SECOND <= NANOS
            * 0x1_0000_0000_0000,
        0 <= seconds(t) <= 1103 * SECOND,
{
    let s = t / NANOS as int;
    let f = t % NANOS as int;
    lemma_fundamental_div_mod(t, NANOS as int);
    let a = f * SECOND;
    assert(0 <= a / NANOS as int <= SECOND);
    lemma_rounded(a, NANOS as int, DOUBLE as int);
    law_rounding_is_near(a, NANOS as int, DOUBLE as int);
    let p = last_place(a / NANOS as int, DOUBLE as int);
    let x = rounded(a, NANOS as int, DOUBLE as int);
    assert(p <= 0x8_0000_0000);
    let b = s * SECOND + x;
    assert(s <= 1100);
    assert(x <= SECOND + 0x8_0000_0000);
    lemma_rounded(b, 1, DOUBLE as int);
    law_rounding_is_near(b, 1, DOUBLE as int);
    assert(b / 1 == b);
    let q = last_place(b, DOUBLE as int);
    assert(q <= 0x8000_0000_0000);
    assert(t * SECOND == s * NANOS * SECOND + a);
}

/// A share of a time of up to eighteen minutes is within a nanosecond of what it
/// is.
#[verifier::spinoff_prover]
pub proof fn law_share_is_near(t: int, num: int, den: int)
    requires
        0 <= t <= 0x100_0000_0000,
        0 <= num <= 8,
        1 <= den,
    ensures
        -den < den * scaled(t, num, den) - num * t < den,
{
    lemma_seconds_near(t);
    let y = seconds(t);
    let away = NANOS * y - t * SECOND;
    let w = t * num;
    assert(0 <= y * num <= 8 * y) by (nonlinear_arith)
        requires
            0 <= y,
            0 <= num <= 8,
    ;
    assert(NANOS * (y * num) == away * num + SECOND * w) by (nonlinear_arith)
        requires
            away == NANOS * y - t * SECOND,
            w == t * num,
    ;
    let most: int = NANOS * 0x1_0000_0000_0000;
    assert(-8 * most <= away * num <= 8 * most) by (nonlinear_arith)
        requires
            -most <= away <= most,
            0 <= num <= 8,
    ;
    lemma_rounded(y * num, den, DOUBLE as int);
    law_rounding_is_near(y * num, den, DOUBLE as int);
    let p = last_place(y * num / den, DOUBLE as int);
    let z = rounded(y * num, den, DOUBLE as int);
    assert(p <= 0x2_0000_0000_0000);
    let u = den * z;
    assert(den * p <= den * 0x2_0000_0000_0000) by (nonlinear_arith)
        requires
            p <= 0x2_0000_0000_0000,
            1 <= den,
    ;
    let r = nearest(z * NANOS, SECOND as int);
    law_nearest_is_near(z * NANOS, SECOND as int);
    let k = den * r;
    assert(-(den * SECOND) <= 2 * (SECOND * k) - 2 * (NANOS * u) <= den * SECOND)
        by (nonlinear_arith)
        requires
            -SECOND <= 2 * (r * SECOND) - 2 * (z * NANOS) <= SECOND,
            k == den * r,
            u == den * z,
            1 <= den,
    ;
    assert(num * t == w) by (nonlinear_arith)
        requires
            w == t * num,
    ;
}

} // verus!
