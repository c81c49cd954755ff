//! Quantities as they are shown, with one digit behind the point. The digits
//! are those of the quotient of two double-precision numbers: first the count
//! is rounded to 53 binary digits, then the quotient is, and then that is
//! rounded to tenths, each time to the nearest, and to the even one of two that
//! are equally near.

use vstd::prelude::*;

use crate::text;
use crate::text::push_decimal;

verus! {

/// The first number that needs more than 53 binary digits.
pub const LIMIT: u128 = 0x20_0000_0000_0000;

/// The integer nearest to `a / b`, and of two that are equally near the even one.
pub open spec fn half_even(a: nat, b: nat) -> nat {
    let q = a / b;
    let r = a % b;
    if 2 * r < b || (2 * r == b && q % 2 == 0) {
        q
    } else {
        q + 1
    }
}

/// The integer nearest to `a / b`.
fn nearest(a: u128, b: u128) -> (r: u128)
    requires
        0 < b <= 0x7fff_ffff_ffff_ffff_ffff_ffff_ffff_ffff,
        a < 0xffff_ffff_ffff_ffff_ffff_ffff_ffff_ffff,
    ensures
        r == half_even(a as nat, b as nat),
        r <= a / b + 1,
{
    let q: u128 = a / b;
    let rest: u128 = a % b;
    assert(q <= a) by (nonlinear_arith)
        requires
            q == a / b,
            b >= 1,
    ;
    if 2 * rest < b || (2 * rest == b && q % 2 == 0) {
        q
    } else {
        q + 1
    }
}

/// The least unit, from `u` on in powers of two, of which `n` has fewer than
/// [`LIMIT`].
pub open spec fn unit(n: nat, u: nat) -> nat
    decreases n - u,
{
    if u == 0 || n / u < LIMIT {
        u
    } else {
        proof {
            lemma_twice(n, u);
        }
        unit(n, 2 * u)
    }
}

/// A number that has at least [`LIMIT`] units is at least two of them.
pub proof fn lemma_twice(n: nat, u: nat)
    requires
        u > 0,
        n / u >= LIMIT,
    ensures
        2 * u <= n,
{
    assert(2 * u <= n) by (nonlinear_arith)
        requires
            u > 0,
            n / u >= 2,
    ;
}

/// The number that `n` becomes with 53 binary digits.
pub open spec fn rounded(n: nat) -> nat {
    half_even(n, unit(n, 1)) * unit(n, 1)
}

/// Rounds a count to 53 binary digits.
pub fn to_double(n: u64) -> (r: u128)
    ensures
        r == rounded(n as nat),
        r <= 2 * n,
{
    let mut u: u128 = 1;
    while n as u128 / u >= LIMIT
        invariant
            1 <= u,
            u == 1 || u <= n,
            unit(n as nat, 1) == unit(n as nat, u as nat),
        decreases n as u128 / u,
    {
        proof {
            lemma_twice(n as nat, u as nat);
            let m = n as nat;
            let w = u as nat;
            assert(m / (2 * w) < m / w) by (nonlinear_arith)
                requires
                    w > 0,
                    m / w >= 2,
            ;
        }
        u = 2 * u;
    }
    let q: u128 = nearest(n as u128, u);
    proof {
        let m = n as nat;
        let w = u as nat;
        assert(q * w <= (m / w + 1) * w) by (nonlinear_arith)
            requires
                q <= m / w + 1,
        ;
        assert((m / w + 1) * w <= m + w) by (nonlinear_arith)
            requires
                w > 0,
        ;
        if u == 1 {
            assert(m / 1 == m);
            assert(half_even(m, 1) == m);
        }
    }
    q * u
}

/// The greatest scale, from `p` down in powers of two, at which `num / den` is
/// less than [`LIMIT`].
pub open spec fn scale(num: nat, den: nat, p: nat) -> nat
    decreases p,
{
    if p <= 1 || (num * p) / den < LIMIT {
        p
    } else {
        scale(num, den, p / 2)
    }
}

/// The scale to begin with.
pub const FINEST: u128 = 0x4000_0000_0000_0000;

/// The tenths of `num / den`, once the quotient has been rounded to 53 binary
/// digits.
pub open spec fn tenths(num: nat, den: nat) -> nat {
    let p = scale(num, den, FINEST as nat);
    half_even(10 * half_even(num * p, den), p)
}

/// The tenths of `num / den`.
fn tenths_of(num: u128, den: u64) -> (r: u128)
    requires
        den > 0,
        num <= 0x1_ffff_ffff_ffff_fffe,
    ensures
        r == tenths(num as nat, den as nat),
{
    let d: u128 = den as u128;
    let mut p: u128 = FINEST;
    assert(num * p <= 0x1_ffff_ffff_ffff_fffe * 0x4000_0000_0000_0000) by (nonlinear_arith)
        requires
            num <= 0x1_ffff_ffff_ffff_fffe,
            p == 0x4000_0000_0000_0000,
    ;
    while p > 1 && num * p / d >= LIMIT
        invariant
            d == den,
            d > 0,
            1 <= p <= FINEST,
            num <= 0x1_ffff_ffff_ffff_fffe,
            num * p <= 0x1_ffff_ffff_ffff_fffe * 0x4000_0000_0000_0000,
            scale(num as nat, den as nat, FINEST as nat) == scale(num as nat, den as nat, p as nat),
        decreases p,
    {
        assert(num * (p / 2) <= num * p) by (nonlinear_arith)
            requires
                p >= 1,
                num >= 0,
        ;
        p = p / 2;
    }
    let q: u128 = nearest(num * p, d);
    assert(q <= 0x2_0000_0000_0000_0000) by {
        let n = num as int;
        let w = p as int;
        if p > 1 {
            assert(n * w / (d as int) < LIMIT);
        } else {
            assert(n * 1 / (d as int) <= n) by (nonlinear_arith)
                requires
                    d >= 1,
                    n >= 0,
            ;
        }
    }
    nearest(10 * q, p)
}

/// A number of tenths as it is shown.
pub open spec fn tenths_text(t: nat) -> Seq<char> {
    text::decimal(t / 10) + "."@ + text::decimal(t % 10)
}

fn push_tenths(out: &mut String, t: u128)
    ensures
        final(out)@ == old(out)@ + tenths_text(t as nat),
{
    push_decimal(out, t / 10);
    out.append(".");
    push_decimal(out, t % 10);
    assert(out@ =~= old(out)@ + tenths_text(t as nat));
}

/// A token count as it is shown: whole below a thousand, else in thousands or
/// millions with one digit behind the point.
pub open spec fn compact_count(n: nat) -> Seq<char> {
    if n >= 1_000_000 {
        tenths_text(tenths(rounded(n), 1_000_000)) + "M"@
    } else if n >= 1_000 {
        tenths_text(tenths(rounded(n), 1_000)) + "k"@
    } else {
        text::decimal(n)
    }
}

/// Formats a token count compactly (1234 -> 1.2k, 1500000 -> 1.5M).
pub fn compact_tokens(n: u64) -> (r: String)
    ensures
        r@ == compact_count(n as nat),
{
    let mut r: String = String::new();
    if n >= 1_000_000 {
        push_tenths(&mut r, tenths_of(to_double(n), 1_000_000));
        r.append("M");
    } else if n >= 1_000 {
        push_tenths(&mut r, tenths_of(to_double(n), 1_000));
        r.append("k");
    } else {
        push_decimal(&mut r, n as u128);
    }
    assert(r@ =~= compact_count(n as nat));
    r
}

/// Milliseconds as they are shown: in seconds, with one digit behind the point.
pub open spec fn seconds(ms: nat) -> Seq<char> {
    tenths_text(tenths(rounded(ms), 1_000))
}

/// Milliseconds in seconds, with one digit behind the point.
pub fn seconds_text(ms: u64) -> (r: String)
    ensures
        r@ == seconds(ms as nat),
{
    let mut r: String = String::new();
    push_tenths(&mut r, tenths_of(to_double(ms), 1_000));
    assert(r@ =~= seconds(ms as nat));
    r
}

/// A count that fits 53 binary digits is not rounded.
pub proof fn law_small_counts_are_exact(n: nat)
    requires
        n < LIMIT,
    ensures
        rounded(n) == n,
{
    assert(n / 1 == n && n % 1 == 0);
    assert(unit(n, 1) == 1);
}

/// The rounded quotient is at most half away from the quotient, and even where
/// it is half away.
pub proof fn law_rounding_is_to_the_nearest(a: nat, b: nat)
    requires
        b > 0,
    ensures
        2 * a <= (2 * half_even(a, b) + 1) * b,
        2 * half_even(a, b) * b <= 2 * a + b,
        2 * a == (2 * half_even(a, b) + 1) * b || 2 * half_even(a, b) * b == 2 * a + b
            ==> half_even(a, b) % 2 == 0,
{
    let q = a / b;
    let r = a % b;
    assert(a == q * b + r && r < b) by (nonlinear_arith)
        requires
            q == a / b,
            r == a % b,
            b > 0,
    ;
    let h = half_even(a, b);
    if h == q {
        assert((2 * q + 1) * b == 2 * (q * b) + b) by (nonlinear_arith);
        assert(2 * q * b == 2 * (q * b)) by (nonlinear_arith);
    } else {
        assert((2 * (q + 1) + 1) * b == 2 * (q * b) + 3 * b) by (nonlinear_arith);
        assert(2 * (q + 1) * b == 2 * (q * b) + 2 * b) by (nonlinear_arith);
    }
}

/// The unit is the least of its kind: the number has fewer than [`LIMIT`] of it,
/// and not fewer of its half.
proof fn lemma_unit(n: nat, u: nat)
    requires
        u > 0,
    ensures
        unit(n, u) >= u,
        n / unit(n, u) < LIMIT,
        unit(n, u) == u || n / ((unit(n, u) / 2) as nat) >= LIMIT && unit(n, u) % 2 == 0,
    decreases n - u,
{
    if n / u >= LIMIT {
        lemma_twice(n, u);
        lemma_unit(n, 2 * u);
        assert((2 * u) / 2 == u);
    }
}

/// A count of more than 53 binary digits changes by no more than the last of
/// them does.
pub proof fn law_rounding_is_close(n: nat)
    ensures
        (rounded(n) - n) * LIMIT <= n,
        (n - rounded(n)) * LIMIT <= n,
{
    let u = unit(n, 1);
    lemma_unit(n, 1);
    law_rounding_is_to_the_nearest(n, u);
    let h = half_even(n, u);
    if u == 1 {
        assert(n / 1 == n);
        law_small_counts_are_exact(n);
    } else {
        let w = (u / 2) as nat;
        assert(u == 2 * w);
        let e = rounded(n) - n;
        assert(2 * e <= u && -2 * e <= u) by (nonlinear_arith)
            requires
                e == h * u - n,
                2 * n <= (2 * h + 1) * u,
                2 * h * u <= 2 * n + u,
        ;
        assert(w * LIMIT <= n) by (nonlinear_arith)
            requires
                n / w >= LIMIT,
                w > 0,
        ;
        assert(e * LIMIT <= n && (-e) * LIMIT <= n) by (nonlinear_arith)
            requires
                e <= w,
                -e <= w,
                w * LIMIT <= n,
        ;
    }
}

/// Whether `t` tenths are what `num / den` is, to the nearest tenth, but for what
/// is lost where the quotient is rounded before.
pub open spec fn near(t: nat, num: nat, den: nat) -> bool {
    &&& 800 * (t * den - 10 * num) <= 401 * den
    &&& 800 * (10 * num - t * den) <= 401 * den
}

/// A quotient that is not too great is scaled by some thousands at least.
proof fn lemma_scale(num: nat, den: nat, p: nat)
    requires
        den > 0,
        p >= 0x1000,
        num < 0x100_0000_0000 * den,
    ensures
        scale(num, den, p) >= 0x1000,
    decreases p,
{
    if p < 0x2000 {
        assert((num * p) / den < 0x20_0000_0000_0000) by (nonlinear_arith)
            requires
                den > 0,
                p < 0x2000,
                num < 0x100_0000_0000 * den,
        ;
    } else {
        lemma_scale(num, den, p / 2);
    }
}

/// The tenths that are shown are the nearest to the quotient.
pub proof fn law_tenths_are_the_nearest(num: nat, den: nat)
    requires
        den > 0,
        num < 0x100_0000_0000 * den,
    ensures
        near(tenths(num, den), num, den),
{
    let p = scale(num, den, FINEST as nat);
    lemma_scale(num, den, FINEST as nat);
    let q = half_even(num * p, den);
    law_rounding_is_to_the_nearest(num * p, den);
    let t = tenths(num, den);
    law_rounding_is_to_the_nearest(10 * q, p);
    let a = q * den - num * p;
    let b = t * p - 10 * q;
    assert(2 * a <= den && -2 * a <= den) by (nonlinear_arith)
        requires
            a == q * den - num * p,
            2 * (num * p) <= (2 * q + 1) * den,
            2 * q * den <= 2 * (num * p) + den,
    ;
    assert(2 * b <= p && -2 * b <= p) by (nonlinear_arith)
        requires
            b == t * p - 10 * q,
            2 * (10 * q) <= (2 * t + 1) * p,
            2 * t * p <= 2 * (10 * q) + p,
    ;
    let e = t * den - 10 * num;
    assert(e * p == b * den + 10 * a) by (nonlinear_arith)
        requires
            e == t * den - 10 * num,
            a == q * den - num * p,
            b == t * p - 10 * q,
    ;
    let c = b * den;
    assert(2 * c <= p * den && -2 * c <= p * den) by (nonlinear_arith)
        requires
            c == b * den,
            2 * b <= p,
            -2 * b <= p,
            den > 0,
    ;
    assert(10 * den * 400 <= p * den) by (nonlinear_arith)
        requires
            p >= 0x1000,
            den > 0,
    ;
    assert(800 * (e * p) <= 401 * (p * den) && -800 * (e * p) <= 401 * (p * den));
    assert(800 * e <= 401 * den && -800 * e <= 401 * den) by (nonlinear_arith)
        requires
            800 * (e * p) <= 401 * (p * den),
            -800 * (e * p) <= 401 * (p * den),
            p > 0,
    ;
}

/// A count is shown as it is below a thousand, from there on in thousands and
/// from a million on in millions, to the nearest tenth.
pub proof fn law_counts_are_shown_to_a_tenth(n: nat)
    requires
        rounded(n) < 0x100_0000_0000 * 1_000_000,
    ensures
        n < 1_000 ==> compact_count(n) == text::decimal(n),
        1_000 <= n < 1_000_000 ==> exists|t: nat|
            #![trigger near(t, n, 1_000)]
            near(t, n, 1_000) && compact_count(n) == text::decimal(t / 10) + "."@ + text::decimal(
                t % 10,
            ) + "k"@,
        1_000_000 <= n ==> exists|t: nat|
            #![trigger near(t, rounded(n), 1_000_000)]
            near(t, rounded(n), 1_000_000) && compact_count(n) == text::decimal(t / 10) + "."@
                + text::decimal(t % 10) + "M"@,
{
    if n >= 1_000_000 {
        law_tenths_are_the_nearest(rounded(n), 1_000_000);
    } else if n >= 1_000 {
        law_small_counts_are_exact(n);
        law_tenths_are_the_nearest(n, 1_000);
    }
}

/// A time is shown in seconds, to the nearest tenth.
pub proof fn law_times_are_shown_to_a_tenth(ms: nat)
    requires
        rounded(ms) < 0x100_0000_0000 * 1_000,
    ensures
        exists|t: nat|
            #![trigger near(t, rounded(ms), 1_000)]
            near(t, rounded(ms), 1_000) && seconds(ms) == text::decimal(t / 10) + "."@
                + text::decimal(t % 10),
{
    law_tenths_are_the_nearest(rounded(ms), 1_000);
}

} // verus!
