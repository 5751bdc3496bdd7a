//! Numbers in double precision, written out in integers: a number is kept to
//! 53 significant bits, the closest such number, a tie to the even one.

use crate::text::{dec, dec_value, digit, digit_char};
use vstd::arithmetic::power2::{lemma_pow2_adds, lemma_pow2_pos, lemma_pow2_strictly_increases, lemma_pow2_unfold, pow2};
use vstd::prelude::*;

verus! {

/// The number `mantissa / 2^places`.
#[derive(Debug, Clone, Copy, PartialEq, Eq, Structural)]
pub struct Double {
    pub mantissa: u128,
    pub places: u32,
}

/// The most binary places a double has.
pub const MOST_PLACES: u32 = 1074;

/// `n / d` rounded to the nearest integer, a tie to the even one.
pub open spec fn rounded(n: int, d: int) -> int {
    let q = n / d;
    let r = n % d;
    if 2 * r > d || (2 * r == d && q % 2 == 1) {
        q + 1
    } else {
        q
    }
}

/// `n / d` rounded to an integer with at most 53 significant bits.
pub open spec fn significant(n: nat, d: nat) -> nat
    decreases n - d,
{
    if d == 0 || n < 0x20_0000_0000_0000 * d {
        rounded(n as int, d as int) as nat
    } else {
        2 * significant(n, 2 * d)
    }
}

/// The double closest to `n / d / 2^k`, as a mantissa and a number of binary
/// places: as many places as give the mantissa 53 bits.
pub open spec fn nearest(n: nat, d: nat, k: nat) -> (nat, nat)
    decreases MOST_PLACES - k,
{
    if k >= MOST_PLACES || n >= 0x10_0000_0000_0000 * d {
        (significant(n, d), k)
    } else {
        nearest(2 * n, d, k + 1)
    }
}

/// The last `k` decimal digits of `n`, zeros in front included.
pub open spec fn padded(n: nat, k: nat) -> Seq<char>
    decreases k,
{
    if k == 0 {
        Seq::empty()
    } else {
        padded(n / 10, (k - 1) as nat).push(digit_char(n % 10))
    }
}

impl Double {
    /// Whether the fields are in the range of a double that is not huge.
    pub open spec fn wf(self) -> bool {
        self.mantissa <= 0x4_0000_0000_0000_0000 && self.places <= MOST_PLACES
    }

    /// Whether this is the double with a mantissa and a number of places.
    pub open spec fn is(self, v: (nat, nat)) -> bool {
        self.mantissa == v.0 && self.places == v.1
    }

    /// Whether this number is smaller than `other`.
    pub open spec fn below(self, other: Double) -> bool {
        self.mantissa * pow2(other.places as nat) < other.mantissa * pow2(self.places as nat)
    }

    /// A hundred times this number in double precision, with one decimal.
    pub open spec fn percent(self) -> Seq<char> {
        let tenths = rounded(
            10 * significant(100 * self.mantissa as nat, 1) as int,
            pow2(self.places as nat) as int,
        ) as nat;
        dec(tenths / 10) + "."@ + padded(tenths, 1)
    }

    /// The number with four decimals.
    pub open spec fn decimal(self) -> Seq<char> {
        let parts = rounded(10_000 * self.mantissa as int, pow2(self.places as nat) as int) as nat;
        dec(parts / 10_000) + "."@ + padded(parts, 4)
    }

    /// Whether this number is smaller than `other`.
    pub fn is_below(&self, other: &Double) -> (r: bool)
        requires
            self.wf(),
            other.wf(),
        ensures
            r == self.below(*other),
    {
        if self.places >= other.places {
            let by = self.places - other.places;
            proof {
                lemma_shifted(self.mantissa as nat, other.mantissa as nat, other.places as nat, by as nat);
            }
            less_than_shifted(self.mantissa, other.mantissa, by)
        } else {
            let by = other.places - self.places;
            proof {
                lemma_shifted(other.mantissa as nat, self.mantissa as nat, self.places as nat, by as nat);
            }
            shifted_less_than(self.mantissa, other.mantissa, by)
        }
    }

    /// A hundred times this number, with one decimal, e.g. `66.7`.
    pub fn percent_text(&self) -> (out: String)
        requires
            self.wf(),
        ensures
            out@ == self.percent(),
    {
        let hundredfold = to_significant(100 * self.mantissa, 1);
        let tenths = over_power(10 * hundredfold, self.places);
        fixed(tenths, 10, 1)
    }

    /// The number with four decimals, e.g. `0.6667`.
    pub fn decimal_text(&self) -> (out: String)
        requires
            self.wf(),
        ensures
            out@ == self.decimal(),
    {
        let parts = over_power(10_000 * self.mantissa, self.places);
        fixed(parts, 10_000, 4)
    }

    /// The double closest to `n / d / 2^k`.
    pub fn closest(n: u128, d: u128, k: u32) -> (r: Double)
        requires
            n <= 0x2_0000_0000_0000_0000,
            0 < d <= 0x2_0000_0000_0000_0000,
            k <= MOST_PLACES,
        ensures
            r.is(nearest(n as nat, d as nat, k as nat)),
            r.wf(),
    {
        let mut m: u128 = n;
        let mut places: u32 = k;
        while places < MOST_PLACES && m < 0x10_0000_0000_0000 * d
            invariant
                0 < d <= 0x2_0000_0000_0000_0000,
                places <= MOST_PLACES,
                m <= 0x2_0000_0000_0000_0000 || m < 0x20_0000_0000_0000 * d,
                nearest(n as nat, d as nat, k as nat) == nearest(m as nat, d as nat, places as nat),
            decreases MOST_PLACES - places,
        {
            m = 2 * m;
            places = places + 1;
        }
        let mantissa = to_significant(m, d);
        proof {
            lemma_significant_bound(m as nat, d as nat);
            let s = mantissa as int;
            if m < 0x20_0000_0000_0000 * d {
                assert(s <= 0x20_0000_0000_0000) by (nonlinear_arith)
                    requires
                        m < 0x20_0000_0000_0000 * d,
                        s * d <= m + d,
                        d > 0,
                ;
            } else {
                assert(s <= 2 * m) by (nonlinear_arith)
                    requires
                        s * d <= 2 * m,
                        d > 0,
                        s >= 0,
                ;
            }
        }
        Double { mantissa, places }
    }
}

/// Rounding stays close to the quotient.
proof fn lemma_rounded_bound(n: int, d: int)
    requires
        n >= 0,
        d > 0,
    ensures
        0 <= n / d <= rounded(n, d) <= n / d + 1,
        rounded(n, d) * d <= n + d,
        n / d <= n,
        n >= d ==> n / d >= 1,
{
    vstd::arithmetic::div_mod::lemma_fundamental_div_mod(n, d);
    vstd::arithmetic::div_mod::lemma_mod_bound(n, d);
    let q = n / d;
    let r = n % d;
    assert(q >= 0) by (nonlinear_arith)
        requires
            q == n / d,
            n >= 0,
            d > 0,
    ;
    assert(n >= d ==> q >= 1) by (nonlinear_arith)
        requires
            n == d * q + r,
            r < d,
            d > 0,
    ;
    assert((q + 1) * d == q * d + d) by (nonlinear_arith);
    assert(q * d == d * q) by (nonlinear_arith);
    assert(q <= n) by (nonlinear_arith)
        requires
            n == d * q + r,
            d > 0,
            r >= 0,
            q >= 0,
    ;
}

/// An integer kept to 53 bits stays close to the quotient.
proof fn lemma_significant_bound(n: nat, d: nat)
    requires
        d > 0,
    ensures
        n < 0x20_0000_0000_0000 * d ==> significant(n, d) * d <= n + d,
        n >= d ==> significant(n, d) * d <= 2 * n,
    decreases n - d,
{
    if n < 0x20_0000_0000_0000 * d {
        lemma_rounded_bound(n as int, d as int);
    } else {
        lemma_significant_bound(n, 2 * d);
        let s = significant(n, 2 * d);
        assert(significant(n, d) * d == s * (2 * d)) by (nonlinear_arith)
            requires
                significant(n, d) == 2 * s,
        ;
        assert(n >= 2 * d);
    }
}

/// A number of 53 bits or more keeps that size.
pub(crate) proof fn lemma_significant_large(n: nat, d: nat)
    requires
        d > 0,
        n >= 0x10_0000_0000_0000 * d,
    ensures
        significant(n, d) >= 0x10_0000_0000_0000,
    decreases n - d,
{
    if n < 0x20_0000_0000_0000 * d {
        vstd::arithmetic::div_mod::lemma_fundamental_div_mod(n as int, d as int);
        vstd::arithmetic::div_mod::lemma_mod_bound(n as int, d as int);
        let q = n as int / d as int;
        let r = n as int % d as int;
        assert(q >= 0x10_0000_0000_0000) by (nonlinear_arith)
            requires
                n == d * q + r,
                r < d,
                n >= 0x10_0000_0000_0000 * d,
                d > 0,
        ;
    } else {
        lemma_significant_large(n, 2 * d);
    }
}

/// Rounding keeps the order of quotients.
proof fn lemma_rounded_monotone(a: int, b: int, d: int)
    requires
        0 <= a <= b,
        d > 0,
    ensures
        rounded(a, d) <= rounded(b, d),
{
    lemma_rounded_bound(a, d);
    lemma_rounded_bound(b, d);
    vstd::arithmetic::div_mod::lemma_div_is_ordered(a, b, d);
    vstd::arithmetic::div_mod::lemma_fundamental_div_mod(a, d);
    vstd::arithmetic::div_mod::lemma_fundamental_div_mod(b, d);
}

/// Rounding a quotient below a bound stays within the bound.
proof fn lemma_rounded_at_most(n: int, d: int, bound: int)
    requires
        0 <= n <= bound * d,
        0 <= bound,
        d > 0,
    ensures
        rounded(n, d) <= bound,
{
    lemma_rounded_monotone(n, bound * d, d);
    vstd::arithmetic::div_mod::lemma_div_by_multiple(bound, d);
    vstd::arithmetic::div_mod::lemma_mod_multiples_basic(bound, d);
}

/// Keeping 53 bits keeps the order of quotients.
pub(crate) proof fn lemma_significant_monotone(a: nat, b: nat, d: nat)
    requires
        a <= b,
        d > 0,
    ensures
        significant(a, d) <= significant(b, d),
    decreases b - d,
{
    if b < 0x20_0000_0000_0000 * d {
        lemma_rounded_monotone(a as int, b as int, d as int);
    } else if a >= 0x20_0000_0000_0000 * d {
        lemma_significant_monotone(a, b, 2 * d);
    } else {
        lemma_rounded_at_most(a as int, d as int, 0x20_0000_0000_0000);
        lemma_significant_large(b, 2 * d);
    }
}

/// The double closest to a number that is at most one is at most one.
pub(crate) proof fn lemma_nearest_at_most_one(n: nat, d: nat, k: nat)
    requires
        d > 0,
        k <= MOST_PLACES,
        n <= pow2(k) * d,
        n < 0x20_0000_0000_0000 * d,
    ensures
        nearest(n, d, k).0 <= pow2(nearest(n, d, k).1),
        nearest(n, d, k).0 <= 0x20_0000_0000_0000,
        nearest(n, d, k).1 <= MOST_PLACES,
    decreases MOST_PLACES - k,
{
    if k >= MOST_PLACES || n >= 0x10_0000_0000_0000 * d {
        lemma_rounded_at_most(n as int, d as int, pow2(k) as int);
        lemma_rounded_at_most(n as int, d as int, 0x20_0000_0000_0000);
    } else {
        lemma_pow2_unfold(k + 1);
        assert(2 * n <= pow2(k + 1) * d) by (nonlinear_arith)
            requires
                n <= pow2(k) * d,
                pow2(k + 1) == 2 * pow2(k),
        ;
        lemma_nearest_at_most_one(2 * n, d, k + 1);
    }
}

/// `n / d` rounded to the nearest integer, a tie to the even one.
fn round_quotient(n: u128, d: u128) -> (q: u128)
    requires
        0 < d <= 0x2000_0000_0000_0000_0000_0000_0000_0000,
        n <= 0x8000_0000_0000_0000_0000_0000_0000_0000,
    ensures
        q == rounded(n as int, d as int),
        q <= n + 1,
{
    proof {
        lemma_rounded_bound(n as int, d as int);
    }
    let q: u128 = n / d;
    let r: u128 = n % d;
    if 2 * r > d || (2 * r == d && q % 2 == 1) {
        q + 1
    } else {
        q
    }
}

/// `n / d` rounded to an integer with at most 53 significant bits.
pub fn to_significant(n: u128, d: u128) -> (r: u128)
    requires
        n <= 0x0080_0000_0000_0000_0000_0000_0000_0000,
        0 < d <= 0x0000_0000_0000_0040_0000_0000_0000_0000,
    ensures
        n >= d ==> r > 0,
        r == significant(n as nat, d as nat),
        r <= 2 * n + 1,
    decreases n - d,
{
    proof {
        lemma_rounded_bound(n as int, d as int);
    }
    if n < 0x20_0000_0000_0000 * d {
        round_quotient(n, d)
    } else {
        proof {
            lemma_significant_bound(n as nat, d as nat);
            let s = significant(n as nat, d as nat) as int;
            assert(s <= 2 * n) by (nonlinear_arith)
                requires
                    s * d <= 2 * n,
                    d > 0,
                    s >= 0,
            ;
        }
        2 * to_significant(n, 2 * d)
    }
}

/// The power of two.
fn power_of_two(k: u32) -> (r: u128)
    requires
        k <= 120,
    ensures
        r == pow2(k as nat),
        0 < r <= 0x0100_0000_0000_0000_0000_0000_0000_0000,
{
    let mut r: u128 = 1;
    proof {
        vstd::arithmetic::power2::lemma2_to64();
        lemma_pow2_120();
    }
    for i in 0..k
        invariant
            k <= 120,
            r == pow2(i as nat),
            pow2(120) == 0x0100_0000_0000_0000_0000_0000_0000_0000,
    {
        proof {
            lemma_pow2_unfold((i + 1) as nat);
            if i + 1 < 120 {
                lemma_pow2_strictly_increases((i + 1) as nat, 120);
            }
        }
        r = r * 2;
    }
    proof {
        lemma_pow2_pos(k as nat);
        if k < 120 {
            lemma_pow2_strictly_increases(k as nat, 120);
        }
    }
    r
}

/// A large power of two.
proof fn lemma_pow2_120()
    ensures
        pow2(120) == 0x0100_0000_0000_0000_0000_0000_0000_0000,
{
    vstd::arithmetic::power2::lemma2_to64();
    vstd::arithmetic::power2::lemma2_to64_rest();
    lemma_pow2_adds(60, 60);
    assert(pow2(60) == 0x1000_0000_0000_0000);
    assert(0x1000_0000_0000_0000 * 0x1000_0000_0000_0000 == 0x0100_0000_0000_0000_0000_0000_0000_0000int)
        by (nonlinear_arith);
}

/// `n / 2^k` rounded to the nearest integer, a tie to the even one.
fn over_power(n: u128, k: u32) -> (q: u128)
    requires
        n <= 0x0000_0000_0100_0000_0000_0000_0000_0000,
    ensures
        q == rounded(n as int, pow2(k as nat) as int),
        q <= n + 1,
{
    if k <= 120 {
        let p = power_of_two(k);
        round_quotient(n, p)
    } else {
        proof {
            lemma_pow2_120();
            lemma_pow2_strictly_increases(120, k as nat);
            let p = pow2(k as nat) as int;
            vstd::arithmetic::div_mod::lemma_basic_div(n as int, p);
            vstd::arithmetic::div_mod::lemma_small_mod(n as nat, p as nat);
        }
        0
    }
}

/// The common power of two of a comparison cancels out.
proof fn lemma_shifted(a: nat, b: nat, k: nat, by: nat)
    ensures
        a * pow2(k) < b * pow2(k + by) <==> a < b * pow2(by),
        b * pow2(k + by) < a * pow2(k) <==> b * pow2(by) < a,
{
    lemma_pow2_adds(k, by);
    lemma_pow2_pos(k);
    let p = pow2(k) as int;
    let t = (b * pow2(by)) as int;
    assert(b * (pow2(k) * pow2(by)) == t * p) by (nonlinear_arith)
        requires
            t == b * pow2(by),
            p == pow2(k),
    ;
    assert(a * p < t * p <==> a < t) by (nonlinear_arith)
        requires
            p > 0,
    ;
    assert(t * p < a * p <==> t < a) by (nonlinear_arith)
        requires
            p > 0,
    ;
}

/// Comparing with a product is comparing with a quotient.
proof fn lemma_product_is_quotient(a: int, b: int, p: int)
    requires
        a >= 0,
        p > 0,
    ensures
        a < b * p <==> a / p < b,
{
    vstd::arithmetic::div_mod::lemma_fundamental_div_mod(a, p);
    vstd::arithmetic::div_mod::lemma_mod_bound(a, p);
    let q = a / p;
    let r = a % p;
    assert(p * q + r < b * p <==> q < b) by (nonlinear_arith)
        requires
            p > 0,
            0 <= r < p,
    ;
}

/// `a / 2^by`, rounded down.
fn floor_power(a: u128, by: u32) -> (q: u128)
    requires
        a <= 0x4_0000_0000_0000_0000,
    ensures
        q == a as int / pow2(by as nat) as int,
{
    if by <= 120 {
        a / power_of_two(by)
    } else {
        proof {
            lemma_pow2_120();
            lemma_pow2_strictly_increases(120, by as nat);
            vstd::arithmetic::div_mod::lemma_basic_div(a as int, pow2(by as nat) as int);
        }
        0
    }
}

/// Whether `a < b * 2^by`.
fn less_than_shifted(a: u128, b: u128, by: u32) -> (r: bool)
    requires
        a <= 0x4_0000_0000_0000_0000,
    ensures
        r == (a < b * pow2(by as nat)),
{
    proof {
        lemma_pow2_pos(by as nat);
        lemma_product_is_quotient(a as int, b as int, pow2(by as nat) as int);
    }
    floor_power(a, by) < b
}

/// Whether `b * 2^by < a`.
fn shifted_less_than(b: u128, a: u128, by: u32) -> (r: bool)
    requires
        a <= 0x4_0000_0000_0000_0000,
    ensures
        r == (b * pow2(by as nat) < a),
{
    let ghost p = pow2(by as nat) as int;
    proof {
        lemma_pow2_pos(by as nat);
        assert(b * p >= 0) by (nonlinear_arith)
            requires
                p > 0,
                b >= 0,
        ;
    }
    if a == 0 {
        return false;
    }
    proof {
        lemma_product_is_quotient(a - 1, b as int, p);
    }
    floor_power(a - 1, by) >= b
}

/// Append the last `k` decimal digits of `n`.
fn push_padded(out: &mut String, n: u128, k: usize)
    ensures
        final(out)@ == old(out)@ + padded(n as nat, k as nat),
    decreases k,
{
    if k > 0 {
        push_padded(out, n / 10, k - 1);
        out.push(digit((n % 10) as u64));
    }
    assert(out@ =~= old(out)@ + padded(n as nat, k as nat));
}

/// Append the decimal numeral of `n`.
fn push_wide(out: &mut String, n: u128)
    ensures
        final(out)@ == old(out)@ + dec(n as nat),
    decreases n,
{
    if n >= 10 {
        push_wide(out, n / 10);
    }
    out.push(digit((n % 10) as u64));
    assert(out@ =~= old(out)@ + dec(n as nat));
}

/// The text of `n / scale` with `k` decimals.
fn fixed(n: u128, scale: u128, k: usize) -> (out: String)
    requires
        scale > 0,
    ensures
        out@ == dec(n as nat / scale as nat) + "."@ + padded(n as nat, k as nat),
{
    let mut out = String::new();
    push_wide(&mut out, n / scale);
    assert(out@ =~= dec(n as nat / scale as nat));
    out.append(".");
    push_padded(&mut out, n, k);
    out
}

/// The double closest to a hundredth of a number of at most a hundred is at most
/// one.
pub(crate) proof fn lemma_nearest_of_hundredth(n: nat, k: nat)
    requires
        n <= 100 * pow2(k),
    ensures
        nearest(n, 100, k).0 <= pow2(nearest(n, 100, k).1),
    decreases MOST_PLACES - k,
{
    if k >= MOST_PLACES || n >= 0x10_0000_0000_0000 * 100 {
        lemma_significant_at_most(n, 100, k);
    } else {
        lemma_pow2_unfold(k + 1);
        lemma_nearest_of_hundredth(2 * n, k + 1);
    }
}

/// Keeping 53 bits of a quotient below a power of two stays within that power.
proof fn lemma_significant_at_most(n: nat, d: nat, k: nat)
    requires
        d > 0,
        n <= pow2(k) * d,
    ensures
        significant(n, d) <= pow2(k),
    decreases n - d,
{
    lemma_pow2_pos(k);
    if n < 0x20_0000_0000_0000 * d {
        lemma_rounded_at_most(n as int, d as int, pow2(k) as int);
    } else {
        let p = pow2(k) as int;
        assert(p >= 2) by (nonlinear_arith)
            requires
                n >= 0x20_0000_0000_0000 * d,
                n <= p * d,
                d > 0,
        ;
        assert(k > 0) by {
            vstd::arithmetic::power2::lemma2_to64();
        }
        lemma_pow2_unfold(k);
        let h = pow2((k - 1) as nat) as int;
        assert(n <= h * (2 * d)) by (nonlinear_arith)
            requires
                n <= p * d,
                p == 2 * h,
        ;
        lemma_significant_at_most(n, 2 * d, (k - 1) as nat);
    }
}

/// Rounding errs by at most one half.
proof fn lemma_rounded_is_close(n: int, d: int)
    requires
        n >= 0,
        d > 0,
    ensures
        -d <= 2 * (rounded(n, d) * d - n) <= d,
{
    vstd::arithmetic::div_mod::lemma_fundamental_div_mod(n, d);
    vstd::arithmetic::div_mod::lemma_mod_bound(n, d);
    let q = n / d;
    let r = n % d;
    assert((q + 1) * d == q * d + d) by (nonlinear_arith);
    assert(q * d == d * q) by (nonlinear_arith);
}

/// The double of a quotient below 2^53 errs by at most half a unit of its last
/// binary place, and uses all 53 bits unless it runs out of places.
pub proof fn lemma_nearest_is_close(n: nat, d: nat, k: nat)
    requires
        d > 0,
        k <= MOST_PLACES,
        n < 0x20_0000_0000_0000 * d,
    ensures
        ({
            let (m, places) = nearest(n, d, k);
            &&& k <= places <= MOST_PLACES
            &&& -(d as int) <= 2 * (m * d - n * pow2((places - k) as nat)) <= d
            &&& m >= 0x10_0000_0000_0000 || places == MOST_PLACES
        }),
    decreases MOST_PLACES - k,
{
    if k >= MOST_PLACES || n >= 0x10_0000_0000_0000 * d {
        lemma_rounded_is_close(n as int, d as int);
        vstd::arithmetic::power2::lemma2_to64();
        let p = pow2(0) as int;
        assert(n * p == n) by (nonlinear_arith)
            requires
                p == 1,
        ;
        if n >= 0x10_0000_0000_0000 * d {
            lemma_significant_large(n, d);
        }
    } else {
        lemma_nearest_is_close(2 * n, d, k + 1);
        let places = nearest(n, d, k).1;
        let p = pow2((places - k - 1) as nat) as int;
        lemma_pow2_unfold((places - k) as nat);
        assert(2 * n * p == n * (2 * p)) by (nonlinear_arith);
    }
}

/// An integer below 2^53 is kept as it is.
pub proof fn lemma_small_is_exact(n: nat)
    requires
        n < 0x20_0000_0000_0000,
    ensures
        significant(n, 1) == n,
{
}

/// Keeping 53 bits errs by less than one part in 2^53.
proof fn lemma_significant_is_close(n: nat, d: nat)
    requires
        d > 0,
    ensures
        n < 0x20_0000_0000_0000 * d ==> -(d as int) <= 2 * (significant(n, d) * d - n) <= d,
        n >= 0x20_0000_0000_0000 * d ==> -(n as int) <= 0x20_0000_0000_0000 * (significant(n, d) * d - n) <= n,
    decreases n - d,
{
    if n < 0x20_0000_0000_0000 * d {
        lemma_rounded_is_close(n as int, d as int);
    } else {
        lemma_significant_is_close(n, 2 * d);
        let s = significant(n, 2 * d);
        assert(significant(n, d) * d == s * (2 * d)) by (nonlinear_arith)
            requires
                significant(n, d) == 2 * s,
        ;
    }
}

/// The last digits of a number, zeros in front included, are read back as its
/// remainder.
proof fn lemma_padded_reads_back(n: nat)
    ensures
        padded(n, 1) == seq![digit_char(n % 10)],
        padded(n, 4).len() == 4,
        dec_value(padded(n, 4)) == n % 10_000,
{
    reveal_with_fuel(padded, 5);
    reveal_with_fuel(dec_value, 5);
    assert(padded(n, 1) =~= seq![digit_char(n % 10)]);
    let t = padded(n, 4);
    let a = digit_char((n / 10 / 10 / 10) % 10);
    let b = digit_char((n / 10 / 10) % 10);
    let c = digit_char((n / 10) % 10);
    let d = digit_char(n % 10);
    assert(t =~= seq![a, b, c, d]);
    assert(t.drop_last() =~= seq![a, b, c]);
    assert(t.drop_last().drop_last() =~= seq![a, b]);
    assert(t.drop_last().drop_last().drop_last() =~= seq![a]);
    assert(t.drop_last().drop_last().drop_last().drop_last() =~= Seq::<char>::empty());
}

/// A percentage is written as a whole number, a dot and one digit, and errs from
/// a hundred times the number by at most half a tenth but for one part in 2^53.
/// The four-digit form errs from the number by at most half of its last digit.
pub proof fn lemma_written_values_are_close(x: Double)
    ensures
        exists|tenths: nat, hundredfold: nat|
            #![trigger dec(tenths / 10), dec(hundredfold)]
            {
                let p = pow2(x.places as nat) as int;
                let exact = 100 * x.mantissa as int;
                &&& x.percent() == dec(tenths / 10) + "."@ + seq![digit_char(tenths % 10)]
                &&& -p <= 2 * (tenths * p - 10 * hundredfold) <= p
                &&& -(exact + 0x10_0000_0000_0000) <= 0x20_0000_0000_0000 * (hundredfold - exact) <= exact
                    + 0x10_0000_0000_0000
            },
        exists|parts: nat|
            #![trigger dec(parts / 10_000)]
            {
                let p = pow2(x.places as nat) as int;
                &&& x.decimal() == dec(parts / 10_000) + "."@ + padded(parts, 4)
                &&& dec_value(padded(parts, 4)) == parts % 10_000
                &&& -p <= 2 * (parts * p - 10_000 * x.mantissa) <= p
            },
{
    let p = pow2(x.places as nat) as int;
    lemma_pow2_pos(x.places as nat);
    let exact = 100 * x.mantissa as nat;
    let hundredfold = significant(exact, 1);
    lemma_significant_is_close(exact, 1);
    let tenths = rounded(10 * hundredfold as int, p) as nat;
    lemma_rounded_is_close(10 * hundredfold as int, p);
    lemma_rounded_bound(10 * hundredfold as int, p);
    lemma_padded_reads_back(tenths);
    assert(dec(tenths / 10) == dec(tenths / 10) && dec(hundredfold) == dec(hundredfold));
    let parts = rounded(10_000 * x.mantissa as int, p) as nat;
    lemma_rounded_is_close(10_000 * x.mantissa as int, p);
    lemma_rounded_bound(10_000 * x.mantissa as int, p);
    lemma_padded_reads_back(parts);
    assert(dec(parts / 10_000) == dec(parts / 10_000));
}

} // verus!
