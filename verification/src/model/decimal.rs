//! Decimal numerals of any length in double precision.

use super::double::{lemma_significant_large, nearest, rounded, significant, Double, MOST_PLACES};
use crate::text::{all_digits, dec_value, digit_value, is_digit};
use vstd::arithmetic::power2::{lemma_pow2_adds, lemma_pow2_pos, lemma_pow2_unfold, pow2};
use vstd::prelude::*;

verus! {

/// The power of ten.
pub open spec fn ten(k: nat) -> nat
    decreases k,
{
    if k == 0 {
        1
    } else {
        ten((k - 1) as nat) * 10
    }
}

/// The fraction that digits with a point stand for. The point may stand behind
/// or in front of the digits.
pub open spec fn fraction_of(d: Seq<char>, point: int) -> (nat, nat) {
    if point >= d.len() {
        (dec_value(d) * ten((point - d.len()) as nat), 1)
    } else {
        (dec_value(d), ten((d.len() - point) as nat))
    }
}

/// The double closest to what digits with a point stand for.
pub open spec fn parsed(d: Seq<char>, point: int) -> (nat, nat) {
    nearest(fraction_of(d, point).0, fraction_of(d, point).1, 0)
}

/// The position of the first digit that is not zero.
pub open spec fn first_nonzero(d: Seq<char>, z: int) -> bool {
    &&& 0 <= z < d.len()
    &&& d[z] != '0'
    &&& forall|j: int| 0 <= j < z ==> #[trigger] d[j] == '0'
}

// --- powers of ten and digits ------------------------------------------------------------

/// Powers of ten multiply.
proof fn lemma_ten_adds(a: nat, b: nat)
    ensures
        ten(a + b) == ten(a) * ten(b),
        ten(a) > 0,
    decreases b,
{
    lemma_ten_pos(a);
    if b == 0 {
        lemma_ten_zero(ten(a) as int);
    } else {
        lemma_ten_adds(a, (b - 1) as nat);
        let x = ten(a) as int;
        let y = ten((b - 1) as nat) as int;
        assert(x * y * 10 == x * (y * 10)) by (nonlinear_arith);
    }
}

/// The power of ten with exponent zero is one.
proof fn lemma_ten_zero(x: int)
    ensures
        ten(0) == 1,
        x * ten(0) == x,
{
    let t = ten(0) as int;
    assert(x * t == x) by (nonlinear_arith)
        requires
            t == 1,
    ;
}

/// A power of ten is positive.
proof fn lemma_ten_pos(a: nat)
    ensures
        ten(a) > 0,
    decreases a,
{
    if a > 0 {
        lemma_ten_pos((a - 1) as nat);
    }
}

/// A power of ten grows with its exponent.
proof fn lemma_ten_grows(a: nat, b: nat)
    requires
        a <= b,
    ensures
        ten(a) <= ten(b),
    decreases b,
{
    lemma_ten_pos(a);
    if a < b {
        lemma_ten_grows(a, (b - 1) as nat);
    }
}

/// A thousand is more than the ninth power of two.
proof fn lemma_ten_over_two(j: nat)
    ensures
        ten(3 * j) >= pow2(9 * j),
    decreases j,
{
    if j == 0 {
        vstd::arithmetic::power2::lemma2_to64();
    } else {
        let i = (j - 1) as nat;
        lemma_ten_over_two(i);
        lemma_ten_adds(3 * i, 3);
        lemma_pow2_adds(9 * i, 9);
        vstd::arithmetic::power2::lemma2_to64();
        reveal_with_fuel(ten, 4);
        assert(3 * i + 3 == 3 * j && 9 * i + 9 == 9 * j);
        let a = ten(3 * i) as int;
        let b = pow2(9 * i) as int;
        assert(a * 1000 >= b * 512) by (nonlinear_arith)
            requires
                a >= b >= 0,
        ;
    }
}

/// Digits make less than the power of ten of their number.
proof fn lemma_dec_value_bound(d: Seq<char>)
    requires
        all_digits(d),
    ensures
        dec_value(d) < ten(d.len()),
    decreases d.len(),
{
    if d.len() > 0 {
        assert forall|i: int| 0 <= i < d.drop_last().len() implies is_digit(#[trigger] d.drop_last()[i]) by {
            assert(is_digit(d[i]));
        }
        lemma_dec_value_bound(d.drop_last());
        assert(is_digit(d[d.len() - 1]));
    }
}

/// The value of digits, split at a position.
proof fn lemma_dec_value_split(d: Seq<char>, a: int)
    requires
        0 <= a <= d.len(),
    ensures
        dec_value(d) == dec_value(d.take(a)) * ten((d.len() - a) as nat) + dec_value(d.skip(a)),
    decreases d.len() - a,
{
    if a == d.len() {
        assert(d.take(a) =~= d);
        assert(d.skip(a) =~= Seq::empty());
        lemma_ten_zero(dec_value(d) as int);
    } else {
        let front = d.drop_last();
        lemma_dec_value_split(front, a);
        assert(front.take(a) =~= d.take(a));
        assert(front.skip(a) =~= d.skip(a).drop_last());
        assert(d.skip(a).last() == d.last());
        let x = dec_value(d.take(a)) as int;
        let t = ten((front.len() - a) as nat) as int;
        assert(x * t * 10 == x * (t * 10)) by (nonlinear_arith);
    }
}

/// Zeros in front make nothing.
proof fn lemma_zeros(d: Seq<char>)
    requires
        forall|j: int| 0 <= j < d.len() ==> #[trigger] d[j] == '0',
    ensures
        dec_value(d) == 0,
    decreases d.len(),
{
    if d.len() > 0 {
        lemma_zeros(d.drop_last());
        assert(d[d.len() - 1] == '0');
    }
}

/// The size of digits is that of their first nonzero one.
proof fn lemma_first_nonzero_size(d: Seq<char>, z: int)
    requires
        all_digits(d),
        first_nonzero(d, z),
    ensures
        ten((d.len() - 1 - z) as nat) <= dec_value(d) < ten((d.len() - z) as nat),
{
    lemma_dec_value_split(d, z);
    lemma_zeros(d.take(z));
    let rest = d.skip(z);
    assert forall|i: int| 0 <= i < rest.len() implies is_digit(#[trigger] rest[i]) by {
        assert(is_digit(d[i + z]));
    }
    lemma_dec_value_bound(rest);
    lemma_dec_value_split(rest, 1);
    let one = rest.take(1);
    assert(one.drop_last() =~= Seq::empty());
    assert(is_digit(d[z]));
    assert(dec_value(one.drop_last()) == 0);
    assert(one.last() == d[z]);
    assert(dec_value(one) == digit_value(d[z]));
    let x = dec_value(one) as int;
    let t = ten((rest.len() - 1) as nat) as int;
    assert(x * t >= t) by (nonlinear_arith)
        requires
            x >= 1,
            t >= 0,
    ;
}

// --- decimal fractions ---------------------------------------------------------------------

/// Whether every element is a decimal digit.
spec fn is_decimal(s: Seq<u8>) -> bool {
    forall|i: int| 0 <= i < s.len() ==> #[trigger] s[i] <= 9
}

/// The value of the digits from a position on.
spec fn tail_value(s: Seq<u8>, i: int) -> nat
    decreases s.len() - i,
{
    if i < 0 || i >= s.len() {
        0
    } else {
        s[i] as nat * ten((s.len() - 1 - i) as nat) + tail_value(s, i + 1)
    }
}

/// Digits make less than the power of ten of their number.
proof fn lemma_tail_bound(s: Seq<u8>, i: int)
    requires
        is_decimal(s),
        0 <= i <= s.len(),
    ensures
        tail_value(s, i) < ten((s.len() - i) as nat),
    decreases s.len() - i,
{
    if i < s.len() {
        lemma_tail_bound(s, i + 1);
        let x = s[i] as int;
        let t = ten((s.len() - 1 - i) as nat) as int;
        assert(x * t + t <= t * 10) by (nonlinear_arith)
            requires
                x <= 9,
                t >= 0,
        ;
    }
}

/// The value from a position on depends on those digits alone.
proof fn lemma_tail_frame(a: Seq<u8>, b: Seq<u8>, i: int)
    requires
        a.len() == b.len(),
        0 <= i,
        forall|j: int| i <= j < a.len() ==> #[trigger] a[j] == b[j],
    ensures
        tail_value(a, i) == tail_value(b, i),
    decreases a.len() - i,
{
    if i < a.len() {
        lemma_tail_frame(a, b, i + 1);
    }
}

/// One digit more at the end.
proof fn lemma_tail_push(s: Seq<u8>, x: u8, i: int)
    requires
        0 <= i <= s.len(),
    ensures
        tail_value(s.push(x), i) == tail_value(s, i) * 10 + x,
    decreases s.len() - i,
{
    let p = s.push(x);
    if i == s.len() {
        assert(tail_value(p, i + 1) == 0);
        lemma_ten_zero(x as int);
    } else {
        lemma_tail_push(s, x, i + 1);
        let y = s[i] as int;
        let t = ten((s.len() - 1 - i) as nat) as int;
        assert(y * (t * 10) == y * t * 10) by (nonlinear_arith);
    }
}

/// Double a decimal fraction; the carry in front of it.
fn twice(f: &mut Vec<u8>) -> (carry: u8)
    requires
        is_decimal(old(f)@),
    ensures
        final(f)@.len() == old(f)@.len(),
        is_decimal(final(f)@),
        carry <= 1,
        carry * ten(old(f)@.len()) + tail_value(final(f)@, 0) == 2 * tail_value(old(f)@, 0),
{
    let ghost before = f@;
    let mut carry: u8 = 0;
    let mut i: usize = f.len();
    while i > 0
        invariant
            i <= f@.len(),
            f@.len() == before.len(),
            is_decimal(before),
            is_decimal(f@),
            carry <= 1,
            forall|j: int| 0 <= j < i ==> #[trigger] f@[j] == before[j],
            carry * ten((before.len() - i) as nat) + tail_value(f@, i as int) == 2 * tail_value(before, i as int),
        decreases i,
    {
        let ghost mid = f@;
        let ghost had = carry as int;
        i = i - 1;
        assert(f@[i as int] <= 9);
        let t: u8 = 2 * f[i] + carry;
        f[i] = t % 10;
        carry = t / 10;
        proof {
            lemma_tail_frame(mid, f@, i + 1);
            let p = ten((before.len() - 1 - i) as nat) as int;
            let x = before[i as int] as int;
            let low = (t % 10) as int;
            let high = (t / 10) as int;
            let rest = tail_value(mid, i + 1) as int;
            let old_rest = tail_value(before, i + 1) as int;
            assert(high * (p * 10) + (low * p + rest) == 2 * (x * p + old_rest)) by (nonlinear_arith)
                requires
                    had * p + rest == 2 * old_rest,
                    high * 10 + low == 2 * x + had,
            ;
        }
    }
    carry
}

/// Whether a decimal fraction is more than zero.
fn is_positive(f: &Vec<u8>) -> (r: bool)
    ensures
        r == (tail_value(f@, 0) > 0),
{
    let mut i: usize = f.len();
    while i > 0
        invariant
            i <= f@.len(),
            tail_value(f@, i as int) == 0,
        decreases i,
    {
        i = i - 1;
        proof {
            let t = ten((f@.len() - 1 - i) as nat) as int;
            lemma_ten_pos((f@.len() - 1 - i) as nat);
            let x = f@[i as int] as int;
            assert(x > 0 ==> x * t > 0) by (nonlinear_arith)
                requires
                    t > 0,
            ;
        }
        if f[i] != 0 {
            proof {
                lemma_tail_positive(f@, i as int);
            }
            return true;
        }
    }
    false
}

/// What is more than zero from a position on is so from the start.
proof fn lemma_tail_positive(s: Seq<u8>, i: int)
    requires
        0 <= i <= s.len(),
        tail_value(s, i) > 0,
    ensures
        tail_value(s, 0) > 0,
    decreases i,
{
    if i > 0 {
        lemma_tail_positive(s, i - 1);
    }
}

/// A whole number and a remainder are what division finds.
proof fn lemma_parts(n: int, q: int, d: int, r: int)
    requires
        n == q * d + r,
        0 <= r < d,
    ensures
        n / d == q,
        n % d == r,
{
    assert(q * d == d * q) by (nonlinear_arith);
    vstd::arithmetic::div_mod::lemma_fundamental_div_mod_converse(n, d, q, r);
}

/// The double closest to a whole number and a decimal fraction.
fn closest_decimal(whole: u128, fraction: Vec<u8>) -> (r: Double)
    requires
        whole < 0x10_0000_0000_0000,
        is_decimal(fraction@),
    ensures
        r.is(nearest(whole as nat * ten(fraction@.len()) + tail_value(fraction@, 0), ten(fraction@.len()), 0)),
        r.mantissa <= 0x20_0000_0000_0000,
        r.wf(),
{
    let mut f: Vec<u8> = fraction;
    let mut units: u128 = whole;
    let mut places: u32 = 0;
    let ghost d = ten(f@.len());
    let ghost n = whole as nat * d + tail_value(f@, 0);
    let ghost len = f@.len();
    while places < MOST_PLACES && units < 0x10_0000_0000_0000
        invariant
            f@.len() == len,
            d == ten(len),
            is_decimal(f@),
            units < 0x20_0000_0000_0000,
            places <= MOST_PLACES,
            nearest(n, d, 0) == nearest(units as nat * d + tail_value(f@, 0), d, places as nat),
        decreases MOST_PLACES - places,
    {
        let ghost had = units as int;
        let ghost part = tail_value(f@, 0) as int;
        proof {
            lemma_tail_bound(f@, 0);
            assert(had * d + part < 0x10_0000_0000_0000 * d) by (nonlinear_arith)
                requires
                    had + 1 <= 0x10_0000_0000_0000,
                    part < d,
            ;
        }
        let carry = twice(&mut f);
        units = 2 * units + carry as u128;
        places = places + 1;
        proof {
            let c = carry as int;
            let now = tail_value(f@, 0) as int;
            assert((2 * had + c) * d + now == 2 * (had * d + part)) by (nonlinear_arith)
                requires
                    c * d + now == 2 * part,
            ;
        }
    }
    let ghost rest = tail_value(f@, 0) as int;
    let ghost all = units as nat * d + tail_value(f@, 0);
    proof {
        lemma_tail_bound(f@, 0);
        lemma_parts(all as int, units as int, d as int, rest);
        let i = units as int;
        assert(i * d + rest < 0x20_0000_0000_0000 * d) by (nonlinear_arith)
            requires
                i + 1 <= 0x20_0000_0000_0000,
                rest < d,
        ;
        assert(i >= 0x10_0000_0000_0000 ==> i * d + rest >= 0x10_0000_0000_0000 * d) by (nonlinear_arith)
            requires
                rest >= 0,
                d >= 0,
        ;
        assert(nearest(n, d, 0) == (significant(all, d), places as nat));
        assert(significant(all, d) == rounded(all as int, d as int));
    }
    let carry = twice(&mut f);
    let up = carry == 1 && (is_positive(&f) || units % 2 == 1);
    proof {
        lemma_tail_bound(f@, 0);
        let c = carry as int;
        assert(c == 0 ==> c * d == 0) by (nonlinear_arith);
        assert(c == 1 ==> c * d == d) by (nonlinear_arith);
    }
    let mantissa: u128 = if up {
        units + 1
    } else {
        units
    };
    Double { mantissa, places }
}

// --- numerals --------------------------------------------------------------------------------

/// A number of at least 101 rounds to more than 100.
proof fn lemma_large(n: nat, d: nat, k: nat)
    requires
        d > 0,
        n >= 101 * pow2(k) * d,
        k <= MOST_PLACES,
        k == 0 || n < 0x20_0000_0000_0000 * d,
    ensures
        nearest(n, d, k).0 > 100 * pow2(nearest(n, d, k).1),
    decreases MOST_PLACES - k,
{
    lemma_pow2_pos(k);
    if k >= MOST_PLACES || n >= 0x10_0000_0000_0000 * d {
        if n < 0x20_0000_0000_0000 * d {
            let b = 101 * pow2(k) as int;
            vstd::arithmetic::div_mod::lemma_fundamental_div_mod(n as int, d as int);
            vstd::arithmetic::div_mod::lemma_mod_bound(n as int, d as int);
            let q = n as int / d as int;
            let r = n as int % d as int;
            assert(q >= b) by (nonlinear_arith)
                requires
                    n == d * q + r,
                    r < d,
                    n >= b * d,
                    d > 0,
            ;
            assert(rounded(n as int, d as int) >= q);
        } else {
            vstd::arithmetic::power2::lemma2_to64();
            lemma_significant_large(n, d);
        }
    } else {
        lemma_pow2_unfold(k + 1);
        assert(101 * pow2(k + 1) * d == 2 * (101 * pow2(k) * d)) by (nonlinear_arith)
            requires
                pow2(k + 1) == 2 * pow2(k),
        ;
        lemma_large(2 * n, d, k + 1);
    }
}

/// A number below half of the least double rounds to zero.
proof fn lemma_tiny(n: nat, d: nat, k: nat)
    requires
        k <= MOST_PLACES,
        n * pow2((1075 - k) as nat) < d,
    ensures
        nearest(n, d, k).0 == 0,
    decreases MOST_PLACES - k,
{
    lemma_pow2_unfold((1075 - k) as nat);
    let p = pow2((1074 - k) as nat) as int;
    lemma_pow2_pos((1074 - k) as nat);
    assert(n * (2 * p) == 2 * n * p) by (nonlinear_arith);
    assert(2 * n * p >= 2 * n) by (nonlinear_arith)
        requires
            p >= 1,
            n >= 0,
    ;
    if k >= MOST_PLACES {
        lemma_parts(n as int, 0, d as int, n as int);
    } else {
        lemma_tiny(2 * n, d, k + 1);
    }
}

/// What digits with a point stand for is large or tiny by where their first
/// nonzero digit stands.
proof fn lemma_reach(d: Seq<char>, point: int, z: int)
    requires
        all_digits(d),
        first_nonzero(d, z),
    ensures
        z <= point - 4 ==> parsed(d, point).0 > 100 * pow2(parsed(d, point).1),
        z >= point + 360 ==> parsed(d, point).0 == 0,
{
    let (n, den) = fraction_of(d, point);
    lemma_first_nonzero_size(d, z);
    if z <= point - 4 {
        let size = (d.len() - 1 - z) as nat;
        reveal_with_fuel(ten, 4);
        lemma_ten_grows(3, (point - 1 - z) as nat);
        if point >= d.len() {
            let shift = (point - d.len()) as nat;
            lemma_ten_adds(size, shift);
            assert(size + shift == point - 1 - z);
            let v = dec_value(d) as int;
            let t = ten(shift) as int;
            assert(v * t >= ten(size) * t) by (nonlinear_arith)
                requires
                    v >= ten(size),
                    t >= 0,
            ;
        } else {
            lemma_ten_adds((point - 1 - z) as nat, (d.len() - point) as nat);
            let a = ten((point - 1 - z) as nat) as int;
            assert(a * den >= 1000 * den) by (nonlinear_arith)
                requires
                    a >= 1000,
                    den >= 0,
            ;
        }
        lemma_ten_pos((d.len() - point) as nat);
        vstd::arithmetic::power2::lemma2_to64();
        let one = pow2(0) as int;
        assert(101 * one * den == 101 * den) by (nonlinear_arith)
            requires
                one == 1,
        ;
        assert(n >= 1000 * den);
        lemma_large(n, den, 0);
    }
    if z >= point + 360 {
        let far = (z - point) as nat;
        lemma_ten_adds((d.len() - z) as nat, far);
        lemma_ten_grows(360, far);
        lemma_ten_over_two(120);
        lemma_pow2_adds(1075, 5);
        vstd::arithmetic::power2::lemma2_to64();
        let a = ten((d.len() - z) as nat) as int;
        let b = ten(far) as int;
        let p = pow2(1075) as int;
        lemma_pow2_pos(1075);
        assert(n * p < a * b) by (nonlinear_arith)
            requires
                0 <= n < a,
                0 < p <= b,
        ;
        lemma_tiny(n, den, 0);
    }
}

/// The position of the first nonzero digit.
fn find_nonzero(d: &[char]) -> (r: Option<usize>)
    ensures
        r matches Some(z) ==> first_nonzero(d@, z as int),
        r is None ==> forall|j: int| 0 <= j < d@.len() ==> #[trigger] d@[j] == '0',
{
    for i in 0..d.len()
        invariant
            forall|j: int| 0 <= j < i ==> #[trigger] d@[j] == '0',
    {
        if d[i] != '0' {
            return Some(i);
        }
    }
    None
}

/// The digits in front of the point, which are few.
fn whole_part(d: &[char], point: usize, z: usize) -> (v: u128)
    requires
        all_digits(d@),
        first_nonzero(d@, z as int),
        point <= d@.len(),
        point < z + 4,
    ensures
        v == dec_value(d@.take(point as int)),
        point <= z ==> v == 0,
        point > z ==> v < ten((point - z) as nat),
{
    let mut v: u128 = 0;
    proof {
        reveal_with_fuel(ten, 4);
    }
    for i in 0..point
        invariant
            all_digits(d@),
            first_nonzero(d@, z as int),
            point <= d@.len(),
            point < z + 4,
            ten(3) == 1000,
            v == dec_value(d@.take(i as int)),
            i <= z ==> v == 0,
            i > z ==> v < ten((i - z) as nat),
    {
        assert(d@.take(i as int + 1).drop_last() =~= d@.take(i as int));
        assert(is_digit(d@[i as int]));
        proof {
            if i > z {
                lemma_ten_grows((i - z) as nat, 3);
            }
            reveal_with_fuel(ten, 2);
            if i < z {
                assert(d@[i as int] == '0');
            }
        }
        v = v * 10 + (d[i] as u32 - '0' as u32) as u128;
    }
    v
}

/// The double closest to what digits with a point stand for, or nothing where
/// it is zero or more than a hundred by far. `point` stands for `p`, which may
/// be out of the reach of any length.
pub(crate) fn closest_written(d: &[char], point: i128, Ghost(p): Ghost<int>) -> (r: Option<Double>)
    requires
        all_digits(d@),
        -0x8_0000_0000_0000_0000 < point < 0x8_0000_0000_0000_0000,
        point == p || (point <= -0x1_0000_0000_0000_0000 && p <= -0x1_0000_0000_0000_0000) || (point
            >= 0x1_0000_0000_0000_0010 && p >= 0x1_0000_0000_0000_0010),
    ensures
        r is None ==> parsed(d@, p).0 == 0 || parsed(d@, p).0 > 100 * pow2(parsed(d@, p).1),
        r matches Some(x) ==> x.is(parsed(d@, p)) && x.wf() && x.mantissa <= 0x20_0000_0000_0000,
{
    let z: usize = match find_nonzero(d) {
        Some(z) => z,
        None => {
            proof {
                lemma_zeros(d@);
                let (n, den) = fraction_of(d@, p);
                lemma_ten_pos((d@.len() - p) as nat);
                assert(0 * ten((p - d@.len()) as nat) == 0) by (nonlinear_arith);
                assert(n == 0);
                assert(0 * pow2(1075) == 0) by (nonlinear_arith);
                lemma_tiny(n, den, 0);
            }
            return None;
        },
    };
    proof {
        lemma_reach(d@, p, z as int);
    }
    if z as i128 <= point - 4 || z as i128 >= point + 360 {
        return None;
    }
    assert(point == p);
    let mut fraction: Vec<u8> = Vec::new();
    let mut whole: u128 = 0;
    let from: usize;
    proof {
        reveal_with_fuel(ten, 4);
    }
    if point < 0 {
        let zeros: usize = (-point) as usize;
        for i in 0..zeros
            invariant
                is_decimal(fraction@),
                fraction@.len() == i,
                tail_value(fraction@, 0) == 0,
        {
            proof {
                lemma_tail_push(fraction@, 0, 0);
            }
            fraction.push(0);
        }
        from = 0;
        assert(d@.take(0) =~= Seq::empty());
    } else if point >= d.len() as i128 {
        whole = whole_part(d, d.len(), z);
        let more: usize = (point - d.len() as i128) as usize;
        let ghost base = whole as nat;
        proof {
            assert(d@.take(d@.len() as int) =~= d@);
            lemma_ten_grows((d@.len() - z) as nat, 3);
            lemma_ten_zero(base as int);
        }
        for i in 0..more
            invariant
                more <= 3,
                base < 1000,
                ten(3) == 1000,
                whole == base * ten(i as nat),
        {
            proof {
                lemma_ten_grows(i as nat, 3);
                let t = ten(i as nat) as int;
                assert(base * t < 1_000_000) by (nonlinear_arith)
                    requires
                        0 <= base < 1000,
                        0 <= t <= 1000,
                ;
                assert(base * (t * 10) == base * t * 10) by (nonlinear_arith);
            }
            whole = whole * 10;
        }
        proof {
            lemma_ten_grows(more as nat, 3);
            let t = ten(more as nat) as int;
            assert(base * t < 1_000_000) by (nonlinear_arith)
                requires
                    0 <= base < 1000,
                    0 <= t <= 1000,
            ;
            lemma_ten_zero(whole as int);
            assert(tail_value(fraction@, 0) == 0);
        }
        return Some(closest_decimal(whole, fraction));
    } else {
        from = point as usize;
        whole = whole_part(d, from, z);
        proof {
            if from > z {
                lemma_ten_grows((from - z) as nat, 3);
            }
        }
    }
    let ghost lead = fraction@.len();
    assert(d@.subrange(from as int, from as int) =~= Seq::empty());
    for i in from..d.len()
        invariant
            all_digits(d@),
            from <= d@.len(),
            is_decimal(fraction@),
            fraction@.len() == lead + i - from,
            tail_value(fraction@, 0) == dec_value(d@.subrange(from as int, i as int)),
    {
        assert(is_digit(d@[i as int]));
        let x: u8 = (d[i] as u32 - '0' as u32) as u8;
        proof {
            lemma_tail_push(fraction@, x, 0);
            assert(d@.subrange(from as int, i as int + 1).drop_last() =~= d@.subrange(from as int, i as int));
        }
        fraction.push(x);
    }
    proof {
        assert(d@.subrange(from as int, d@.len() as int) =~= d@.skip(from as int));
        lemma_dec_value_split(d@, from as int);
        if point < 0 {
            assert(dec_value(d@.take(0)) == 0);
            assert(0 * ten(d@.len()) == 0) by (nonlinear_arith);
            assert(0 * ten(fraction@.len()) == 0) by (nonlinear_arith);
        }
        assert(fraction@.len() == d@.len() - point);
    }
    Some(closest_decimal(whole, fraction))
}

} // verus!
