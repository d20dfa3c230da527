use vstd::prelude::*;

verus! {

/// The fixed-point scale of the swap formula: one is 10^18.
pub const SCALE: u128 = 1_000_000_000_000_000_000;

/// The scaled power `base^n` in fixed point: each step multiplies by `base`
/// and divides by the scale, rounding down.
pub open spec fn scaled_pow(base: int, n: nat) -> int
    decreases n,
{
    if n == 0 {
        SCALE as int
    } else {
        (scaled_pow(base, (n - 1) as nat) * base) / (SCALE as int)
    }
}

/// The greatest common divisor.
pub open spec fn gcd(a: nat, b: nat) -> nat
    decreases b,
{
    if b == 0 {
        a
    } else {
        gcd(b, a % b)
    }
}

/// The greatest common divisor of `a` and a positive `b` is positive and at
/// most `b`.
pub proof fn lemma_gcd_bounds(a: nat, b: nat)
    requires
        b > 0,
    ensures
        0 < gcd(a, b) <= b,
    decreases b,
{
    assert(gcd(a, b) == gcd(b, a % b));
    if a % b != 0 {
        lemma_gcd_bounds(b, a % b);
    } else {
        assert(gcd(b, 0) == b);
    }
}

/// The scaled base `b_i / (b_i + a)`.
pub open spec fn swap_base(b_i: int, a: int) -> int {
    (b_i * SCALE) / (b_i + a)
}

/// The scaled exponent `w_i / w_o` in hundredths, rounded down.
pub open spec fn swap_exponent(w_i: int, w_o: int) -> int {
    (w_i * 100) / w_o
}

/// The exponent `e / 100` as a reduced fraction: its numerator and its
/// denominator.
pub open spec fn exponent_parts(e: nat) -> (nat, nat) {
    let g = gcd(e, 100);
    (e / g, 100nat / g)
}

/// Whether `r` is the fixed-point `d`-th root of `x`: the largest fixed-point
/// number of at most one whose scaled `d`-th power is at most `x`.
pub open spec fn is_root(r: int, x: int, d: nat) -> bool {
    &&& 0 <= r <= SCALE
    &&& scaled_pow(r, d) <= x
    &&& (r == SCALE || scaled_pow(r + 1, d) > x)
}

/// The fixed-point `d`-th root of `x` (see `is_root`).
pub open spec fn fixed_root(x: int, d: nat) -> int {
    choose|r: int| is_root(r, x, d)
}

/// The power in the swap formula: the scaled base raised to the exponent
/// `w_i / w_o` (in hundredths): with the exponent reduced to `n / d`, the
/// fixed-point `d`-th root of the base raised to the `n`-th power.
pub open spec fn swap_power(b_i: int, w_i: int, w_o: int, a: int) -> int {
    let parts = exponent_parts(swap_exponent(w_i, w_o) as nat);
    scaled_pow(fixed_root(swap_base(b_i, a), parts.1), parts.0)
}

/// The amount out of a weighted pool for `a` in:
/// `b_o * (1 - (b_i / (b_i + a)) ^ (w_i / w_o))` in fixed point with scale
/// 10^18, the exponent taken in hundredths.
pub open spec fn out_given_in_value(b_i: int, w_i: int, b_o: int, w_o: int, a: int) -> int {
    (b_o * (SCALE - swap_power(b_i, w_i, w_o, a))) / (SCALE as int)
}

/// Whether every amount of the computation fits in 128 bits.
pub open spec fn out_given_in_fits(b_i: int, w_i: int, b_o: int, w_o: int, a: int) -> bool {
    &&& b_i + a <= u128::MAX
    &&& b_i * SCALE <= u128::MAX
    &&& w_i * 100 <= u128::MAX
    &&& b_o * (SCALE - swap_power(b_i, w_i, w_o, a)) <= u128::MAX
}

/// A scaled power of a base at most one is at most one and not negative.
pub proof fn lemma_scaled_pow_bounds(base: int, n: nat)
    requires
        0 <= base <= SCALE,
    ensures
        0 <= scaled_pow(base, n) <= SCALE,
    decreases n,
{
    if n > 0 {
        lemma_scaled_pow_bounds(base, (n - 1) as nat);
        let p = scaled_pow(base, (n - 1) as nat);
        assert(0 <= (p * base) / (SCALE as int) <= p) by (nonlinear_arith)
            requires
                0 <= p <= SCALE,
                0 <= base <= SCALE,
                SCALE > 0,
        ;
    }
}

/// A larger base has a larger scaled power.
pub proof fn lemma_scaled_pow_monotone(a: int, b: int, n: nat)
    requires
        0 <= a <= b <= SCALE,
    ensures
        scaled_pow(a, n) <= scaled_pow(b, n),
    decreases n,
{
    if n > 0 {
        lemma_scaled_pow_monotone(a, b, (n - 1) as nat);
        lemma_scaled_pow_bounds(a, (n - 1) as nat);
        let pa = scaled_pow(a, (n - 1) as nat);
        let pb = scaled_pow(b, (n - 1) as nat);
        let s = SCALE as int;
        assert((pa * a) / s <= (pb * b) / s) by (nonlinear_arith)
            requires
                0 <= pa <= pb,
                0 <= a <= b,
                s > 0,
        ;
    }
}

/// Zero to a positive power is zero.
pub proof fn lemma_scaled_pow_zero(n: nat)
    requires
        n > 0,
    ensures
        scaled_pow(0, n) == 0,
{
}

/// A fixed-point root is unique.
pub proof fn lemma_root_unique(r1: int, r2: int, x: int, d: nat)
    requires
        is_root(r1, x, d),
        is_root(r2, x, d),
    ensures
        r1 == r2,
{
    if r1 < r2 {
        lemma_scaled_pow_monotone(r1 + 1, r2, d);
    } else if r2 < r1 {
        lemma_scaled_pow_monotone(r2 + 1, r1, d);
    }
}

/// A fixed-point root is the one `fixed_root` names.
pub proof fn lemma_root_is_fixed_root(r: int, x: int, d: nat)
    requires
        is_root(r, x, d),
    ensures
        fixed_root(x, d) == r,
{
    lemma_root_unique(fixed_root(x, d), r, x, d);
}

/// Every `x` from 0 to one has a fixed-point `d`-th root, for `d` at least
/// one: looking upwards from a number whose power is at most `x`.
pub proof fn lemma_root_exists_from(x: int, d: nat, k: int)
    requires
        0 <= k <= SCALE,
        scaled_pow(k, d) <= x,
    ensures
        is_root(fixed_root(x, d), x, d),
    decreases SCALE - k,
{
    if k == SCALE || scaled_pow(k + 1, d) > x {
        lemma_root_is_fixed_root(k, x, d);
    } else {
        lemma_root_exists_from(x, d, k + 1);
    }
}

/// The root of every `x` from 0 to one exists, for `d` at least one.
pub proof fn lemma_root_exists(x: int, d: nat)
    requires
        0 <= x <= SCALE,
        d > 0,
    ensures
        is_root(fixed_root(x, d), x, d),
{
    lemma_scaled_pow_zero(d);
    lemma_root_exists_from(x, d, 0);
}

/// A larger number has a larger root.
pub proof fn lemma_root_monotone(x1: int, x2: int, d: nat)
    requires
        x1 <= x2,
        is_root(fixed_root(x1, d), x1, d),
        is_root(fixed_root(x2, d), x2, d),
    ensures
        fixed_root(x1, d) <= fixed_root(x2, d),
{
    let r1 = fixed_root(x1, d);
    let r2 = fixed_root(x2, d);
    if r1 > r2 {
        lemma_scaled_pow_monotone(r2 + 1, r1, d);
    }
}

/// The greatest common divisor, by Euclid's algorithm.
fn gcd_of(a: u128, b: u128) -> (g: u128)
    ensures
        g == gcd(a as nat, b as nat),
{
    let mut x = a;
    let mut y = b;
    while y != 0
        invariant
            gcd(x as nat, y as nat) == gcd(a as nat, b as nat),
        decreases y,
    {
        let t = x % y;
        x = y;
        y = t;
    }
    x
}

/// The scaled power `b^n` (see `scaled_pow`).
fn fixed_pow(b: u128, n: u128) -> (p: u128)
    requires
        b <= SCALE,
    ensures
        p == scaled_pow(b as int, n as nat),
{
    let mut p: u128 = SCALE;
    let mut k: u128 = 0;
    while k < n
        invariant
            b <= SCALE,
            k <= n,
            p == scaled_pow(b as int, k as nat),
        decreases n - k,
    {
        proof {
            lemma_scaled_pow_bounds(b as int, k as nat);
        }
        assert(p * b <= SCALE * SCALE) by (nonlinear_arith)
            requires
                0 <= p <= SCALE,
                0 <= b <= SCALE,
        ;
        p = (p * b) / SCALE;
        k = k + 1;
    }
    p
}

/// The fixed-point `d`-th root of `x` (see `is_root`), by bisection.
fn find_root(x: u128, d: u128) -> (r: u128)
    requires
        x <= SCALE,
        d > 0,
    ensures
        is_root(r as int, x as int, d as nat),
{
    proof {
        lemma_scaled_pow_zero(d as nat);
    }
    let mut lo: u128 = 0;
    let mut hi: u128 = SCALE + 1;
    while hi - lo > 1
        invariant
            x <= SCALE,
            d > 0,
            lo < hi <= SCALE + 1,
            scaled_pow(lo as int, d as nat) <= x,
            hi == SCALE + 1 || scaled_pow(hi as int, d as nat) > x,
        decreases hi - lo,
    {
        let mid = lo + (hi - lo) / 2;
        if fixed_pow(mid, d) <= x {
            lo = mid;
        } else {
            hi = mid;
        }
    }
    lo
}

/// The amount out of a weighted pool for `amount_in` in (see
/// `out_given_in_value`), or `None` where an amount does not fit in 128
/// bits. A zero `b_i + amount_in` or a zero `w_o` would divide by zero.
pub fn out_given_in(b_i: u128, w_i: u128, b_o: u128, w_o: u128, amount_in: u128) -> (r: Option<u128>)
    requires
        b_i + amount_in > 0,
        w_o > 0,
    ensures
        out_given_in_fits(b_i as int, w_i as int, b_o as int, w_o as int, amount_in as int) ==> (r matches Some(q)
            && q == out_given_in_value(b_i as int, w_i as int, b_o as int, w_o as int, amount_in as int)),
        !out_given_in_fits(b_i as int, w_i as int, b_o as int, w_o as int, amount_in as int) ==> r is None,
{
    let denominator = match b_i.checked_add(amount_in) {
        Some(d) => d,
        None => {
            return None;
        },
    };
    let scaled = match b_i.checked_mul(SCALE) {
        Some(x) => x,
        None => {
            return None;
        },
    };
    let base = scaled / denominator;
    proof {
        lemma_swap_base_bounds(b_i as int, amount_in as int);
    }
    let exponent = match w_i.checked_mul(100) {
        Some(x) => x / w_o,
        None => {
            return None;
        },
    };
    let g = gcd_of(exponent, 100);
    proof {
        lemma_gcd_bounds(exponent as nat, 100);
    }
    let n = exponent / g;
    let d = 100 / g;
    assert(d > 0) by (nonlinear_arith)
        requires
            0 < g <= 100,
            d == 100u128 / g,
    ;
    let root = find_root(base, d);
    proof {
        lemma_root_is_fixed_root(root as int, base as int, d as nat);
        lemma_scaled_pow_bounds(root as int, n as nat);
    }
    let power = fixed_pow(root, n);
    let complement = SCALE - power;
    match b_o.checked_mul(complement) {
        Some(x) => Some(x / SCALE),
        None => None,
    }
}

/// The scaled base of a swap is at most one and not negative.
pub proof fn lemma_swap_base_bounds(b_i: int, a: int)
    requires
        b_i >= 0,
        a >= 0,
        b_i + a > 0,
    ensures
        0 <= swap_base(b_i, a) <= SCALE,
{
    let s = SCALE as int;
    assert(0 <= (b_i * s) / (b_i + a) <= s) by (nonlinear_arith)
        requires
            b_i >= 0,
            a >= 0,
            b_i + a > 0,
            s > 0,
    ;
}

/// The power of a swap is between zero and one.
pub proof fn lemma_swap_power_bounds(b_i: int, w_i: int, w_o: int, a: int)
    requires
        b_i >= 0,
        a >= 0,
        b_i + a > 0,
        w_i >= 0,
        w_o > 0,
    ensures
        0 <= swap_power(b_i, w_i, w_o, a) <= SCALE,
{
    let e = swap_exponent(w_i, w_o);
    assert(e >= 0) by (nonlinear_arith)
        requires
            w_i >= 0,
            w_o > 0,
            e == (w_i * 100) / w_o,
    ;
    lemma_gcd_bounds(e as nat, 100);
    let parts = exponent_parts(e as nat);
    assert(parts.1 > 0) by (nonlinear_arith)
        requires
            0 < gcd(e as nat, 100) <= 100,
            parts.1 == 100nat / gcd(e as nat, 100),
    ;
    lemma_swap_base_bounds(b_i, a);
    lemma_root_exists(swap_base(b_i, a), parts.1);
    lemma_scaled_pow_bounds(fixed_root(swap_base(b_i, a), parts.1), parts.0);
}

/// What a swap pays out is never negative and never more than the pool
/// holds of the token paid out.
pub proof fn lemma_out_given_in_bounded(b_i: int, w_i: int, b_o: int, w_o: int, a: int)
    requires
        b_i >= 0,
        a >= 0,
        b_i + a > 0,
        b_o >= 0,
        w_i >= 0,
        w_o > 0,
    ensures
        0 <= out_given_in_value(b_i, w_i, b_o, w_o, a) <= b_o,
{
    lemma_swap_power_bounds(b_i, w_i, w_o, a);
    let c = SCALE - swap_power(b_i, w_i, w_o, a);
    let s = SCALE as int;
    assert(0 <= (b_o * c) / s <= b_o) by (nonlinear_arith)
        requires
            0 <= c <= s,
            b_o >= 0,
            s > 0,
    ;
}

/// The scaled power of one is one.
pub proof fn lemma_scaled_pow_one(n: nat)
    ensures
        scaled_pow(SCALE as int, n) == SCALE,
    decreases n,
{
    if n > 0 {
        lemma_scaled_pow_one((n - 1) as nat);
        let s = SCALE as int;
        assert((s * s) / s == s) by (nonlinear_arith)
            requires
                s > 0,
        ;
    }
}

/// Paying nothing into a pool that holds some of the token paid in gets
/// nothing out.
pub proof fn lemma_out_given_in_nothing_in(b_i: int, w_i: int, b_o: int, w_o: int)
    requires
        b_i > 0,
    ensures
        out_given_in_value(b_i, w_i, b_o, w_o, 0) == 0,
{
    let s = SCALE as int;
    assert((b_i * s) / b_i == s) by (nonlinear_arith)
        requires
            b_i > 0,
    ;
    assert(swap_base(b_i, 0) == SCALE);
    let parts = exponent_parts(swap_exponent(w_i, w_o) as nat);
    lemma_scaled_pow_one(parts.1);
    lemma_root_is_fixed_root(s, s, parts.1);
    lemma_scaled_pow_one(parts.0);
    assert((b_o * 0) / s == 0) by (nonlinear_arith)
        requires
            s > 0,
    ;
}

/// Paying more in never gets less out.
pub proof fn lemma_out_given_in_monotone(b_i: int, w_i: int, b_o: int, w_o: int, a1: int, a2: int)
    requires
        b_i >= 0,
        0 <= a1 <= a2,
        b_i + a1 > 0,
        b_o >= 0,
        w_i >= 0,
        w_o > 0,
    ensures
        out_given_in_value(b_i, w_i, b_o, w_o, a1) <= out_given_in_value(b_i, w_i, b_o, w_o, a2),
{
    let s = SCALE as int;
    let x1 = swap_base(b_i, a1);
    let x2 = swap_base(b_i, a2);
    assert(x2 <= x1) by (nonlinear_arith)
        requires
            x1 == (b_i * s) / (b_i + a1),
            x2 == (b_i * s) / (b_i + a2),
            b_i >= 0,
            0 <= a1 <= a2,
            b_i + a1 > 0,
            s > 0,
    ;
    lemma_swap_power_bounds(b_i, w_i, w_o, a1);
    lemma_swap_power_bounds(b_i, w_i, w_o, a2);
    lemma_swap_base_bounds(b_i, a1);
    lemma_swap_base_bounds(b_i, a2);
    let e = swap_exponent(w_i, w_o);
    assert(e >= 0) by (nonlinear_arith)
        requires
            w_i >= 0,
            w_o > 0,
            e == (w_i * 100) / w_o,
    ;
    lemma_gcd_bounds(e as nat, 100);
    let parts = exponent_parts(e as nat);
    assert(parts.1 > 0) by (nonlinear_arith)
        requires
            0 < gcd(e as nat, 100) <= 100,
            parts.1 == 100nat / gcd(e as nat, 100),
    ;
    lemma_root_exists(x1, parts.1);
    lemma_root_exists(x2, parts.1);
    lemma_root_monotone(x2, x1, parts.1);
    lemma_scaled_pow_monotone(fixed_root(x2, parts.1), fixed_root(x1, parts.1), parts.0);
    let p1 = swap_power(b_i, w_i, w_o, a1);
    let p2 = swap_power(b_i, w_i, w_o, a2);
    assert((b_o * (s - p1)) / s <= (b_o * (s - p2)) / s) by (nonlinear_arith)
        requires
            0 <= p2 <= p1 <= s,
            b_o >= 0,
            s > 0,
    ;
}

/// The share of a token of the given weight in a burn of `t` tokens:
/// `weight * t * 100 / (10^18 * 100)`.
pub open spec fn burned_amount(weight: int, t: int) -> int {
    (weight * t * 100) / (SCALE * 100)
}

/// The share of a token of the given weight in a burn of `t` tokens, or
/// `None` where `weight * t * 100` does not fit in 128 bits.
pub fn burned_token_amount(weight: u128, t: u128) -> (r: Option<u128>)
    ensures
        weight * t * 100 <= u128::MAX ==> r == Some(burned_amount(weight as int, t as int) as u128),
        weight * t * 100 > u128::MAX ==> r is None,
{
    let wt = match weight.checked_mul(t) {
        Some(x) => x,
        None => {
            assert(weight * t * 100 > u128::MAX) by (nonlinear_arith)
                requires
                    weight * t > u128::MAX,
            ;
            return None;
        },
    };
    match wt.checked_mul(100) {
        Some(x) => Some(x / (SCALE * 100)),
        None => None,
    }
}

} // verus!
