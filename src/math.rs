//! Fixed-point arithmetic on `u128` values scaled by `BONE`.
//!
//! Every operation fails instead of wrapping: an overflowing sum or product,
//! a negative difference, a division by zero and a power outside its domain
//! each give a `MathError`.
use vstd::prelude::*;

verus! {

/// The fixed-point unit: the real value 1.0.
pub const BONE: u128 = 10000000000;
/// Half a unit, added before every division to round to nearest.
pub const HALF_BONE: u128 = BONE / 2;

pub const MIN_BOUND_TOKENS: u128 = 2;
pub const MAX_BOUND_TOKENS: u128 = 8;
pub const MIN_FEE: u128 = BONE / 1000000;
pub const MAX_FEE: u128 = BONE / 10;
pub const EXIT_FEE: u128 = 0;

pub const MIN_WEIGHT: u128 = BONE;
pub const MAX_WEIGHT: u128 = BONE * 50;
pub const MAX_TOTAL_WEIGHT: u128 = BONE * 50;
pub const MIN_BALANCE: u128 = 10000;

pub const INIT_POOL_SUPPLY: u128 = BONE * 100;

pub const MIN_BPOW_BASE: u128 = 1;
pub const MAX_BPOW_BASE: u128 = 2 * BONE - 1;
pub const BPOW_PRECISION: u128 = BONE / 100;

pub const MAX_IN_RATIO: u128 = BONE / 2;
pub const MAX_OUT_RATIO: u128 = BONE / 3 + 1;

/// Why a fixed-point operation failed.
#[derive(Debug, Clone, Copy, PartialEq, Eq, Structural)]
pub enum MathError {
    Overflow,
    Underflow,
    DivideByZero,
    PowDomain,
}

/// `a + b`, or `Overflow` where the sum does not fit.
pub open spec fn add_result(a: u128, b: u128) -> Result<u128, MathError> {
    if a + b > u128::MAX {
        Err(MathError::Overflow)
    } else {
        Ok((a + b) as u128)
    }
}

/// `a - b`, or `Underflow` where `b > a`.
pub open spec fn sub_result(a: u128, b: u128) -> Result<u128, MathError> {
    if b > a {
        Err(MathError::Underflow)
    } else {
        Ok((a - b) as u128)
    }
}

/// The product of two fixed-point values, rounded to nearest, or `Overflow`
/// where the raw product plus half a unit does not fit.
pub open spec fn mul_result(a: u128, b: u128) -> Result<u128, MathError> {
    let c = a * b + HALF_BONE;
    if c > u128::MAX {
        Err(MathError::Overflow)
    } else {
        Ok((c / (BONE as int)) as u128)
    }
}

/// The quotient of two fixed-point values, rounded to nearest; `DivideByZero`
/// where `b == 0`, `Overflow` where the scaled dividend does not fit.
pub open spec fn div_result(a: u128, b: u128) -> Result<u128, MathError> {
    if b == 0 {
        Err(MathError::DivideByZero)
    } else {
        let c = a * BONE + b / 2;
        if c > u128::MAX {
            Err(MathError::Overflow)
        } else {
            Ok((c / (b as int)) as u128)
        }
    }
}

/// The squaring loop of `bpowi`: `z` is the product so far, `a` the current
/// square and `n` the bits of the exponent still to read.
pub open spec fn powi_loop(z: u128, a: u128, n: u128) -> Result<u128, MathError>
    decreases n,
{
    if n == 0 {
        Ok(z)
    } else {
        match mul_result(a, a) {
            Err(e) => Err(e),
            Ok(a2) => if n % 2 == 1 {
                match mul_result(z, a2) {
                    Err(e) => Err(e),
                    Ok(z2) => powi_loop(z2, a2, n / 2),
                }
            } else {
                powi_loop(z, a2, n / 2)
            },
        }
    }
}

/// `a` to the whole power `n` by repeated squaring, each product rounded.
pub open spec fn powi_result(a: u128, n: u128) -> Result<u128, MathError> {
    powi_loop(if n % 2 == 1 { a } else { BONE }, a, n / 2)
}

/// The most terms that the binomial series of `bpow_approx` takes.
pub const APPROX_TERMS: u128 = 101;

/// One pass of the binomial series for `(1 + x)^a` (`x` negative where `xneg`):
/// from term `i` with value `term`, the running `sum` and the sign of the last
/// term, add terms until one falls below `precision`, or rounds to zero, or
/// `fuel` terms have been taken.
pub open spec fn approx_loop(
    a: u128,
    x: u128,
    xneg: bool,
    precision: u128,
    term: u128,
    sum: u128,
    negative: bool,
    i: nat,
    fuel: nat,
) -> Result<u128, MathError>
    decreases fuel,
{
    if term < precision || fuel == 0 {
        Ok(sum)
    } else {
        let big_k = i * BONE;
        let c = if a >= big_k - BONE { a - (big_k - BONE) } else { (big_k - BONE) - a };
        let cneg = a < big_k - BONE;
        match mul_result(c as u128, x) {
            Err(e) => Err(e),
            Ok(cx) => match mul_result(term, cx) {
                Err(e) => Err(e),
                Ok(t1) => match div_result(t1, big_k as u128) {
                    Err(e) => Err(e),
                    Ok(t2) => if t2 == 0 {
                        Ok(sum)
                    } else {
                        let neg2 = negative != xneg != cneg;
                        let next = if neg2 { sub_result(sum, t2) } else { add_result(sum, t2) };
                        match next {
                            Err(e) => Err(e),
                            Ok(sum2) => approx_loop(a, x, xneg, precision, t2, sum2, neg2, i + 1, (fuel - 1) as nat),
                        }
                    },
                },
            },
        }
    }
}

/// `base` to the fractional power `exp` by the binomial series, stopped at the
/// first term below `precision`.
pub open spec fn approx_result(base: u128, exp: u128, precision: u128) -> Result<u128, MathError> {
    let x = if base >= BONE { base - BONE } else { BONE - base };
    approx_loop(exp, x as u128, base < BONE, precision, BONE, BONE, false, 1, APPROX_TERMS as nat)
}

/// `base` to the fixed-point power `exp`: the whole part of `exp` by
/// `powi_result`, the fractional part by `approx_result`, then their product.
pub open spec fn pow_result(base: u128, exp: u128) -> Result<u128, MathError> {
    if base < MIN_BPOW_BASE || base > MAX_BPOW_BASE {
        Err(MathError::PowDomain)
    } else {
        let whole = (exp / BONE) * BONE;
        let remain = (exp - whole) as u128;
        match powi_result(base, (exp / BONE) as u128) {
            Err(e) => Err(e),
            Ok(whole_pow) => if remain == 0 {
                Ok(whole_pow)
            } else {
                match approx_result(base, remain, BPOW_PRECISION) {
                    Err(e) => Err(e),
                    Ok(partial) => mul_result(whole_pow, partial),
                }
            },
        }
    }
}

/// Floor division brackets its dividend.
proof fn lemma_floor(n: int, d: int)
    requires
        n >= 0,
        d > 0,
    ensures
        (n / d) * d <= n,
        n < (n / d) * d + d,
{
    vstd::arithmetic::div_mod::lemma_fundamental_div_mod(n, d);
    vstd::arithmetic::div_mod::lemma_mod_pos_bound(n, d);
    vstd::arithmetic::mul::lemma_mul_is_commutative(d, n / d);
}

/// One step of the binomial series shrinks the term: the first step leaves it
/// below one unit, step `i >= 2` multiplies it by at most `(i - 1) / i`, up to
/// one rounding unit.
proof fn lemma_term_step(term: int, c: int, x: int, i: int, cx: int, t1: int, t2: int)
    requires
        i >= 1,
        0 <= x <= BONE - 1,
        0 <= c,
        0 <= term,
        i == 1 ==> c <= BONE - 1 && term == BONE,
        i >= 2 ==> c <= (i - 1) * BONE,
        cx == (c * x + HALF_BONE) / (BONE as int),
        t1 == (term * cx + HALF_BONE) / (BONE as int),
        t2 == (t1 * BONE + (i * BONE) / 2) / (i * BONE),
    ensures
        i == 1 ==> t2 <= BONE - 2,
        i >= 2 ==> t2 * i <= term * (i - 1) + i,
{
    let b = BONE as int;
    let h = HALF_BONE as int;
    assert(c * x >= 0) by (nonlinear_arith)
        requires c >= 0, x >= 0;
    assert(term * cx >= 0 && cx >= 0) by (nonlinear_arith)
        requires term >= 0, c * x >= 0, cx == (c * x + h) / b, b > 0, h >= 0;
    lemma_floor(c * x + h, b);
    lemma_floor(term * cx + h, b);
    assert(t1 >= 0) by (nonlinear_arith)
        requires t1 == (term * cx + h) / b, term * cx >= 0, b > 0, h >= 0;
    assert((i * b) / 2 == i * h && i * b > 0) by (nonlinear_arith)
        requires b == 2 * h, h > 0, i >= 1;
    lemma_floor(t1 * b + i * h, i * b);
    if i == 1 {
        assert(c * x <= (b - 1) * (b - 1)) by (nonlinear_arith)
            requires 0 <= c <= b - 1, 0 <= x <= b - 1;
        assert(cx <= b - 2) by (nonlinear_arith)
            requires cx * b <= c * x + h, c * x <= (b - 1) * (b - 1), b == 10000000000, h == 5000000000;
        assert(t1 <= cx) by (nonlinear_arith)
            requires t1 * b <= term * cx + h, term == b, h < b, b > 0;
        assert(t2 <= t1) by (nonlinear_arith)
            requires t2 * (i * b) <= t1 * b + i * h, i == 1, h < b, b > 0;
    } else {
        assert(c * x <= (i - 1) * b * (b - 1)) by (nonlinear_arith)
            requires 0 <= c <= (i - 1) * b, 0 <= x <= b - 1, i >= 2;
        assert(cx * b < ((i - 1) * (b - 1) + 1) * b) by (nonlinear_arith)
            requires cx * b <= c * x + h, c * x <= (i - 1) * b * (b - 1), h < b, i >= 2;
        assert(cx <= (i - 1) * b) by (nonlinear_arith)
            requires cx * b < ((i - 1) * (b - 1) + 1) * b, b > 0, i >= 2;
        assert(term * cx <= term * ((i - 1) * b)) by (nonlinear_arith)
            requires cx <= (i - 1) * b, term >= 0;
        assert(t2 * (i * b) <= term * ((i - 1) * b) + (i + 1) * h) by (nonlinear_arith)
            requires
                t2 * (i * b) <= t1 * b + i * h,
                t1 * b <= term * cx + h,
                term * cx <= term * ((i - 1) * b);
        assert((i + 1) * h <= i * b) by (nonlinear_arith)
            requires b == 2 * h, h > 0, i >= 2;
        assert(t2 * (i * b) == (t2 * i) * b && term * ((i - 1) * b) == (term * (i - 1)) * b
            && (term * (i - 1) + i) * b == (term * (i - 1)) * b + i * b) by (nonlinear_arith);
        assert((t2 * i) * b <= (term * (i - 1) + i) * b);
        assert(t2 * i <= term * (i - 1) + i) by (nonlinear_arith)
            requires (t2 * i) * b <= (term * (i - 1) + i) * b, b > 0;
    }
}

/// Dividing a product by one of its factors gives back the other factor to
/// within one unit of the last place, wherever the divisor is at least one
/// (`b >= BONE`) and both operations succeed.
pub proof fn lemma_div_of_mul(a: u128, b: u128)
    requires
        b >= BONE,
        mul_result(a, b) is Ok,
        div_result(mul_result(a, b)->Ok_0, b) is Ok,
    ensures
        a - 1 <= div_result(mul_result(a, b)->Ok_0, b)->Ok_0 <= a + 1,
{
    let m = mul_result(a, b)->Ok_0 as int;
    let d = div_result(m as u128, b)->Ok_0 as int;
    let bb = BONE as int;
    let h = HALF_BONE as int;
    let ai = a as int;
    let bi = b as int;
    assert(ai * bi >= 0) by (nonlinear_arith)
        requires ai >= 0, bi >= 0;
    lemma_floor(ai * bi + h, bb);
    assert(m * bb >= 0) by (nonlinear_arith)
        requires m >= 0, bb > 0;
    lemma_floor(m * bb + bi / 2, bi);
    assert(bi / 2 <= bi / 2 && 2 * (bi / 2) <= bi && bi < 2 * (bi / 2) + 2) by {
        lemma_floor(bi, 2);
    }
    assert(d * bi <= ai * bi + bi) by (nonlinear_arith)
        requires
            d * bi <= m * bb + bi / 2,
            m * bb <= ai * bi + h,
            2 * (bi / 2) <= bi,
            bb == 2 * h,
            bi >= bb;
    assert(d <= ai + 1) by (nonlinear_arith)
        requires d * bi <= ai * bi + bi, bi > 0;
    assert(h <= bi / 2);
    assert(d * bi + bi > ai * bi);
    assert(d > ai - 1) by (nonlinear_arith)
        requires d * bi + bi > ai * bi, bi > 0;
}

/// Taking the share `p / t` of a balance `b` (`a`), then the share
/// `p / (t + p)` of the grown balance `b + a` (`o`), gives back `a` up to
/// the rounding of the four steps: `o < a + 1 + (2 * b + a) / (2 * BONE)`.
pub proof fn lemma_share_round_trip(p: u128, t: u128, b: u128)
    requires
        t > 0,
        t + p <= u128::MAX,
        div_result(p, t) is Ok,
        mul_result(div_result(p, t)->Ok_0, b) is Ok,
        div_result(p, (t + p) as u128) is Ok,
        b + mul_result(div_result(p, t)->Ok_0, b)->Ok_0 <= u128::MAX,
        mul_result(div_result(p, (t + p) as u128)->Ok_0, (b + mul_result(div_result(p, t)->Ok_0, b)->Ok_0) as u128) is Ok,
    ensures
        ({
            let a = mul_result(div_result(p, t)->Ok_0, b)->Ok_0;
            let o = mul_result(div_result(p, (t + p) as u128)->Ok_0, (b + a) as u128)->Ok_0;
            2 * BONE * o < 2 * BONE * (a + 1) + 2 * b + a
        }),
{
    let bb = BONE as int;
    let h = HALF_BONE as int;
    let pi = p as int;
    let ti = t as int;
    let bi = b as int;
    let s = ti + pi;
    let r1 = div_result(p, t)->Ok_0 as int;
    let a = mul_result(r1 as u128, b)->Ok_0 as int;
    let r2 = div_result(p, s as u128)->Ok_0 as int;
    let o = mul_result(r2 as u128, (bi + a) as u128)->Ok_0 as int;
    let h1 = ti / 2;
    let h2 = s / 2;
    assert(pi * bb >= 0 && r1 >= 0 && r2 >= 0 && a >= 0) by (nonlinear_arith)
        requires pi >= 0, bb > 0, r1 >= 0, r2 >= 0, a >= 0;
    assert(r1 * bi >= 0 && r2 * (bi + a) >= 0) by (nonlinear_arith)
        requires r1 >= 0, bi >= 0, r2 >= 0, a >= 0;
    lemma_floor(pi * bb + h1, ti);
    lemma_floor(r1 * bi + h, bb);
    lemma_floor(pi * bb + h2, s);
    lemma_floor(r2 * (bi + a) + h, bb);
    lemma_floor(ti, 2);
    lemma_floor(s, 2);
    // the four roundings
    assert(r1 * ti + ti > pi * bb + h1);
    assert(a * bb + bb > r1 * bi + h);
    assert(r2 * s <= pi * bb + h2);
    assert(o * bb <= r2 * (bi + a) + h);
    assert(o * bb * s <= r2 * (bi + a) * s + h * s) by (nonlinear_arith)
        requires o * bb <= r2 * (bi + a) + h, s > 0;
    assert(r2 * (bi + a) * s <= (pi * bb + h2) * (bi + a)) by (nonlinear_arith)
        requires r2 * s <= pi * bb + h2, bi + a >= 0;
    assert(r1 * ti >= pi * bb + h1 - ti + 1);
    assert(r1 * ti * bi >= (pi * bb + h1 - ti + 1) * bi) by (nonlinear_arith)
        requires r1 * ti >= pi * bb + h1 - ti + 1, bi >= 0;
    assert(a * bb * ti + bb * ti > r1 * bi * ti + h * ti) by (nonlinear_arith)
        requires a * bb + bb > r1 * bi + h, ti > 0;
    assert(2 * a * bb * ti > 2 * pi * bb * bi - (ti - 1) * bi - bb * ti) by (nonlinear_arith)
        requires
            a * bb * ti + bb * ti > r1 * bi * ti + h * ti,
            r1 * ti * bi >= (pi * bb + h1 - ti + 1) * bi,
            2 * h1 >= ti - 1,
            bb == 2 * h,
            bi >= 0;
    assert(2 * o * bb * s <= 2 * pi * bb * (bi + a) + s * (bi + a) + bb * s) by (nonlinear_arith)
        requires
            o * bb * s <= r2 * (bi + a) * s + h * s,
            r2 * (bi + a) * s <= (pi * bb + h2) * (bi + a),
            2 * h2 <= s,
            bi + a >= 0,
            bb == 2 * h;
    assert(2 * pi * bb * bi - 2 * a * bb * ti < bi * s + bb * s) by (nonlinear_arith)
        requires
            2 * a * bb * ti > 2 * pi * bb * bi - (ti - 1) * bi - bb * ti,
            s == ti + pi,
            pi >= 0,
            bi >= 0,
            bb > 0;
    assert(2 * pi * bb * (bi + a) == 2 * pi * bb * bi + 2 * pi * bb * a) by (nonlinear_arith);
    assert(s * (bi + a) == bi * s + a * s) by (nonlinear_arith);
    assert(2 * a * bb * s == 2 * a * bb * ti + 2 * pi * bb * a) by (nonlinear_arith)
        requires s == ti + pi;
    assert((2 * bb * o) * s == 2 * o * bb * s) by (nonlinear_arith);
    assert((2 * bb * (a + 1) + 2 * bi + a) * s == 2 * a * bb * s + 2 * bb * s + 2 * bi * s + a * s) by (nonlinear_arith);
    let x1 = o * bb * s;
    let x2 = pi * bb * bi;
    let x3 = pi * bb * a;
    let x4 = a * bb * ti;
    let x5 = bb * s;
    let x6 = bi * s;
    let x7 = a * s;
    assert(2 * o * bb * s == 2 * x1 && 2 * pi * bb * bi == 2 * x2 && 2 * pi * bb * a == 2 * x3
        && 2 * a * bb * ti == 2 * x4 && bb * s == x5 && bi * s == x6 && a * s == x7
        && 2 * bb * s == 2 * x5 && 2 * bi * s == 2 * x6) by (nonlinear_arith)
        requires
            x1 == o * bb * s,
            x2 == pi * bb * bi,
            x3 == pi * bb * a,
            x4 == a * bb * ti,
            x5 == bb * s,
            x6 == bi * s,
            x7 == a * s;
    assert(2 * x1 <= 2 * x2 + 2 * x3 + x6 + x7 + x5);
    assert(2 * x2 - 2 * x4 < x6 + x5);
    assert(2 * a * bb * s == 2 * x4 + 2 * x3);
    assert((2 * bb * o) * s < (2 * bb * (a + 1) + 2 * bi + a) * s);
    assert(2 * bb * o < 2 * bb * (a + 1) + 2 * bi + a) by (nonlinear_arith)
        requires (2 * bb * o) * s < (2 * bb * (a + 1) + 2 * bi + a) * s, s > 0;
}

/// Squaring one gives one, so the squaring loop stays at one.
proof fn lemma_powi_loop_of_one(n: u128)
    ensures
        powi_loop(BONE, BONE, n) == Ok::<u128, MathError>(BONE),
    decreases n,
{
    assert(mul_result(BONE, BONE) == Ok::<u128, MathError>(BONE)) by (nonlinear_arith);
    if n != 0 {
        lemma_powi_loop_of_one(n / 2);
    }
}

/// One to any power is one.
pub proof fn lemma_pow_of_one(exp: u128)
    ensures
        pow_result(BONE, exp) == Ok::<u128, MathError>(BONE),
{
    assert(mul_result(BONE, BONE) == Ok::<u128, MathError>(BONE)) by (nonlinear_arith);
    lemma_powi_loop_of_one((exp / BONE) as u128 / 2);
    assert(powi_result(BONE, (exp / BONE) as u128) == Ok::<u128, MathError>(BONE));
    let remain = (exp - (exp / BONE) * BONE) as u128;
    assert(mul_result(remain, 0) == Ok::<u128, MathError>(0));
    assert(mul_result(BONE, 0) == Ok::<u128, MathError>(0));
    assert(div_result(0, BONE) == Ok::<u128, MathError>(0));
    assert(approx_result(BONE, remain, BPOW_PRECISION) == Ok::<u128, MathError>(BONE));
}

/// The fixed-point arithmetic unit.
#[derive(Debug, Clone, Copy)]
pub struct Math {}

impl Math {
    pub fn new() -> (r: Math) {
        Math {}
    }

    /// The integer part of `a`.
    pub fn btoi(&self, a: u128) -> (r: u128)
        ensures
            r == a / BONE,
    {
        a / BONE
    }

    /// `a` rounded down to a whole number of units.
    pub fn bfloor(&self, a: u128) -> (r: u128)
        ensures
            r == (a / BONE) * BONE,
            r <= a,
            a - r < BONE,
    {
        let b = self.btoi(a) * BONE;
        b
    }

    pub fn badd(&self, a: u128, b: u128) -> (r: Result<u128, MathError>)
        ensures
            r == add_result(a, b),
    {
        match a.checked_add(b) {
            Some(c) => Ok(c),
            None => Err(MathError::Overflow),
        }
    }

    pub fn bsub(&self, a: u128, b: u128) -> (r: Result<u128, MathError>)
        ensures
            r == sub_result(a, b),
    {
        let (c, flag) = self.bsub_sign(a, b);
        if flag {
            Err(MathError::Underflow)
        } else {
            Ok(c)
        }
    }

    /// The distance between `a` and `b`, and whether `a - b` is negative.
    pub fn bsub_sign(&self, a: u128, b: u128) -> (r: (u128, bool))
        ensures
            r.1 == (a < b),
            r.0 == if a >= b { a - b } else { b - a },
    {
        if a >= b {
            (a - b, false)
        } else {
            (b - a, true)
        }
    }

    pub fn bmul(&self, a: u128, b: u128) -> (r: Result<u128, MathError>)
        ensures
            r == mul_result(a, b),
    {
        let c0 = match a.checked_mul(b) {
            Some(c) => c,
            None => return Err(MathError::Overflow),
        };
        let c1 = match c0.checked_add(HALF_BONE) {
            Some(c) => c,
            None => return Err(MathError::Overflow),
        };
        Ok(c1 / BONE)
    }

    pub fn bdiv(&self, a: u128, b: u128) -> (r: Result<u128, MathError>)
        ensures
            r == div_result(a, b),
    {
        if b == 0 {
            return Err(MathError::DivideByZero);
        }
        let c0 = match a.checked_mul(BONE) {
            Some(c) => c,
            None => return Err(MathError::Overflow),
        };
        let c1 = match c0.checked_add(b / 2) {
            Some(c) => c,
            None => return Err(MathError::Overflow),
        };
        Ok(c1 / b)
    }
    /// `a` to the whole power `n` by repeated squaring.
    pub fn bpowi(&self, a: u128, n: u128) -> (r: Result<u128, MathError>)
        ensures
            r == powi_result(a, n),
    {
        let mut z: u128 = if n % 2 == 1 { a } else { BONE };
        let mut c: u128 = a;
        let mut b: u128 = n / 2;
        while b != 0
            invariant
                powi_loop(z, c, b) == powi_result(a, n),
            decreases b,
        {
            c = self.bmul(c, c)?;
            if b % 2 == 1 {
                z = self.bmul(z, c)?;
            }
            b = b / 2;
        }
        Ok(z)
    }

    /// `base` to the fixed-point power `exp`, for `base` in
    /// `[MIN_BPOW_BASE, MAX_BPOW_BASE]`; `PowDomain` outside it.
    pub fn bpow(&self, base: u128, exp: u128) -> (r: Result<u128, MathError>)
        ensures
            r == pow_result(base, exp),
    {
        if base < MIN_BPOW_BASE || base > MAX_BPOW_BASE {
            return Err(MathError::PowDomain);
        }
        let whole = self.bfloor(exp);
        let remain = self.bsub(exp, whole)?;
        let whole_pow = self.bpowi(base, self.btoi(whole))?;
        assert(whole / BONE == exp / BONE) by (nonlinear_arith)
            requires whole == (exp / BONE) * BONE;
        if remain == 0 {
            return Ok(whole_pow);
        }
        let partial_result = self.bpow_approx(base, remain, BPOW_PRECISION)?;
        self.bmul(whole_pow, partial_result)
    }
    /// `base` to the fractional power `exp` by the binomial series of
    /// `(1 + (base - 1))^exp`, adding terms until one falls below `precision`.
    /// `exp` is below one unit and `precision` no finer than `BPOW_PRECISION`,
    /// so that the series ends within `APPROX_TERMS` terms.
    pub fn bpow_approx(&self, base: u128, exp: u128, precision: u128) -> (r: Result<u128, MathError>)
        requires
            MIN_BPOW_BASE <= base <= MAX_BPOW_BASE,
            exp < BONE,
            precision >= BPOW_PRECISION,
        ensures
            r == approx_result(base, exp, precision),
    {
        let a = exp;
        let (x, xneg) = self.bsub_sign(base, BONE);
        let mut term: u128 = BONE;
        let mut sum: u128 = term;
        let mut negative = false;
        let mut i: u128 = 1;
        while term >= precision
            invariant
                1 <= i <= APPROX_TERMS + 1,
                x <= BONE - 1,
                a < BONE,
                precision >= BPOW_PRECISION,
                term <= BONE,
                i == 1 ==> term == BONE,
                i >= 2 ==> term * (i - 1) <= BONE + 2 * (i - 1) * (i - 1),
                approx_loop(a, x, xneg, precision, term, sum, negative, i as nat, (APPROX_TERMS + 1 - i) as nat)
                    == approx_result(base, exp, precision),
            decreases APPROX_TERMS + 1 - i,
        {
            if i == APPROX_TERMS + 1 {
                assert(false) by (nonlinear_arith)
                    requires
                        term * (i - 1) <= BONE + 2 * (i - 1) * (i - 1),
                        i == 102,
                        term >= BPOW_PRECISION,
                        BPOW_PRECISION == 100000000,
                        BONE == 10000000000;
            }
            let big_k = i * BONE;
            let (c, cneg) = self.bsub_sign(a, self.bsub(big_k, BONE)?);
            let cx = self.bmul(c, x)?;
            let t1 = self.bmul(term, cx)?;
            let t2 = self.bdiv(t1, big_k)?;
            proof {
                lemma_term_step(term as int, c as int, x as int, i as int, cx as int, t1 as int, t2 as int);
            }
            if t2 == 0 {
                return Ok(sum);
            }
            if i >= 2 {
                assert(t2 * i <= BONE + 2 * i * i && t2 <= BONE) by (nonlinear_arith)
                    requires
                        t2 * i <= term * (i - 1) + i,
                        term * (i - 1) <= BONE + 2 * (i - 1) * (i - 1),
                        term <= BONE,
                        2 <= i <= 101;
            }
            term = t2;
            if xneg {
                negative = !negative;
            }
            if cneg {
                negative = !negative;
            }
            if negative {
                sum = self.bsub(sum, term)?;
            } else {
                sum = self.badd(sum, term)?;
            }
            i = i + 1;
        }
        Ok(sum)
    }
}

} // verus!
