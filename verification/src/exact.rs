//! What patterns stand for, and what a floating-point unit owes where nothing needs to be rounded.
//!
//! A value that is a whole number of halves, quarters, eighths and so on, and that fits the digits of
//! its format, is carried without loss. A unit that follows IEEE 754 gives such a value exactly
//! wherever it is the true result of an operation. The laws of this library that tell in numbers
//! what an operation makes of its inputs are stated for such units.

use crate::float::{
    le, lt, luminance_of, magnitude, neg, number, rank_orders_numbers, units, wide_lt, wide_magnitude, wide_neg,
    FloatOp, FloatUnit, BLUE_WEIGHT, FOUR, GREEN_WEIGHT, HALF, MILLIONTH, ONE, RED_WEIGHT, THREE, TWO,
    WIDE_1E_10, WIDE_ZERO, ZERO,
};
use vstd::arithmetic::power2::pow2;
use vstd::prelude::*;

verus! {

/// Whether `n` fits the digits of single precision.
pub open spec fn fits(n: int) -> bool {
    -0x100_0000 <= n <= 0x100_0000
}

/// Whether `n` fits the digits of double precision.
pub open spec fn wide_fits(n: int) -> bool {
    -0x20_0000_0000_0000 <= n <= 0x20_0000_0000_0000
}

/// Whether a single-precision pattern stands for a number that is neither infinite nor missing.
pub open spec fn is_finite(a: u32) -> bool {
    magnitude(a) < 0x7f80_0000
}

/// Whether a single-precision pattern stands for `n` divided by the `k`-th power of two.
#[verifier::opaque]
pub open spec fn stands_for(a: u32, n: int, k: nat) -> bool {
    k <= 149 && is_finite(a) && number(a) == n * pow2((149 - k) as nat)
}

/// Whether a single-precision pattern stands for a number of ordinary size: one that fits the digits
/// when it is counted in parts of some size.
pub open spec fn is_ordinary(a: u32) -> bool {
    exists|n: int, k: nat| #[trigger] stands_for(a, n, k) && fits(n)
}

/// The number that a finite double-precision pattern of magnitude `m` stands for, counted in units
/// of the smallest positive double-precision value.
pub open spec fn wide_units(m: int) -> int {
    let exponent = m / 0x10_0000_0000_0000;
    let fraction = m % 0x10_0000_0000_0000;
    if exponent == 0 {
        fraction
    } else {
        (0x10_0000_0000_0000 + fraction) * pow2((exponent - 1) as nat)
    }
}

/// The number that a finite double-precision pattern stands for, in the same units.
pub open spec fn wide_number(a: u64) -> int {
    if a < 0x8000_0000_0000_0000 {
        wide_units(wide_magnitude(a))
    } else {
        -wide_units(wide_magnitude(a))
    }
}

/// Whether a double-precision pattern stands for `n` divided by the `k`-th power of two.
#[verifier::opaque]
pub open spec fn wide_stands_for(a: u64, n: int, k: nat) -> bool {
    k <= 1074 && wide_magnitude(a) < 0x7ff0_0000_0000_0000 && wide_number(a) == n * pow2(
        (1074 - k) as nat,
    )
}

/// A sum that fits is exact.
pub open spec fn adds<F: Fn(FloatOp) -> u64>(
    fpu: &FloatUnit<F>,
    a: u32,
    b: u32,
    n: int,
    m: int,
    k: nat,
) -> bool {
    stands_for(a, n, k) && stands_for(b, m, k) && fits(n + m) ==> stands_for(fpu.add(a, b), n + m, k)
}

/// A sum that fits in coarser parts is exact.
pub open spec fn coarsely_adds<F: Fn(FloatOp) -> u64>(
    fpu: &FloatUnit<F>,
    a: u32,
    b: u32,
    n: int,
    m: int,
    k: nat,
    q: int,
    t: nat,
) -> bool {
    stands_for(a, n, k) && stands_for(b, m, k) && n + m == q * pow2(t) && t <= k && fits(q)
        ==> stands_for(fpu.add(a, b), q, (k - t) as nat)
}

/// A difference that fits is exact.
pub open spec fn subtracts<F: Fn(FloatOp) -> u64>(
    fpu: &FloatUnit<F>,
    a: u32,
    b: u32,
    n: int,
    m: int,
    k: nat,
) -> bool {
    stands_for(a, n, k) && stands_for(b, m, k) && fits(n - m) ==> stands_for(fpu.sub(a, b), n - m, k)
}

/// A product that fits is exact.
pub open spec fn multiplies<F: Fn(FloatOp) -> u64>(
    fpu: &FloatUnit<F>,
    a: u32,
    b: u32,
    n: int,
    m: int,
    k: nat,
    j: nat,
    q: int,
    t: nat,
) -> bool {
    stands_for(a, n, k) && stands_for(b, m, j) && n * m == q * pow2(t) && t <= k + j <= t + 149
        && fits(q) ==> stands_for(fpu.mul(a, b), q, (k + j - t) as nat)
}

/// A quotient that fits is exact.
pub open spec fn divides<F: Fn(FloatOp) -> u64>(
    fpu: &FloatUnit<F>,
    a: u32,
    b: u32,
    q: int,
    m: int,
    k: nat,
    t: nat,
) -> bool {
    m != 0 && stands_for(a, q * m, k + t) && stands_for(b, m, k) && fits(q) ==> stands_for(
        fpu.div(a, b),
        q,
        t,
    )
}

/// The whole number below is found.
pub open spec fn floors<F: Fn(FloatOp) -> u64>(fpu: &FloatUnit<F>, a: u32, n: int, k: nat) -> bool {
    stands_for(a, n, k) && fits(n) ==> stands_for(fpu.floor(a), n / (pow2(k) as int), 0)
}

/// The whole number above is found.
pub open spec fn ceils<F: Fn(FloatOp) -> u64>(fpu: &FloatUnit<F>, a: u32, n: int, k: nat) -> bool {
    stands_for(a, n, k) && fits(n) ==> stands_for(fpu.ceil(a), -((-n) / (pow2(k) as int)), 0)
}

/// The nearest whole number is found.
pub open spec fn rounds<F: Fn(FloatOp) -> u64>(
    fpu: &FloatUnit<F>,
    a: u32,
    n: int,
    k: nat,
    r: int,
) -> bool {
    stands_for(a, n, k) && fits(n) && -pow2(k) < 2 * (n - r * pow2(k)) < pow2(k) ==> stands_for(
        fpu.round(a),
        r,
        0,
    )
}

/// Numbers are cut to whole ones and held to the range of the integers.
pub open spec fn cuts<F: Fn(FloatOp) -> u64>(fpu: &FloatUnit<F>, a: u32, n: int, k: nat) -> bool {
    stands_for(a, n, k) && fits(n) ==> {
        &&& fpu.to_i32(a) == if n < 0 {
            -(-n / (pow2(k) as int))
        } else {
            n / (pow2(k) as int)
        }
        &&& fpu.to_u32(a) == if n < 0 {
            0
        } else {
            n / (pow2(k) as int)
        }
    }
}

/// The square root of a square that fits is exact.
pub open spec fn roots<F: Fn(FloatOp) -> u64>(fpu: &FloatUnit<F>, a: u32, n: int, k: nat) -> bool {
    0 <= n && stands_for(a, n * n, 2 * k) && fits(n) ==> stands_for(fpu.sqrt(a), n, k)
}

/// A double-precision sum that fits is exact.
pub open spec fn wide_adds<F: Fn(FloatOp) -> u64>(
    fpu: &FloatUnit<F>,
    a: u64,
    b: u64,
    n: int,
    m: int,
    k: nat,
) -> bool {
    wide_stands_for(a, n, k) && wide_stands_for(b, m, k) && wide_fits(n + m) ==> wide_stands_for(
        fpu.wide_add(a, b),
        n + m,
        k,
    )
}

/// A double-precision difference that fits is exact.
pub open spec fn wide_subtracts<F: Fn(FloatOp) -> u64>(
    fpu: &FloatUnit<F>,
    a: u64,
    b: u64,
    n: int,
    m: int,
    k: nat,
) -> bool {
    wide_stands_for(a, n, k) && wide_stands_for(b, m, k) && wide_fits(n - m) ==> wide_stands_for(
        fpu.wide_sub(a, b),
        n - m,
        k,
    )
}

/// A double-precision product that fits is exact.
pub open spec fn wide_multiplies<F: Fn(FloatOp) -> u64>(
    fpu: &FloatUnit<F>,
    a: u64,
    b: u64,
    n: int,
    m: int,
    k: nat,
    j: nat,
) -> bool {
    wide_stands_for(a, n, k) && wide_stands_for(b, m, j) && k + j <= 1074 && wide_fits(n * m)
        ==> wide_stands_for(fpu.wide_mul(a, b), n * m, k + j)
}

/// A double-precision quotient that fits is exact.
pub open spec fn wide_divides<F: Fn(FloatOp) -> u64>(
    fpu: &FloatUnit<F>,
    a: u64,
    b: u64,
    q: int,
    m: int,
    k: nat,
    t: nat,
) -> bool {
    m != 0 && wide_stands_for(a, q * m, k + t) && wide_stands_for(b, m, k) && wide_fits(q)
        ==> wide_stands_for(fpu.wide_div(a, b), q, t)
}

/// The double-precision square root of a square that fits is exact.
pub open spec fn wide_roots<F: Fn(FloatOp) -> u64>(
    fpu: &FloatUnit<F>,
    a: u64,
    n: int,
    k: nat,
) -> bool {
    0 <= n && wide_stands_for(a, n * n, 2 * k) && wide_fits(n) ==> wide_stands_for(
        fpu.wide_sqrt(a),
        n,
        k,
    )
}

/// Double precision holds every single-precision number.
pub open spec fn widens<F: Fn(FloatOp) -> u64>(fpu: &FloatUnit<F>, a: u32, n: int, k: nat) -> bool {
    stands_for(a, n, k) ==> wide_stands_for(fpu.widen(a), n, k)
}

/// A number that fits single precision is brought to it exactly.
pub open spec fn narrows<F: Fn(FloatOp) -> u64>(fpu: &FloatUnit<F>, a: u64, n: int, k: nat) -> bool {
    k <= 149 && wide_stands_for(a, n, k) && fits(n) ==> stands_for(fpu.narrow(a), n, k)
}

/// Whether a unit gives every result exactly that the digits of its format hold, as IEEE 754 asks.
#[verifier::opaque]
pub open spec fn is_exact<F: Fn(FloatOp) -> u64>(fpu: &FloatUnit<F>) -> bool {
    &&& forall|a: u32, b: u32, n: int, m: int, k: nat| #[trigger] adds(fpu, a, b, n, m, k)
    &&& forall|a: u32, b: u32, n: int, m: int, k: nat, q: int, t: nat| #[trigger]
        coarsely_adds(fpu, a, b, n, m, k, q, t)
    &&& forall|a: u32, b: u32, n: int, m: int, k: nat| #[trigger] subtracts(fpu, a, b, n, m, k)
    &&& forall|a: u32, b: u32, n: int, m: int, k: nat, j: nat, q: int, t: nat| #[trigger]
        multiplies(fpu, a, b, n, m, k, j, q, t)
    &&& forall|a: u32, b: u32, q: int, m: int, k: nat, t: nat| #[trigger]
        divides(fpu, a, b, q, m, k, t)
    &&& forall|a: u32, n: int, k: nat| #[trigger] floors(fpu, a, n, k)
    &&& forall|a: u32, n: int, k: nat| #[trigger] ceils(fpu, a, n, k)
    &&& forall|a: u32, n: int, k: nat, r: int| #[trigger] rounds(fpu, a, n, k, r)
    &&& forall|a: u32, n: int, k: nat| #[trigger] cuts(fpu, a, n, k)
    &&& forall|a: u32, n: int, k: nat| #[trigger] roots(fpu, a, n, k)
    &&& forall|a: u64, b: u64, n: int, m: int, k: nat| #[trigger] wide_adds(fpu, a, b, n, m, k)
    &&& forall|a: u64, b: u64, n: int, m: int, k: nat| #[trigger] wide_subtracts(fpu, a, b, n, m, k)
    &&& forall|a: u64, b: u64, n: int, m: int, k: nat, j: nat| #[trigger]
        wide_multiplies(fpu, a, b, n, m, k, j)
    &&& forall|a: u64, b: u64, q: int, m: int, k: nat, t: nat| #[trigger]
        wide_divides(fpu, a, b, q, m, k, t)
    &&& forall|a: u64, n: int, k: nat| #[trigger] wide_roots(fpu, a, n, k)
    &&& forall|a: u32, n: int, k: nat| #[trigger] widens(fpu, a, n, k)
    &&& forall|a: u64, n: int, k: nat| #[trigger] narrows(fpu, a, n, k)
    &&& forall|n: i32| fits(n as int) ==> #[trigger] stands_for(fpu.from_i32(n), n as int, 0)
    &&& forall|n: u64| fits(n as int) ==> #[trigger] stands_for(fpu.from_u64(n), n as int, 0)
    &&& forall|n: u64|
        wide_fits(n as int) ==> #[trigger] wide_stands_for(fpu.wide_from_u64(n), n as int, 0)
}

/// The pattern of a whole power of two, and of three times one.
pub proof fn lemma_constants()
    ensures
        forall|k: nat| k <= 149 ==> #[trigger] stands_for(ZERO, 0, k),
        forall|k: nat| k <= 1074 ==> #[trigger] wide_stands_for(WIDE_ZERO, 0, k),
        stands_for(ONE, 1, 0),
        stands_for(TWO, 2, 0),
        stands_for(THREE, 3, 0),
        stands_for(FOUR, 4, 0),
        stands_for(HALF, 1, 1),
{
    reveal(stands_for);
    reveal(wide_stands_for);
    vstd::arithmetic::power2::lemma2_to64();
    vstd::arithmetic::power2::lemma_pow2_adds(23, 126);
    vstd::arithmetic::power2::lemma_pow2_adds(23, 125);
    vstd::arithmetic::power2::lemma_pow2_unfold(127);
    vstd::arithmetic::power2::lemma_pow2_unfold(128);
    assert(pow2(149) == 0x80_0000 * pow2(126));
    assert(pow2(148) == 0x80_0000 * pow2(125));
    assert(units(ONE as int) == 0x80_0000 * pow2(126));
    assert(units(HALF as int) == 0x80_0000 * pow2(125));
    assert(units(TWO as int) == 0x80_0000 * pow2(127));
    assert(units(THREE as int) == 0xc0_0000 * pow2(127));
    assert(units(FOUR as int) == 0x80_0000 * pow2(128));
}

/// A number of which one counts finer parts is still that number.
pub proof fn lemma_finer(a: u32, n: int, k: nat, t: nat)
    requires
        stands_for(a, n, k),
        k + t <= 149,
    ensures
        stands_for(a, n * pow2(t), k + t),
{
    reveal(stands_for);
    vstd::arithmetic::power2::lemma_pow2_adds(t, (149 - k - t) as nat);
    let (p, q) = (pow2(t) as int, pow2((149 - k - t) as nat) as int);
    assert(n * (p * q) == (n * p) * q) by (nonlinear_arith);
}

/// A number of which one counts finer parts is still that number.
pub proof fn lemma_wide_finer(a: u64, n: int, k: nat, t: nat)
    requires
        wide_stands_for(a, n, k),
        k + t <= 1074,
    ensures
        wide_stands_for(a, n * pow2(t), k + t),
{
    reveal(wide_stands_for);
    vstd::arithmetic::power2::lemma_pow2_adds(t, (1074 - k - t) as nat);
    let (p, q) = (pow2(t) as int, pow2((1074 - k - t) as nat) as int);
    assert(n * (p * q) == (n * p) * q) by (nonlinear_arith);
}

/// Parts that are all whole make a coarser count.
pub proof fn lemma_coarser(a: u32, n: int, k: nat, t: nat)
    requires
        stands_for(a, n * pow2(t), k + t),
    ensures
        stands_for(a, n, k),
{
    reveal(stands_for);
    vstd::arithmetic::power2::lemma_pow2_adds(t, (149 - k - t) as nat);
    let (p, q) = (pow2(t) as int, pow2((149 - k - t) as nat) as int);
    assert(n * (p * q) == (n * p) * q) by (nonlinear_arith);
}

/// Nothing is nothing in parts of any size.
pub proof fn lemma_zero(a: u32, k: nat, t: nat)
    requires
        stands_for(a, 0, k),
        t <= 149,
    ensures
        stands_for(a, 0, t),
{
    reveal(stands_for);
    assert(0 * pow2((149 - k) as nat) == 0 && 0 * pow2((149 - t) as nat) == 0);
}

/// Every finite pattern stands for some number of the smallest parts.
pub proof fn lemma_smallest_parts(a: u32)
    requires
        is_finite(a),
    ensures
        stands_for(a, number(a), 149),
{
    reveal(stands_for);
    vstd::arithmetic::power2::lemma2_to64();
    assert(number(a) * pow2(0) == number(a));
}

/// What stands for a number is finite.
pub proof fn lemma_is_finite(a: u32, n: int, k: nat)
    requires
        stands_for(a, n, k),
    ensures
        is_finite(a),
        k <= 149,
{
    reveal(stands_for);
}

/// Whether a double-precision pattern stands for a number that is neither infinite nor missing.
pub open spec fn is_wide_finite(a: u64) -> bool {
    wide_magnitude(a) < 0x7ff0_0000_0000_0000
}

/// Every finite pattern stands for some number of the smallest parts.
pub proof fn lemma_wide_smallest_parts(a: u64)
    requires
        is_wide_finite(a),
    ensures
        wide_stands_for(a, wide_number(a), 1074),
{
    reveal(wide_stands_for);
    vstd::arithmetic::power2::lemma2_to64();
    assert(wide_number(a) * pow2(0) == wide_number(a));
}

/// Nothing is nothing in parts of any size.
pub proof fn lemma_wide_zero(a: u64, k: nat, t: nat)
    requires
        wide_stands_for(a, 0, k),
        t <= 1074,
    ensures
        wide_stands_for(a, 0, t),
{
    reveal(wide_stands_for);
    assert(0 * pow2((1074 - k) as nat) == 0 && 0 * pow2((1074 - t) as nat) == 0);
}

/// What stands for nothing is one of the two zeros, and those stand for nothing.
pub proof fn lemma_wide_is_zero(a: u64)
    requires
        is_wide_finite(a),
    ensures
        wide_number(a) == 0 <==> wide_magnitude(a) == 0,
{
    if wide_magnitude(a) > 0 {
        lemma_wide_units_grow(0, wide_magnitude(a));
    }
}

/// What stands for nothing has no magnitude.
pub proof fn lemma_wide_magnitude(a: u64, k: nat)
    requires
        wide_stands_for(a, 0, k),
    ensures
        wide_magnitude(a) == 0,
{
    reveal(wide_stands_for);
    assert(0 * pow2((1074 - k) as nat) == 0);
    lemma_wide_is_zero(a);
}

/// A pattern with its sign flipped stands for the opposite number.
pub proof fn lemma_wide_opposite(a: u64, n: int, k: nat)
    requires
        wide_stands_for(a, n, k),
    ensures
        wide_stands_for(wide_neg(a), -n, k),
{
    reveal(wide_stands_for);
    let p = pow2((1074 - k) as nat) as int;
    assert(-(n * p) == (-n) * p) by (nonlinear_arith);
}

/// What is of ordinary size is finite.
pub proof fn lemma_ordinary(a: u32)
    requires
        is_ordinary(a),
    ensures
        is_finite(a),
{
    let (n, k) = choose|n: int, k: nat| #[trigger] stands_for(a, n, k) && fits(n);
    lemma_is_finite(a, n, k);
}

/// A pattern with its sign flipped stands for the opposite number.
pub proof fn lemma_opposite(a: u32, n: int, k: nat)
    requires
        stands_for(a, n, k),
    ensures
        stands_for(neg(a), -n, k),
{
    reveal(stands_for);
    let p = pow2((149 - k) as nat) as int;
    assert(-(n * p) == (-n) * p) by (nonlinear_arith);
}

/// Comparing patterns is comparing what they stand for.
pub proof fn lemma_compare(a: u32, b: u32, n: int, m: int, k: nat)
    requires
        stands_for(a, n, k),
        stands_for(b, m, k),
    ensures
        lt(a, b) == (n < m),
        le(a, b) == (n <= m),
{
    reveal(stands_for);
    let p = pow2((149 - k) as nat) as int;
    vstd::arithmetic::power2::lemma_pow2_pos((149 - k) as nat);
    rank_orders_numbers(a, b);
    assert((n * p < m * p) == (n < m)) by (nonlinear_arith)
        requires
            p > 0,
    ;
    assert((n * p == m * p) == (n == m)) by (nonlinear_arith)
        requires
            p > 0,
    ;
}

/// What stands for nothing is one of the two zeros.
pub proof fn lemma_is_zero(a: u32, k: nat)
    requires
        stands_for(a, 0, k),
    ensures
        magnitude(a) == 0,
{
    reveal(stands_for);
    lemma_constants();
    rank_orders_numbers(a, ZERO);
    assert(number(a) == 0 && number(ZERO) == 0);
}

proof fn lemma_wide_units_grow(m: int, n: int)
    requires
        0 <= m < n,
    ensures
        0 <= wide_units(m) < wide_units(n),
{
    let (em, fm) = (m / 0x10_0000_0000_0000, m % 0x10_0000_0000_0000);
    let (en, fnn) = (n / 0x10_0000_0000_0000, n % 0x10_0000_0000_0000);
    assert(em <= en);
    if en > 0 {
        let pn = pow2((en - 1) as nat) as int;
        vstd::arithmetic::power2::lemma_pow2_pos((en - 1) as nat);
        assert((0x10_0000_0000_0000 + fnn) * pn >= 0x10_0000_0000_0000 * pn) by (nonlinear_arith)
            requires
                fnn >= 0,
                pn > 0,
        ;
        if em > 0 {
            let pm = pow2((em - 1) as nat) as int;
            vstd::arithmetic::power2::lemma_pow2_pos((em - 1) as nat);
            assert((0x10_0000_0000_0000 + fm) * pm >= 0) by (nonlinear_arith)
                requires
                    fm >= 0,
                    pm > 0,
            ;
            if em == en {
                assert((0x10_0000_0000_0000 + fm) * pm < (0x10_0000_0000_0000 + fnn) * pm)
                    by (nonlinear_arith)
                    requires
                        fm < fnn,
                        pm > 0,
                ;
            } else {
                assert(pn >= 2 * pm) by {
                    vstd::arithmetic::power2::lemma_pow2_unfold(em as nat);
                    if em < en - 1 {
                        vstd::arithmetic::power2::lemma_pow2_strictly_increases(
                            em as nat,
                            (en - 1) as nat,
                        );
                    }
                }
                assert((0x10_0000_0000_0000 + fm) * pm < 0x10_0000_0000_0000 * pn)
                    by (nonlinear_arith)
                    requires
                        0 <= fm < 0x10_0000_0000_0000,
                        pm > 0,
                        pn >= 2 * pm,
                ;
            }
        } else {
            assert(0x10_0000_0000_0000 * pn >= 0x10_0000_0000_0000) by (nonlinear_arith)
                requires
                    pn > 0,
            ;
        }
    }
}

/// A number of at least two to the power of -33 exceeds 1e-10.
pub proof fn lemma_not_negligible(a: u64, n: int, k: nat)
    requires
        wide_stands_for(a, n, k),
        n * pow2(33) >= pow2(k),
    ensures
        !wide_lt(a, WIDE_1E_10),
{
    reveal(wide_stands_for);
    let p = pow2((1074 - k) as nat) as int;
    vstd::arithmetic::power2::lemma_pow2_pos((1074 - k) as nat);
    vstd::arithmetic::power2::lemma_pow2_pos(k);
    vstd::arithmetic::power2::lemma_pow2_pos(33);
    vstd::arithmetic::power2::lemma_pow2_pos(988);
    vstd::arithmetic::power2::lemma_pow2_adds(k, (1074 - k) as nat);
    vstd::arithmetic::power2::lemma_pow2_adds(33, 1041);
    vstd::arithmetic::power2::lemma_pow2_adds(53, 988);
    vstd::arithmetic::power2::lemma2_to64_rest();
    let (q, r, z) = (pow2(33) as int, pow2(k) as int, pow2(1041) as int);
    assert((n * p) * q >= r * p) by (nonlinear_arith)
        requires
            n * q >= r,
            p > 0,
    ;
    assert(n * p >= z) by (nonlinear_arith)
        requires
            (n * p) * q >= z * q,
            q > 0,
    ;
    assert(n * p > 0);
    let m = WIDE_1E_10 as int;
    assert(m / 0x10_0000_0000_0000 == 989 && m % 0x10_0000_0000_0000 < 0x10_0000_0000_0000);
    let (f, w) = (m % 0x10_0000_0000_0000, pow2(988) as int);
    assert((0x10_0000_0000_0000 + f) * w < 0x20_0000_0000_0000 * w) by (nonlinear_arith)
        requires
            f < 0x10_0000_0000_0000,
            w > 0,
    ;
    assert(wide_units(m) < z);
    if a < 0x8000_0000_0000_0000 {
        if wide_magnitude(a) < m {
            lemma_wide_units_grow(wide_magnitude(a), m);
        }
    } else {
        if wide_magnitude(a) > 0 {
            lemma_wide_units_grow(0, wide_magnitude(a));
        }
    }
}

/// A whole number other than nothing is of the size of one or more.
pub proof fn lemma_wide_size(a: u64, n: int)
    requires
        wide_stands_for(a, n, 0),
        n != 0,
    ensures
        wide_magnitude(a) >= 0x3ff0_0000_0000_0000,
{
    reveal(wide_stands_for);
    vstd::arithmetic::power2::lemma_pow2_adds(52, 1022);
    vstd::arithmetic::power2::lemma2_to64_rest();
    let p = pow2(1074) as int;
    vstd::arithmetic::power2::lemma_pow2_pos(1074);
    let one = 0x3ff0_0000_0000_0000int;
    assert(one / 0x10_0000_0000_0000 == 1023 && one % 0x10_0000_0000_0000 == 0);
    assert(wide_units(one) == 0x10_0000_0000_0000 * pow2(1022));
    assert(n * p >= p || n * p <= -p) by (nonlinear_arith)
        requires
            n != 0,
            p > 0,
    ;
    if wide_magnitude(a) < one {
        lemma_wide_units_grow(wide_magnitude(a), one);
    }
}

/// A number that is not below 1e-6 is at least two to the power of -20.
pub proof fn lemma_counts(a: u32, n: int, k: nat)
    requires
        stands_for(a, n, k),
        !lt(a, MILLIONTH),
    ensures
        n * pow2(20) >= pow2(k),
{
    reveal(stands_for);
    rank_orders_numbers(a, MILLIONTH);
    let p = pow2((149 - k) as nat) as int;
    vstd::arithmetic::power2::lemma_pow2_pos((149 - k) as nat);
    vstd::arithmetic::power2::lemma_pow2_pos(106);
    vstd::arithmetic::power2::lemma_pow2_adds(k, (149 - k) as nat);
    vstd::arithmetic::power2::lemma_pow2_adds(20, 129);
    vstd::arithmetic::power2::lemma_pow2_adds(23, 106);
    vstd::arithmetic::power2::lemma2_to64();
    let m = MILLIONTH as int;
    assert(m / 0x80_0000 == 107);
    let (f, w) = (m % 0x80_0000, pow2(106) as int);
    assert((0x80_0000 + f) * w >= 0x80_0000 * w) by (nonlinear_arith)
        requires
            f >= 0,
            w > 0,
    ;
    let (q, r, z) = (pow2(20) as int, pow2(k) as int, pow2(129) as int);
    assert(n * p >= z);
    assert(n * q >= r) by (nonlinear_arith)
        requires
            n * p >= z,
            r * p == q * z,
            p > 0,
            q > 0,
    ;
}

/// An exact sum.
pub proof fn exact_add<F: Fn(FloatOp) -> u64>(
    fpu: &FloatUnit<F>,
    a: u32,
    b: u32,
    n: int,
    m: int,
    k: nat,
)
    requires
        is_exact(fpu),
        stands_for(a, n, k),
        stands_for(b, m, k),
        fits(n + m),
    ensures
        stands_for(fpu.add(a, b), n + m, k),
{
    reveal(is_exact);
    assert(adds(fpu, a, b, n, m, k));
}

/// An exact sum in coarser parts.
pub proof fn exact_coarse_add<F: Fn(FloatOp) -> u64>(
    fpu: &FloatUnit<F>,
    a: u32,
    b: u32,
    n: int,
    m: int,
    k: nat,
    q: int,
    t: nat,
)
    requires
        is_exact(fpu),
        stands_for(a, n, k),
        stands_for(b, m, k),
        n + m == q * pow2(t),
        t <= k,
        fits(q),
    ensures
        stands_for(fpu.add(a, b), q, (k - t) as nat),
{
    reveal(is_exact);
    assert(coarsely_adds(fpu, a, b, n, m, k, q, t));
}

/// A finite number taken no times is nothing.
pub proof fn lemma_nothing<F: Fn(FloatOp) -> u64>(fpu: &FloatUnit<F>, a: u32, z: u32, k: nat)
    requires
        is_exact(fpu),
        is_finite(a),
        stands_for(z, 0, 0),
        k <= 149,
    ensures
        stands_for(fpu.mul(a, z), 0, k),
        stands_for(fpu.mul(z, a), 0, k),
{
    lemma_smallest_parts(a);
    assert(number(a) * 0 == 0 && 0 * number(a) == 0);
    exact_mul(fpu, a, z, number(a), 0, 149, 0);
    exact_mul(fpu, z, a, 0, number(a), 0, 149);
    lemma_zero(fpu.mul(a, z), 149, k);
    lemma_zero(fpu.mul(z, a), 149, k);
}

/// An exact difference.
pub proof fn exact_sub<F: Fn(FloatOp) -> u64>(
    fpu: &FloatUnit<F>,
    a: u32,
    b: u32,
    n: int,
    m: int,
    k: nat,
)
    requires
        is_exact(fpu),
        stands_for(a, n, k),
        stands_for(b, m, k),
        fits(n - m),
    ensures
        stands_for(fpu.sub(a, b), n - m, k),
{
    reveal(is_exact);
    assert(subtracts(fpu, a, b, n, m, k));
}

/// An exact product.
pub proof fn exact_mul<F: Fn(FloatOp) -> u64>(
    fpu: &FloatUnit<F>,
    a: u32,
    b: u32,
    n: int,
    m: int,
    k: nat,
    j: nat,
)
    requires
        is_exact(fpu),
        stands_for(a, n, k),
        stands_for(b, m, j),
        k + j <= 149,
        fits(n * m),
    ensures
        stands_for(fpu.mul(a, b), n * m, k + j),
{
    reveal(is_exact);
    vstd::arithmetic::power2::lemma2_to64();
    assert(n * m * pow2(0) == n * m);
    assert(multiplies(fpu, a, b, n, m, k, j, n * m, 0));
}

/// An exact product that fits in coarser parts.
pub proof fn exact_coarse_mul<F: Fn(FloatOp) -> u64>(
    fpu: &FloatUnit<F>,
    a: u32,
    b: u32,
    n: int,
    m: int,
    k: nat,
    j: nat,
    q: int,
    t: nat,
)
    requires
        is_exact(fpu),
        stands_for(a, n, k),
        stands_for(b, m, j),
        n * m == q * pow2(t),
        t <= k + j <= t + 149,
        fits(q),
    ensures
        stands_for(fpu.mul(a, b), q, (k + j - t) as nat),
{
    reveal(is_exact);
    assert(multiplies(fpu, a, b, n, m, k, j, q, t));
}

/// An exact quotient.
pub proof fn exact_div<F: Fn(FloatOp) -> u64>(
    fpu: &FloatUnit<F>,
    a: u32,
    b: u32,
    q: int,
    m: int,
    k: nat,
    t: nat,
)
    requires
        is_exact(fpu),
        m != 0,
        stands_for(a, q * m, k + t),
        stands_for(b, m, k),
        fits(q),
    ensures
        stands_for(fpu.div(a, b), q, t),
{
    reveal(is_exact);
    assert(divides(fpu, a, b, q, m, k, t));
}

/// The whole number below.
pub proof fn exact_floor<F: Fn(FloatOp) -> u64>(fpu: &FloatUnit<F>, a: u32, n: int, k: nat)
    requires
        is_exact(fpu),
        stands_for(a, n, k),
        fits(n),
    ensures
        stands_for(fpu.floor(a), n / (pow2(k) as int), 0),
{
    reveal(is_exact);
    assert(floors(fpu, a, n, k));
}

/// A whole number is its own floor and its own rounding, and is cut to itself.
pub proof fn exact_whole<F: Fn(FloatOp) -> u64>(fpu: &FloatUnit<F>, a: u32, n: int)
    requires
        is_exact(fpu),
        stands_for(a, n, 0),
        fits(n),
    ensures
        stands_for(fpu.floor(a), n, 0),
        stands_for(fpu.ceil(a), n, 0),
        stands_for(fpu.round(a), n, 0),
        fpu.to_i32(a) == n,
        fpu.to_u32(a) == (if n < 0 {
            0
        } else {
            n
        }),
{
    reveal(is_exact);
    vstd::arithmetic::power2::lemma2_to64();
    assert(floors(fpu, a, n, 0));
    assert(ceils(fpu, a, n, 0));
    assert(rounds(fpu, a, n, 0, n));
    assert(cuts(fpu, a, n, 0));
}

/// Numbers are cut to whole ones.
pub proof fn exact_cut<F: Fn(FloatOp) -> u64>(fpu: &FloatUnit<F>, a: u32, n: int, k: nat)
    requires
        is_exact(fpu),
        stands_for(a, n, k),
        0 <= n,
        fits(n),
    ensures
        fpu.to_i32(a) == n / (pow2(k) as int),
        fpu.to_u32(a) == n / (pow2(k) as int),
{
    reveal(is_exact);
    assert(cuts(fpu, a, n, k));
}

/// The whole number above, as an integer.
pub proof fn exact_ceil<F: Fn(FloatOp) -> u64>(fpu: &FloatUnit<F>, a: u32, n: int, k: nat, r: int)
    requires
        is_exact(fpu),
        stands_for(a, n, k),
        fits(n),
        (r - 1) * pow2(k) < n <= r * pow2(k),
    ensures
        fpu.to_i32(fpu.ceil(a)) == r,
{
    let p = pow2(k) as int;
    vstd::arithmetic::power2::lemma_pow2_pos(k);
    assert(ceils(fpu, a, n, k)) by {
        reveal(is_exact);
    }
    assert((-n) / p == -r) by {
        vstd::arithmetic::div_mod::lemma_fundamental_div_mod(-n, p);
        let (q, m) = ((-n) / p, (-n) % p);
        assert(q == -r) by (nonlinear_arith)
            requires
                -n == p * q + m,
                0 <= m < p,
                (r - 1) * p < n <= r * p,
        ;
    }
    assert(-0x100_0000 <= r <= 0x100_0000) by (nonlinear_arith)
        requires
            (r - 1) * p < n <= r * p,
            -0x100_0000 <= n <= 0x100_0000,
            p >= 1,
    ;
    exact_whole(fpu, fpu.ceil(a), r);
}

/// Whole numbers are converted exactly.
pub proof fn exact_from<F: Fn(FloatOp) -> u64>(fpu: &FloatUnit<F>, n: int)
    requires
        is_exact(fpu),
        fits(n),
    ensures
        stands_for(fpu.from_i32(n as i32), n, 0),
        n >= 0 ==> stands_for(fpu.from_u64(n as u64), n, 0),
        n >= 0 ==> wide_stands_for(fpu.wide_from_u64(n as u64), n, 0),
{
    reveal(is_exact);
    assert(stands_for(fpu.from_i32(n as i32), (n as i32) as int, 0));
    if n >= 0 {
        assert(stands_for(fpu.from_u64(n as u64), (n as u64) as int, 0));
        assert(wide_stands_for(fpu.wide_from_u64(n as u64), (n as u64) as int, 0));
    }
}

/// Whole numbers are converted exactly.
pub proof fn exact_wide_from<F: Fn(FloatOp) -> u64>(fpu: &FloatUnit<F>, n: int)
    requires
        is_exact(fpu),
        0 <= n,
        wide_fits(n),
    ensures
        wide_stands_for(fpu.wide_from_u64(n as u64), n, 0),
{
    reveal(is_exact);
    assert(wide_stands_for(fpu.wide_from_u64(n as u64), (n as u64) as int, 0));
}

/// An exact square root.
pub proof fn exact_sqrt<F: Fn(FloatOp) -> u64>(fpu: &FloatUnit<F>, a: u32, n: int, k: nat)
    requires
        is_exact(fpu),
        0 <= n,
        stands_for(a, n * n, 2 * k),
        fits(n),
    ensures
        stands_for(fpu.sqrt(a), n, k),
{
    reveal(is_exact);
    assert(roots(fpu, a, n, k));
}

/// An exact square root.
pub proof fn exact_wide_sqrt<F: Fn(FloatOp) -> u64>(fpu: &FloatUnit<F>, a: u64, n: int, k: nat)
    requires
        is_exact(fpu),
        0 <= n,
        wide_stands_for(a, n * n, 2 * k),
        wide_fits(n),
    ensures
        wide_stands_for(fpu.wide_sqrt(a), n, k),
{
    reveal(is_exact);
    assert(wide_roots(fpu, a, n, k));
}

/// An exact sum.
pub proof fn exact_wide_add<F: Fn(FloatOp) -> u64>(
    fpu: &FloatUnit<F>,
    a: u64,
    b: u64,
    n: int,
    m: int,
    k: nat,
)
    requires
        is_exact(fpu),
        wide_stands_for(a, n, k),
        wide_stands_for(b, m, k),
        wide_fits(n + m),
    ensures
        wide_stands_for(fpu.wide_add(a, b), n + m, k),
{
    reveal(is_exact);
    assert(wide_adds(fpu, a, b, n, m, k));
}

/// An exact product.
pub proof fn exact_wide_mul<F: Fn(FloatOp) -> u64>(
    fpu: &FloatUnit<F>,
    a: u64,
    b: u64,
    n: int,
    m: int,
    k: nat,
    j: nat,
)
    requires
        is_exact(fpu),
        wide_stands_for(a, n, k),
        wide_stands_for(b, m, j),
        k + j <= 1074,
        wide_fits(n * m),
    ensures
        wide_stands_for(fpu.wide_mul(a, b), n * m, k + j),
{
    reveal(is_exact);
    assert(wide_multiplies(fpu, a, b, n, m, k, j));
}

/// An exact quotient.
pub proof fn exact_wide_div<F: Fn(FloatOp) -> u64>(
    fpu: &FloatUnit<F>,
    a: u64,
    b: u64,
    q: int,
    m: int,
    k: nat,
    t: nat,
)
    requires
        is_exact(fpu),
        m != 0,
        wide_stands_for(a, q * m, k + t),
        wide_stands_for(b, m, k),
        wide_fits(q),
    ensures
        wide_stands_for(fpu.wide_div(a, b), q, t),
{
    reveal(is_exact);
    assert(wide_divides(fpu, a, b, q, m, k, t));
}

/// An exact difference.
pub proof fn exact_wide_sub<F: Fn(FloatOp) -> u64>(
    fpu: &FloatUnit<F>,
    a: u64,
    b: u64,
    n: int,
    m: int,
    k: nat,
)
    requires
        is_exact(fpu),
        wide_stands_for(a, n, k),
        wide_stands_for(b, m, k),
        wide_fits(n - m),
    ensures
        wide_stands_for(fpu.wide_sub(a, b), n - m, k),
{
    reveal(is_exact);
    assert(wide_subtracts(fpu, a, b, n, m, k));
}

/// Exact conversions between the two formats.
pub proof fn exact_widen<F: Fn(FloatOp) -> u64>(fpu: &FloatUnit<F>, a: u32, n: int, k: nat)
    requires
        is_exact(fpu),
        stands_for(a, n, k),
    ensures
        wide_stands_for(fpu.widen(a), n, k),
{
    reveal(is_exact);
    assert(widens(fpu, a, n, k));
}

/// Exact conversions between the two formats.
pub proof fn exact_narrow<F: Fn(FloatOp) -> u64>(fpu: &FloatUnit<F>, a: u64, n: int, k: nat)
    requires
        is_exact(fpu),
        wide_stands_for(a, n, k),
        k <= 149,
        fits(n),
    ensures
        stands_for(fpu.narrow(a), n, k),
{
    reveal(is_exact);
    assert(narrows(fpu, a, n, k));
}

/// Brightness is weighed as ITU-R BT.709 asks: 0.2126 of red, 0.7152 of green and 0.0722 of blue,
/// each to the digits of single precision. A color with one channel lit, by a whole power of two,
/// shows the weight of that channel.
pub proof fn channels_weigh_as_they_look<F: Fn(FloatOp) -> u64>(fpu: &FloatUnit<F>, v: u32, k: nat)
    requires
        is_exact(fpu),
        stands_for(v, 1, k),
        k <= 100,
    ensures
        stands_for(luminance_of(fpu, v, ZERO, ZERO), 14267344, k + 26),
        stands_for(luminance_of(fpu, ZERO, v, ZERO), 11999065, k + 24),
        stands_for(luminance_of(fpu, ZERO, ZERO, v), 9690520, k + 27),
        -10000 < 14267344 * 10000 - 2126 * 0x400_0000 < 10000,
        -10000 < 11999065 * 10000 - 7152 * 0x100_0000 < 10000,
        -10000 < 9690520 * 10000 - 722 * 0x800_0000 < 10000,
{
    lemma_constants();
    assert(stands_for(RED_WEIGHT, 14267344, 26) && stands_for(GREEN_WEIGHT, 11999065, 24)
        && stands_for(BLUE_WEIGHT, 9690520, 27)) by {
        reveal(stands_for);
        assert(units(RED_WEIGHT as int) == 14267344 * pow2(123));
        assert(units(GREEN_WEIGHT as int) == 11999065 * pow2(125));
        assert(units(BLUE_WEIGHT as int) == 9690520 * pow2(122));
    }
    lemma_is_finite(RED_WEIGHT, 14267344, 26);
    lemma_is_finite(GREEN_WEIGHT, 11999065, 24);
    lemma_is_finite(BLUE_WEIGHT, 9690520, 27);
    exact_mul(fpu, RED_WEIGHT, v, 14267344, 1, 26, k);
    exact_mul(fpu, GREEN_WEIGHT, v, 11999065, 1, 24, k);
    exact_mul(fpu, BLUE_WEIGHT, v, 9690520, 1, 27, k);
    let (r, g, b) = (fpu.mul(RED_WEIGHT, v), fpu.mul(GREEN_WEIGHT, v), fpu.mul(BLUE_WEIGHT, v));
    let (r0, g0, b0) = (
        fpu.mul(RED_WEIGHT, ZERO),
        fpu.mul(GREEN_WEIGHT, ZERO),
        fpu.mul(BLUE_WEIGHT, ZERO),
    );
    lemma_nothing(fpu, GREEN_WEIGHT, ZERO, k + 26);
    lemma_nothing(fpu, BLUE_WEIGHT, ZERO, k + 26);
    exact_add(fpu, r, g0, 14267344, 0, k + 26);
    exact_add(fpu, fpu.add(r, g0), b0, 14267344, 0, k + 26);
    lemma_nothing(fpu, RED_WEIGHT, ZERO, k + 24);
    lemma_nothing(fpu, BLUE_WEIGHT, ZERO, k + 24);
    exact_add(fpu, r0, g, 0, 11999065, k + 24);
    exact_add(fpu, fpu.add(r0, g), b0, 11999065, 0, k + 24);
    lemma_nothing(fpu, RED_WEIGHT, ZERO, k + 27);
    lemma_nothing(fpu, GREEN_WEIGHT, ZERO, k + 27);
    exact_add(fpu, r0, g0, 0, 0, k + 27);
    exact_add(fpu, fpu.add(r0, g0), b, 0, 9690520, k + 27);
}

} // verus!
