//! Floating-point values as IEEE 754 bit patterns.
//!
//! The library carries single-precision values as `u32` and double-precision values as `u64` bit
//! patterns. Comparisons, sign changes, limits and rankings of values are computed on the patterns
//! and proved here. Rounded arithmetic is done by a [`FloatUnit`], which a caller builds around the
//! machine's own floating-point instructions: every contract of the library that speaks of a
//! computed value states which operations are applied to which operands, in which order.

use vstd::arithmetic::power2::pow2;
use vstd::prelude::*;

verus! {

/// One operation of a [`FloatUnit`], with its operands.
pub enum FloatOp {
    /// Single precision: `a + b`.
    Add(u32, u32),
    /// Single precision: `a - b`.
    Sub(u32, u32),
    /// Single precision: `a * b`.
    Mul(u32, u32),
    /// Single precision: `a / b`.
    Div(u32, u32),
    /// Single precision: the square root of `a`.
    Sqrt(u32),
    /// Single precision: the exponential of `a`.
    Exp(u32),
    /// Single precision: the sine of `a`.
    Sin(u32),
    /// Single precision: the cosine of `a`.
    Cos(u32),
    /// Single precision: the four-quadrant arctangent of `a` over `b`.
    Atan2(u32, u32),
    /// Single precision: `a` raised to the power `b`.
    Powf(u32, u32),
    /// Single precision: the largest integer value not above `a`.
    Floor(u32),
    /// Single precision: the smallest integer value not below `a`.
    Ceil(u32),
    /// Single precision: the integer value nearest to `a`, halves away from zero.
    Round(u32),
    /// Double precision: `a + b`.
    WideAdd(u64, u64),
    /// Double precision: `a - b`.
    WideSub(u64, u64),
    /// Double precision: `a * b`.
    WideMul(u64, u64),
    /// Double precision: `a / b`.
    WideDiv(u64, u64),
    /// Double precision: the square root of `a`.
    WideSqrt(u64),
    /// Conversion: the integer `a` as a single-precision value.
    FromU64(u64),
    /// Conversion: the integer `a` as a single-precision value.
    FromI32(i32),
    /// Conversion: the single-precision value `a` cut to an integer and held to the range of `i32`.
    ToI32(u32),
    /// Conversion: the single-precision value `a` cut to an integer and held to the range of `u32`.
    ToU32(u32),
    /// Conversion: the single-precision value `a` in double precision.
    Widen(u32),
    /// Conversion: the double-precision value `a` rounded to single precision.
    Narrow(u64),
    /// Conversion: the integer `a` as a double-precision value.
    WideFromU64(u64),
}

/// A floating-point unit: a total and repeatable evaluation of every [`FloatOp`].
///
/// The outcome is a bit pattern. Single-precision results and `u32` integers stand in the low
/// half, an `i32` integer as its two's complement.
pub struct FloatUnit<F: Fn(FloatOp) -> u64> {
    op: F,
}

impl<F: Fn(FloatOp) -> u64> FloatUnit<F> {
    #[verifier::type_invariant]
    spec fn repeatable(self) -> bool {
        &&& forall|op: FloatOp| call_requires(self.op, (op,))
        &&& forall|op: FloatOp, a: u64, b: u64|
            call_ensures(self.op, (op,), a) && call_ensures(self.op, (op,), b) ==> a == b
    }

    /// The bit pattern that this unit gives for an operation.
    pub closed spec fn result(&self, op: FloatOp) -> u64 {
        choose|r: u64| call_ensures(self.op, (op,), r)
    }

    /// A unit that evaluates each operation with `op`.
    pub fn new(op: F) -> (unit: Self)
        requires
            forall|o: FloatOp| call_requires(op, (o,)),
            forall|o: FloatOp, a: u64, b: u64|
                call_ensures(op, (o,), a) && call_ensures(op, (o,), b) ==> a == b,
        ensures
            forall|o: FloatOp, r: u64| #[trigger] call_ensures(op, (o,), r) ==> unit.result(o) == r,
    {
        FloatUnit { op }
    }

    /// Evaluate one operation.
    fn run(&self, op: FloatOp) -> (r: u64)
        ensures
            r == self.result(op),
    {
        proof {
            use_type_invariant(self);
        }
        (self.op)(op)
    }

    /// What [`FloatUnit::add`] returns.
    pub open spec fn spec_add(&self, a: u32, b: u32) -> u32 {
        self.result(FloatOp::Add(a, b)) as u32
    }

    /// Single precision: `a + b`.
    #[verifier::when_used_as_spec(spec_add)]
    pub fn add(&self, a: u32, b: u32) -> (r: u32)
        ensures
            r == self.spec_add(a, b),
    {
        self.run(FloatOp::Add(a, b)) as u32
    }

    /// What [`FloatUnit::sub`] returns.
    pub open spec fn spec_sub(&self, a: u32, b: u32) -> u32 {
        self.result(FloatOp::Sub(a, b)) as u32
    }

    /// Single precision: `a - b`.
    #[verifier::when_used_as_spec(spec_sub)]
    pub fn sub(&self, a: u32, b: u32) -> (r: u32)
        ensures
            r == self.spec_sub(a, b),
    {
        self.run(FloatOp::Sub(a, b)) as u32
    }

    /// What [`FloatUnit::mul`] returns.
    pub open spec fn spec_mul(&self, a: u32, b: u32) -> u32 {
        self.result(FloatOp::Mul(a, b)) as u32
    }

    /// Single precision: `a * b`.
    #[verifier::when_used_as_spec(spec_mul)]
    pub fn mul(&self, a: u32, b: u32) -> (r: u32)
        ensures
            r == self.spec_mul(a, b),
    {
        self.run(FloatOp::Mul(a, b)) as u32
    }

    /// What [`FloatUnit::div`] returns.
    pub open spec fn spec_div(&self, a: u32, b: u32) -> u32 {
        self.result(FloatOp::Div(a, b)) as u32
    }

    /// Single precision: `a / b`.
    #[verifier::when_used_as_spec(spec_div)]
    pub fn div(&self, a: u32, b: u32) -> (r: u32)
        ensures
            r == self.spec_div(a, b),
    {
        self.run(FloatOp::Div(a, b)) as u32
    }

    /// What [`FloatUnit::sqrt`] returns.
    pub open spec fn spec_sqrt(&self, a: u32) -> u32 {
        self.result(FloatOp::Sqrt(a)) as u32
    }

    /// Single precision: the square root of `a`.
    #[verifier::when_used_as_spec(spec_sqrt)]
    pub fn sqrt(&self, a: u32) -> (r: u32)
        ensures
            r == self.spec_sqrt(a),
    {
        self.run(FloatOp::Sqrt(a)) as u32
    }

    /// What [`FloatUnit::exp`] returns.
    pub open spec fn spec_exp(&self, a: u32) -> u32 {
        self.result(FloatOp::Exp(a)) as u32
    }

    /// Single precision: the exponential of `a`.
    #[verifier::when_used_as_spec(spec_exp)]
    pub fn exp(&self, a: u32) -> (r: u32)
        ensures
            r == self.spec_exp(a),
    {
        self.run(FloatOp::Exp(a)) as u32
    }

    /// What [`FloatUnit::sin`] returns.
    pub open spec fn spec_sin(&self, a: u32) -> u32 {
        self.result(FloatOp::Sin(a)) as u32
    }

    /// Single precision: the sine of `a`.
    #[verifier::when_used_as_spec(spec_sin)]
    pub fn sin(&self, a: u32) -> (r: u32)
        ensures
            r == self.spec_sin(a),
    {
        self.run(FloatOp::Sin(a)) as u32
    }

    /// What [`FloatUnit::cos`] returns.
    pub open spec fn spec_cos(&self, a: u32) -> u32 {
        self.result(FloatOp::Cos(a)) as u32
    }

    /// Single precision: the cosine of `a`.
    #[verifier::when_used_as_spec(spec_cos)]
    pub fn cos(&self, a: u32) -> (r: u32)
        ensures
            r == self.spec_cos(a),
    {
        self.run(FloatOp::Cos(a)) as u32
    }

    /// What [`FloatUnit::atan2`] returns.
    pub open spec fn spec_atan2(&self, a: u32, b: u32) -> u32 {
        self.result(FloatOp::Atan2(a, b)) as u32
    }

    /// Single precision: the four-quadrant arctangent of `a` over `b`.
    #[verifier::when_used_as_spec(spec_atan2)]
    pub fn atan2(&self, a: u32, b: u32) -> (r: u32)
        ensures
            r == self.spec_atan2(a, b),
    {
        self.run(FloatOp::Atan2(a, b)) as u32
    }

    /// What [`FloatUnit::powf`] returns.
    pub open spec fn spec_powf(&self, a: u32, b: u32) -> u32 {
        self.result(FloatOp::Powf(a, b)) as u32
    }

    /// Single precision: `a` raised to the power `b`.
    #[verifier::when_used_as_spec(spec_powf)]
    pub fn powf(&self, a: u32, b: u32) -> (r: u32)
        ensures
            r == self.spec_powf(a, b),
    {
        self.run(FloatOp::Powf(a, b)) as u32
    }

    /// What [`FloatUnit::floor`] returns.
    pub open spec fn spec_floor(&self, a: u32) -> u32 {
        self.result(FloatOp::Floor(a)) as u32
    }

    /// Single precision: the largest integer value not above `a`.
    #[verifier::when_used_as_spec(spec_floor)]
    pub fn floor(&self, a: u32) -> (r: u32)
        ensures
            r == self.spec_floor(a),
    {
        self.run(FloatOp::Floor(a)) as u32
    }

    /// What [`FloatUnit::ceil`] returns.
    pub open spec fn spec_ceil(&self, a: u32) -> u32 {
        self.result(FloatOp::Ceil(a)) as u32
    }

    /// Single precision: the smallest integer value not below `a`.
    #[verifier::when_used_as_spec(spec_ceil)]
    pub fn ceil(&self, a: u32) -> (r: u32)
        ensures
            r == self.spec_ceil(a),
    {
        self.run(FloatOp::Ceil(a)) as u32
    }

    /// What [`FloatUnit::round`] returns.
    pub open spec fn spec_round(&self, a: u32) -> u32 {
        self.result(FloatOp::Round(a)) as u32
    }

    /// Single precision: the integer value nearest to `a`, halves away from zero.
    #[verifier::when_used_as_spec(spec_round)]
    pub fn round(&self, a: u32) -> (r: u32)
        ensures
            r == self.spec_round(a),
    {
        self.run(FloatOp::Round(a)) as u32
    }

    /// What [`FloatUnit::wide_add`] returns.
    pub open spec fn spec_wide_add(&self, a: u64, b: u64) -> u64 {
        self.result(FloatOp::WideAdd(a, b))
    }

    /// Double precision: `a + b`.
    #[verifier::when_used_as_spec(spec_wide_add)]
    pub fn wide_add(&self, a: u64, b: u64) -> (r: u64)
        ensures
            r == self.spec_wide_add(a, b),
    {
        self.run(FloatOp::WideAdd(a, b))
    }

    /// What [`FloatUnit::wide_sub`] returns.
    pub open spec fn spec_wide_sub(&self, a: u64, b: u64) -> u64 {
        self.result(FloatOp::WideSub(a, b))
    }

    /// Double precision: `a - b`.
    #[verifier::when_used_as_spec(spec_wide_sub)]
    pub fn wide_sub(&self, a: u64, b: u64) -> (r: u64)
        ensures
            r == self.spec_wide_sub(a, b),
    {
        self.run(FloatOp::WideSub(a, b))
    }

    /// What [`FloatUnit::wide_mul`] returns.
    pub open spec fn spec_wide_mul(&self, a: u64, b: u64) -> u64 {
        self.result(FloatOp::WideMul(a, b))
    }

    /// Double precision: `a * b`.
    #[verifier::when_used_as_spec(spec_wide_mul)]
    pub fn wide_mul(&self, a: u64, b: u64) -> (r: u64)
        ensures
            r == self.spec_wide_mul(a, b),
    {
        self.run(FloatOp::WideMul(a, b))
    }

    /// What [`FloatUnit::wide_div`] returns.
    pub open spec fn spec_wide_div(&self, a: u64, b: u64) -> u64 {
        self.result(FloatOp::WideDiv(a, b))
    }

    /// Double precision: `a / b`.
    #[verifier::when_used_as_spec(spec_wide_div)]
    pub fn wide_div(&self, a: u64, b: u64) -> (r: u64)
        ensures
            r == self.spec_wide_div(a, b),
    {
        self.run(FloatOp::WideDiv(a, b))
    }

    /// What [`FloatUnit::wide_sqrt`] returns.
    pub open spec fn spec_wide_sqrt(&self, a: u64) -> u64 {
        self.result(FloatOp::WideSqrt(a))
    }

    /// Double precision: the square root of `a`.
    #[verifier::when_used_as_spec(spec_wide_sqrt)]
    pub fn wide_sqrt(&self, a: u64) -> (r: u64)
        ensures
            r == self.spec_wide_sqrt(a),
    {
        self.run(FloatOp::WideSqrt(a))
    }

    /// What [`FloatUnit::from_u64`] returns.
    pub open spec fn spec_from_u64(&self, a: u64) -> u32 {
        self.result(FloatOp::FromU64(a)) as u32
    }

    /// Conversion: the integer `a` as a single-precision value.
    #[verifier::when_used_as_spec(spec_from_u64)]
    pub fn from_u64(&self, a: u64) -> (r: u32)
        ensures
            r == self.spec_from_u64(a),
    {
        self.run(FloatOp::FromU64(a)) as u32
    }

    /// What [`FloatUnit::from_i32`] returns.
    pub open spec fn spec_from_i32(&self, a: i32) -> u32 {
        self.result(FloatOp::FromI32(a)) as u32
    }

    /// Conversion: the integer `a` as a single-precision value.
    #[verifier::when_used_as_spec(spec_from_i32)]
    pub fn from_i32(&self, a: i32) -> (r: u32)
        ensures
            r == self.spec_from_i32(a),
    {
        self.run(FloatOp::FromI32(a)) as u32
    }

    /// What [`FloatUnit::to_i32`] returns.
    pub open spec fn spec_to_i32(&self, a: u32) -> i32 {
        self.result(FloatOp::ToI32(a)) as i32
    }

    /// Conversion: the single-precision value `a` cut to an integer and held to the range of `i32`.
    #[verifier::when_used_as_spec(spec_to_i32)]
    pub fn to_i32(&self, a: u32) -> (r: i32)
        ensures
            r == self.spec_to_i32(a),
    {
        self.run(FloatOp::ToI32(a)) as i32
    }

    /// What [`FloatUnit::to_u32`] returns.
    pub open spec fn spec_to_u32(&self, a: u32) -> u32 {
        self.result(FloatOp::ToU32(a)) as u32
    }

    /// Conversion: the single-precision value `a` cut to an integer and held to the range of `u32`.
    #[verifier::when_used_as_spec(spec_to_u32)]
    pub fn to_u32(&self, a: u32) -> (r: u32)
        ensures
            r == self.spec_to_u32(a),
    {
        self.run(FloatOp::ToU32(a)) as u32
    }

    /// What [`FloatUnit::to_u8`] returns.
    pub open spec fn spec_to_u8(&self, a: u32) -> u8 {
        if self.to_u32(a) > 255 {
            255
        } else {
            self.to_u32(a) as u8
        }
    }

    /// Conversion: the single-precision value `a` cut to an integer and held to the range of `u8`.
    #[verifier::when_used_as_spec(spec_to_u8)]
    pub fn to_u8(&self, a: u32) -> (r: u8)
        ensures
            r == self.spec_to_u8(a),
    {
        let v = self.to_u32(a);
        if v > 255 {
            255
        } else {
            v as u8
        }
    }

    /// What [`FloatUnit::to_u16`] returns.
    pub open spec fn spec_to_u16(&self, a: u32) -> u16 {
        if self.to_u32(a) > 0xffff {
            0xffff
        } else {
            self.to_u32(a) as u16
        }
    }

    /// Conversion: the single-precision value `a` cut to an integer and held to the range of
    /// `u16`.
    #[verifier::when_used_as_spec(spec_to_u16)]
    pub fn to_u16(&self, a: u32) -> (r: u16)
        ensures
            r == self.spec_to_u16(a),
    {
        let v = self.to_u32(a);
        if v > 0xffff {
            0xffff
        } else {
            v as u16
        }
    }

    /// What [`FloatUnit::widen`] returns.
    pub open spec fn spec_widen(&self, a: u32) -> u64 {
        self.result(FloatOp::Widen(a))
    }

    /// Conversion: the single-precision value `a` in double precision.
    #[verifier::when_used_as_spec(spec_widen)]
    pub fn widen(&self, a: u32) -> (r: u64)
        ensures
            r == self.spec_widen(a),
    {
        self.run(FloatOp::Widen(a))
    }

    /// What [`FloatUnit::narrow`] returns.
    pub open spec fn spec_narrow(&self, a: u64) -> u32 {
        self.result(FloatOp::Narrow(a)) as u32
    }

    /// Conversion: the double-precision value `a` rounded to single precision.
    #[verifier::when_used_as_spec(spec_narrow)]
    pub fn narrow(&self, a: u64) -> (r: u32)
        ensures
            r == self.spec_narrow(a),
    {
        self.run(FloatOp::Narrow(a)) as u32
    }

    /// What [`FloatUnit::wide_from_u64`] returns.
    pub open spec fn spec_wide_from_u64(&self, a: u64) -> u64 {
        self.result(FloatOp::WideFromU64(a))
    }

    /// Conversion: the integer `a` as a double-precision value.
    #[verifier::when_used_as_spec(spec_wide_from_u64)]
    pub fn wide_from_u64(&self, a: u64) -> (r: u64)
        ensures
            r == self.spec_wide_from_u64(a),
    {
        self.run(FloatOp::WideFromU64(a))
    }

}

/// The single-precision value 0.
pub const ZERO: u32 = 0;

/// The single-precision value 1.
pub const ONE: u32 = 0x3f80_0000;

/// The single-precision value 0.5.
pub const HALF: u32 = 0x3f00_0000;

/// The single-precision value 2.
pub const TWO: u32 = 0x4000_0000;

/// The single-precision value 3.
pub const THREE: u32 = 0x4040_0000;

/// The single-precision value 4.
pub const FOUR: u32 = 0x4080_0000;

/// The single-precision value 255.
pub const BYTE_MAX: u32 = 0x437f_0000;

/// The single-precision value 65535.
pub const WORD_MAX: u32 = 0x477f_ff00;

/// The share of red in luminance, 0.2126.
pub const RED_WEIGHT: u32 = 0x3e59_b3d0;

/// The share of green in luminance, 0.7152.
pub const GREEN_WEIGHT: u32 = 0x3f37_1759;

/// The share of blue in luminance, 0.0722.
pub const BLUE_WEIGHT: u32 = 0x3d93_dd98;

/// The single-precision value 1e-6.
pub const MILLIONTH: u32 = 0x3586_37bd;

/// The single-precision negative infinity.
pub const NEG_INFINITY: u32 = 0xff80_0000;

/// The double-precision value 0.
pub const WIDE_ZERO: u64 = 0;

/// The double-precision value 1e-10.
pub const WIDE_1E_10: u64 = 0x3ddb_7cdf_d9d7_bdbb;

/// The magnitude of a single-precision pattern: the pattern without its sign.
pub open spec fn magnitude(a: u32) -> int {
    if a < 0x8000_0000 {
        a as int
    } else {
        a - 0x8000_0000
    }
}

/// The place of a single-precision pattern among the numbers: it grows with the number, and both
/// zeros have place zero.
pub open spec fn rank(a: u32) -> int {
    if a < 0x8000_0000 {
        a as int
    } else {
        0x8000_0000 - a
    }
}

/// Whether a single-precision pattern is not a number.
pub open spec fn spec_is_nan(a: u32) -> bool {
    magnitude(a) > 0x7f80_0000
}

/// Whether a single-precision pattern is not a number.
#[verifier::when_used_as_spec(spec_is_nan)]
pub fn is_nan(a: u32) -> (r: bool)
    ensures
        r == spec_is_nan(a),
{
    if a < 0x8000_0000 {
        a > 0x7f80_0000
    } else {
        a - 0x8000_0000 > 0x7f80_0000
    }
}

/// What [`lt`] returns.
pub open spec fn spec_lt(a: u32, b: u32) -> bool {
    !spec_is_nan(a) && !spec_is_nan(b) && rank(a) < rank(b)
}

/// `a < b`: false where either is not a number.
#[verifier::when_used_as_spec(spec_lt)]
pub fn lt(a: u32, b: u32) -> (r: bool)
    ensures
        r == spec_lt(a, b),
{
    if is_nan(a) || is_nan(b) {
        return false;
    }
    if a < 0x8000_0000 {
        b < 0x8000_0000 && a < b
    } else if b < 0x8000_0000 {
        a != 0x8000_0000 || b != 0
    } else {
        b < a
    }
}

/// What [`le`] returns.
pub open spec fn spec_le(a: u32, b: u32) -> bool {
    !spec_is_nan(a) && !spec_is_nan(b) && rank(a) <= rank(b)
}

/// `a <= b`: false where either is not a number.
#[verifier::when_used_as_spec(spec_le)]
pub fn le(a: u32, b: u32) -> (r: bool)
    ensures
        r == spec_le(a, b),
{
    !is_nan(a) && !is_nan(b) && !lt(b, a)
}

/// What [`max`] returns.
pub open spec fn spec_max(a: u32, b: u32) -> u32 {
    if spec_is_nan(a) || spec_lt(a, b) {
        b
    } else {
        a
    }
}

/// The larger of two values; of a number and a pattern that is not a number, the number.
#[verifier::when_used_as_spec(spec_max)]
pub fn max(a: u32, b: u32) -> (r: u32)
    ensures
        r == spec_max(a, b),
{
    if is_nan(a) || lt(a, b) {
        b
    } else {
        a
    }
}

/// What [`min`] returns.
pub open spec fn spec_min(a: u32, b: u32) -> u32 {
    if spec_is_nan(a) || spec_lt(b, a) {
        b
    } else {
        a
    }
}

/// The smaller of two values; of a number and a pattern that is not a number, the number.
#[verifier::when_used_as_spec(spec_min)]
pub fn min(a: u32, b: u32) -> (r: u32)
    ensures
        r == spec_min(a, b),
{
    if is_nan(a) || lt(b, a) {
        b
    } else {
        a
    }
}

/// What [`clamp`] returns.
pub open spec fn spec_clamp(a: u32, low: u32, high: u32) -> u32 {
    let raised = if spec_lt(a, low) {
        low
    } else {
        a
    };
    if spec_lt(high, raised) {
        high
    } else {
        raised
    }
}

/// `a` held between `low` and `high`; a pattern that is not a number stays as it is.
#[verifier::when_used_as_spec(spec_clamp)]
pub fn clamp(a: u32, low: u32, high: u32) -> (r: u32)
    ensures
        r == spec_clamp(a, low, high),
{
    let raised: u32 = if lt(a, low) {
        low
    } else {
        a
    };
    if lt(high, raised) {
        high
    } else {
        raised
    }
}

/// What [`abs`] returns.
pub open spec fn spec_abs(a: u32) -> u32 {
    magnitude(a) as u32
}

/// The value without its sign.
#[verifier::when_used_as_spec(spec_abs)]
pub fn abs(a: u32) -> (r: u32)
    ensures
        r == spec_abs(a),
        rank(r) == magnitude(a),
{
    if a < 0x8000_0000 {
        a
    } else {
        a - 0x8000_0000
    }
}

/// What [`neg`] returns.
pub open spec fn spec_neg(a: u32) -> u32 {
    if a < 0x8000_0000 {
        (a + 0x8000_0000) as u32
    } else {
        (a - 0x8000_0000) as u32
    }
}

/// The value with its sign flipped.
#[verifier::when_used_as_spec(spec_neg)]
pub fn neg(a: u32) -> (r: u32)
    ensures
        r == spec_neg(a),
        rank(r) == -rank(a),
{
    if a < 0x8000_0000 {
        a + 0x8000_0000
    } else {
        a - 0x8000_0000
    }
}

/// The magnitude of a double-precision pattern: the pattern without its sign.
pub open spec fn wide_magnitude(a: u64) -> int {
    if a < 0x8000_0000_0000_0000 {
        a as int
    } else {
        a - 0x8000_0000_0000_0000
    }
}

/// The place of a double-precision pattern among the numbers.
pub open spec fn wide_rank(a: u64) -> int {
    if a < 0x8000_0000_0000_0000 {
        a as int
    } else {
        0x8000_0000_0000_0000 - a
    }
}

/// Whether a double-precision pattern is not a number.
pub open spec fn wide_is_nan(a: u64) -> bool {
    wide_magnitude(a) > 0x7ff0_0000_0000_0000
}

/// What [`wide_lt`] returns.
pub open spec fn spec_wide_lt(a: u64, b: u64) -> bool {
    !wide_is_nan(a) && !wide_is_nan(b) && wide_rank(a) < wide_rank(b)
}

/// `a < b` in double precision: false where either is not a number.
#[verifier::when_used_as_spec(spec_wide_lt)]
pub fn wide_lt(a: u64, b: u64) -> (r: bool)
    ensures
        r == spec_wide_lt(a, b),
{
    let a_size: u64 = wide_abs(a);
    let b_size: u64 = wide_abs(b);
    if a_size > 0x7ff0_0000_0000_0000 || b_size > 0x7ff0_0000_0000_0000 {
        return false;
    }
    if a < 0x8000_0000_0000_0000 {
        b < 0x8000_0000_0000_0000 && a < b
    } else if b < 0x8000_0000_0000_0000 {
        a_size != 0 || b != 0
    } else {
        b < a
    }
}

/// What [`wide_abs`] returns.
pub open spec fn spec_wide_abs(a: u64) -> u64 {
    wide_magnitude(a) as u64
}

/// The double-precision value without its sign.
#[verifier::when_used_as_spec(spec_wide_abs)]
pub fn wide_abs(a: u64) -> (r: u64)
    ensures
        r == spec_wide_abs(a),
        r == wide_magnitude(a),
{
    if a < 0x8000_0000_0000_0000 {
        a
    } else {
        a - 0x8000_0000_0000_0000
    }
}

/// What [`wide_neg`] returns.
pub open spec fn spec_wide_neg(a: u64) -> u64 {
    if a < 0x8000_0000_0000_0000 {
        (a + 0x8000_0000_0000_0000) as u64
    } else {
        (a - 0x8000_0000_0000_0000) as u64
    }
}

/// The double-precision value with its sign flipped.
#[verifier::when_used_as_spec(spec_wide_neg)]
pub fn wide_neg(a: u64) -> (r: u64)
    ensures
        r == spec_wide_neg(a),
{
    if a < 0x8000_0000_0000_0000 {
        a + 0x8000_0000_0000_0000
    } else {
        a - 0x8000_0000_0000_0000
    }
}

/// The number that a finite pattern of magnitude `m` stands for, counted in units of the smallest
/// positive single-precision value.
pub open spec fn units(m: int) -> int {
    let exponent = m / 0x80_0000;
    let fraction = m % 0x80_0000;
    if exponent == 0 {
        fraction
    } else {
        (0x80_0000 + fraction) * pow2((exponent - 1) as nat)
    }
}

/// The number that a finite single-precision pattern stands for, in the same units.
pub open spec fn number(a: u32) -> int {
    if a < 0x8000_0000 {
        units(magnitude(a))
    } else {
        -units(magnitude(a))
    }
}

/// The luminance of a color (ITU-R BT.709).
pub open spec fn luminance_of<F: Fn(FloatOp) -> u64>(
    fpu: &FloatUnit<F>,
    red: u32,
    green: u32,
    blue: u32,
) -> u32 {
    fpu.add(
        fpu.add(fpu.mul(RED_WEIGHT, red), fpu.mul(GREEN_WEIGHT, green)),
        fpu.mul(BLUE_WEIGHT, blue),
    )
}

/// The luminance of a color (ITU-R BT.709).
pub fn luminance<F: Fn(FloatOp) -> u64>(
    fpu: &FloatUnit<F>,
    red: u32,
    green: u32,
    blue: u32,
) -> (r: u32)
    ensures
        r == luminance_of(fpu, red, green, blue),
{
    fpu.add(
        fpu.add(fpu.mul(RED_WEIGHT, red), fpu.mul(GREEN_WEIGHT, green)),
        fpu.mul(BLUE_WEIGHT, blue),
    )
}

proof fn lemma_units_grow(m: int, n: int)
    requires
        0 <= m < n,
    ensures
        0 <= units(m) < units(n),
{
    let (em, fm) = (m / 0x80_0000, m % 0x80_0000);
    let (en, fnn) = (n / 0x80_0000, n % 0x80_0000);
    assert(em <= en);
    if en > 0 {
        let pn = pow2((en - 1) as nat) as int;
        vstd::arithmetic::power2::lemma_pow2_pos((en - 1) as nat);
        assert((0x80_0000 + fnn) * pn >= 0x80_0000 * pn) by (nonlinear_arith)
            requires
                fnn >= 0,
                pn > 0,
        ;
        if em > 0 {
            let pm = pow2((em - 1) as nat) as int;
            vstd::arithmetic::power2::lemma_pow2_pos((em - 1) as nat);
            assert((0x80_0000 + fm) * pm >= 0) by (nonlinear_arith)
                requires
                    fm >= 0,
                    pm > 0,
            ;
            if em == en {
                assert((0x80_0000 + fm) * pm < (0x80_0000 + fnn) * pm) by (nonlinear_arith)
                    requires
                        fm < fnn,
                        pm > 0,
                ;
            } else {
                assert(pn >= 2 * pm) by {
                    vstd::arithmetic::power2::lemma_pow2_unfold(em as nat);
                    if em < en - 1 {
                        vstd::arithmetic::power2::lemma_pow2_strictly_increases(
                            em as nat,
                            (en - 1) as nat,
                        );
                    }
                }
                assert((0x80_0000 + fm) * pm < 0x80_0000 * pn) by (nonlinear_arith)
                    requires
                        0 <= fm < 0x80_0000,
                        pm > 0,
                        pn >= 2 * pm,
                ;
            }
        } else {
            assert(0x80_0000 * pn >= 0x80_0000) by (nonlinear_arith)
                requires
                    pn > 0,
            ;
        }
    }
}

/// Ranking patterns is comparing numbers: of two patterns that stand for finite numbers, the one
/// of smaller rank stands for the smaller number, and patterns of one rank for one number.
pub proof fn rank_orders_numbers(a: u32, b: u32)
    requires
        magnitude(a) < 0x7f80_0000,
        magnitude(b) < 0x7f80_0000,
    ensures
        rank(a) < rank(b) <==> number(a) < number(b),
        rank(a) == rank(b) <==> number(a) == number(b),
{
    let (ma, mb) = (magnitude(a), magnitude(b));
    if ma < mb {
        lemma_units_grow(ma, mb);
    }
    if mb < ma {
        lemma_units_grow(mb, ma);
    }
    if ma > 0 {
        lemma_units_grow(0, ma);
    }
    if mb > 0 {
        lemma_units_grow(0, mb);
    }
}

/// A value held between two ordered limits lies between them, and one that already lies there
/// stays as it is.
pub proof fn clamp_stays_within(a: u32, low: u32, high: u32)
    requires
        le(low, high),
        !is_nan(a),
    ensures
        le(low, clamp(a, low, high)),
        le(clamp(a, low, high), high),
        le(low, a) && le(a, high) ==> clamp(a, low, high) == a,
{
}

} // verus!
