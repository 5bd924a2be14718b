//! Scalars for the network engine.
//!
//! Every scalar is an IEEE-754 binary64 value carried as its 64-bit pattern.
//! The arithmetic itself is done by the hardware behind trusted wrappers; each
//! operation's result is named by an uninterpreted spec function of the
//! operand bit patterns, which is sound because IEEE-754 determines every
//! result bit from the operand bits alone — except the payload of a
//! not-a-number result, which the verified wrappers canonicalize.

use vstd::prelude::*;
use rand::Rng;

verus! {

/// Bit pattern of positive zero.
pub const POS_ZERO: u64 = 0x0000_0000_0000_0000;

/// Bit pattern of the canonical quiet not-a-number value.
pub const CANONICAL_NAN: u64 = 0x7FF8_0000_0000_0000;

/// Mask of the exponent field.
pub const EXPONENT_MASK: u64 = 0x7FF0_0000_0000_0000;

/// Mask of the mantissa field.
pub const MANTISSA_MASK: u64 = 0x000F_FFFF_FFFF_FFFF;

/// Mask of everything but the sign bit.
pub const MAGNITUDE_MASK: u64 = 0x7FFF_FFFF_FFFF_FFFF;

/// Bit pattern of one half.
pub const HALF_BITS: u64 = 0x3FE0_0000_0000_0000;

/// Bit pattern of negative one half.
pub const NEG_HALF_BITS: u64 = 0xBFE0_0000_0000_0000;

/// The pattern encodes a not-a-number value: exponent field all ones and a
/// non-zero mantissa, whatever the sign bit.
pub open spec fn is_nan_bits(x: u64) -> bool {
    (x & EXPONENT_MASK) == EXPONENT_MASK && (x & MANTISSA_MASK) != 0
}

/// The pattern with every not-a-number value replaced by the canonical one.
pub open spec fn canon_bits(x: u64) -> u64 {
    if is_nan_bits(x) {
        CANONICAL_NAN
    } else {
        x
    }
}

/// The pattern encodes a strictly positive finite number (normal or
/// subnormal): sign bit clear, not zero, exponent field below all ones.
pub open spec fn is_pos_finite_bits(x: u64) -> bool {
    0 < x && x < EXPONENT_MASK
}

/// The pattern encodes a value in the initialization interval [-0.5, 0.5).
pub open spec fn in_init_range(x: u64) -> bool {
    (x & MAGNITUDE_MASK) < HALF_BITS || x == NEG_HALF_BITS
}

pub uninterp spec fn add_bits(a: u64, b: u64) -> u64;

pub uninterp spec fn sub_bits(a: u64, b: u64) -> u64;

pub uninterp spec fn mul_bits(a: u64, b: u64) -> u64;

pub uninterp spec fn div_bits(a: u64, b: u64) -> u64;

pub uninterp spec fn exp_bits(a: u64) -> u64;

pub uninterp spec fn ln_bits(a: u64) -> u64;

pub uninterp spec fn lt_bits(a: u64, b: u64) -> bool;

/// Replaces any not-a-number pattern by the canonical one.
fn canonicalize(x: u64) -> (r: u64)
    ensures
        r == canon_bits(x),
{
    if (x & EXPONENT_MASK) == EXPONENT_MASK && (x & MANTISSA_MASK) != 0 {
        CANONICAL_NAN
    } else {
        x
    }
}

/// Relies on `+` for IEEE-754 binary64 values: the sum's bit pattern is a
/// function of the operand bit patterns, except for the payload of a
/// not-a-number result; `add_bits` names the sum with that payload
/// canonicalized. `bytemuck::cast` reinterprets each `u64` as a binary64
/// value, and `libm::copysign` of a value with its own sign is that value,
/// bit for bit — it only fixes the cast's target type.
#[verifier::external_body]
fn raw_add(a: u64, b: u64) -> (r: u64)
    ensures
        canon_bits(r) == add_bits(a, b),
{
    let x = libm::copysign(bytemuck::cast(a), bytemuck::cast(a));
    let y = libm::copysign(bytemuck::cast(b), bytemuck::cast(b));
    (x + y).to_bits()
}

/// Relies on `-` for IEEE-754 binary64 values, as `raw_add` relies on `+`.
#[verifier::external_body]
fn raw_sub(a: u64, b: u64) -> (r: u64)
    ensures
        canon_bits(r) == sub_bits(a, b),
{
    let x = libm::copysign(bytemuck::cast(a), bytemuck::cast(a));
    let y = libm::copysign(bytemuck::cast(b), bytemuck::cast(b));
    (x - y).to_bits()
}

/// Relies on `*` for IEEE-754 binary64 values, as `raw_add` relies on `+`.
#[verifier::external_body]
fn raw_mul(a: u64, b: u64) -> (r: u64)
    ensures
        canon_bits(r) == mul_bits(a, b),
{
    let x = libm::copysign(bytemuck::cast(a), bytemuck::cast(a));
    let y = libm::copysign(bytemuck::cast(b), bytemuck::cast(b));
    (x * y).to_bits()
}

/// Relies on `/` for IEEE-754 binary64 values, as `raw_add` relies on `+`.
#[verifier::external_body]
fn raw_div(a: u64, b: u64) -> (r: u64)
    ensures
        canon_bits(r) == div_bits(a, b),
{
    let x = libm::copysign(bytemuck::cast(a), bytemuck::cast(a));
    let y = libm::copysign(bytemuck::cast(b), bytemuck::cast(b));
    (x / y).to_bits()
}

/// Relies on `libm::exp`, a pure-Rust exponential whose result is a function
/// of the argument's bit pattern; the payload of a not-a-number result is
/// canonicalized as in `raw_add`.
#[verifier::external_body]
fn raw_exp(a: u64) -> (r: u64)
    ensures
        canon_bits(r) == exp_bits(a),
{
    libm::exp(libm::copysign(bytemuck::cast(a), bytemuck::cast(a))).to_bits()
}

/// Relies on `libm::log`, a pure-Rust natural logarithm whose result is a
/// function of the argument's bit pattern; the payload of a not-a-number
/// result is canonicalized as in `raw_add`.
#[verifier::external_body]
fn raw_ln(a: u64) -> (r: u64)
    ensures
        canon_bits(r) == ln_bits(a),
{
    libm::log(libm::copysign(bytemuck::cast(a), bytemuck::cast(a))).to_bits()
}

/// IEEE-754 binary64 addition on bit patterns, with not-a-number results
/// canonicalized so that equal inputs always give equal outputs.
pub fn fadd(a: u64, b: u64) -> (r: u64)
    ensures
        r == add_bits(a, b),
{
    canonicalize(raw_add(a, b))
}

/// IEEE-754 binary64 subtraction on bit patterns, canonicalized.
pub fn fsub(a: u64, b: u64) -> (r: u64)
    ensures
        r == sub_bits(a, b),
{
    canonicalize(raw_sub(a, b))
}

/// IEEE-754 binary64 multiplication on bit patterns, canonicalized.
pub fn fmul(a: u64, b: u64) -> (r: u64)
    ensures
        r == mul_bits(a, b),
{
    canonicalize(raw_mul(a, b))
}

/// IEEE-754 binary64 division on bit patterns, canonicalized.
pub fn fdiv(a: u64, b: u64) -> (r: u64)
    ensures
        r == div_bits(a, b),
{
    canonicalize(raw_div(a, b))
}

/// Natural exponential on bit patterns, canonicalized.
pub fn fexp(a: u64) -> (r: u64)
    ensures
        r == exp_bits(a),
{
    canonicalize(raw_exp(a))
}

/// Natural logarithm on bit patterns, canonicalized.
pub fn fln(a: u64) -> (r: u64)
    ensures
        r == ln_bits(a),
{
    canonicalize(raw_ln(a))
}

/// Relies on `<` for IEEE-754 binary64 values: an ordered comparison is fully
/// determined by the operand bit patterns.
#[verifier::external_body]
pub(crate) fn flt(a: u64, b: u64) -> (r: bool)
    ensures
        r == lt_bits(a, b),
{
    let x = libm::copysign(bytemuck::cast(a), bytemuck::cast(a));
    let y = libm::copysign(bytemuck::cast(b), bytemuck::cast(b));
    x < y
}

/// The rectified-linear activation on bit patterns: the argument where it is
/// strictly greater than zero, positive zero otherwise.
pub open spec fn relu_bits(x: u64) -> u64 {
    if lt_bits(POS_ZERO, x) {
        x
    } else {
        POS_ZERO
    }
}

/// Rectified-linear activation of one scalar.
pub fn frelu(x: u64) -> (r: u64)
    ensures
        r == relu_bits(x),
{
    if flt(POS_ZERO, x) {
        x
    } else {
        POS_ZERO
    }
}

#[verifier::external_type_specification]
#[verifier::external_body]
pub struct ExThreadRng(rand::rngs::ThreadRng);

/// Relies on `rand::thread_rng`: a handle to the thread-local random number
/// generator.
#[verifier::external_body]
pub(crate) fn fresh_rng() -> rand::rngs::ThreadRng {
    rand::thread_rng()
}

/// Relies on `rand::Rng::gen_range` over the half-open interval from -0.5 to
/// 0.5: every draw lies in that interval; nothing else holds of any one draw.
#[verifier::external_body]
pub(crate) fn sample_init(rng: &mut rand::rngs::ThreadRng) -> (r: u64)
    ensures
        in_init_range(r),
{
    let lo = libm::copysign(bytemuck::cast(NEG_HALF_BITS), bytemuck::cast(NEG_HALF_BITS));
    let hi = libm::copysign(bytemuck::cast(HALF_BITS), bytemuck::cast(HALF_BITS));
    rng.gen_range(lo..hi).to_bits()
}

} // verus!
