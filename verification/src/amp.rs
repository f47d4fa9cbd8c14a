//! Complex amplitudes, stored as IEEE-754 bit patterns.
//!
//! The engine keeps every amplitude as the bit patterns of its real and
//! imaginary parts, so the verified code moves, stores and compares plain
//! `u64` values and every structural property of the engine (which cell
//! holds which amplitude) is proved exactly. The floating-point arithmetic
//! itself is delegated to `num_complex` and to std behind small trusted
//! wrappers; each wrapper's non-NaN result is pinned by an uninterpreted
//! function of its arguments — the bit pattern of a NaN produced by
//! arithmetic is not determined by the operands, so nothing is claimed
//! of one — and contracts downstream state which arithmetic combination
//! every non-NaN cell holds.

use vstd::prelude::*;
use num_complex::Complex64;
use core::primitive::f64 as Double;

verus! {

/// One complex amplitude: `(bits of real part, bits of imaginary part)`.
pub type Amp = (u64, u64);

/// Bits of `0.0`.
pub const ZERO_BITS: u64 = 0;

/// Bits of `1.0`.
pub const ONE_BITS: u64 = 0x3FF0_0000_0000_0000;

/// Bits of `-1.0`.
pub const NEG_ONE_BITS: u64 = 0xBFF0_0000_0000_0000;

/// Bits of `0.5`.
pub const HALF_BITS: u64 = 0x3FE0_0000_0000_0000;

/// Bits of `sqrt(0.5)`, the rounding of `1/sqrt(2)` that `f64::sqrt` returns.
pub const SQRT_HALF_BITS: u64 = 0x3FE6_A09E_667F_3BCD;

/// Bits of `-sqrt(0.5)`.
pub const NEG_SQRT_HALF_BITS: u64 = 0xBFE6_A09E_667F_3BCD;

/// Bits of `+infinity`; every nonnegative non-NaN double is at or below it.
pub const INF_BITS: u64 = 0x7FF0_0000_0000_0000;

/// The sign bit; patterns below it are the nonnegative doubles and NaNs
/// with a clear sign.
pub const SIGN_BIT: u64 = 0x8000_0000_0000_0000;

/// Everything but the sign bit.
pub const MAG_MASK: u64 = 0x7FFF_FFFF_FFFF_FFFF;

/// The amplitude `0 + 0i`.
pub const AMP_ZERO: Amp = (ZERO_BITS, ZERO_BITS);

/// The amplitude `1 + 0i`.
pub const AMP_ONE: Amp = (ONE_BITS, ZERO_BITS);

/// The amplitude `-1 + 0i`.
pub const AMP_NEG_ONE: Amp = (NEG_ONE_BITS, ZERO_BITS);

/// Whether a double's bit pattern is not a NaN: its magnitude is at or
/// below the infinity pattern. Arithmetic on NaNs may change their
/// payloads, so the exactness clauses below stay away from them.
pub open spec fn finite_bits(x: u64) -> bool {
    (x & MAG_MASK) <= INF_BITS
}

/// Whether both of an amplitude's components are non-NaN.
pub open spec fn amp_finite(a: Amp) -> bool {
    finite_bits(a.0) && finite_bits(a.1)
}

pub uninterp spec fn c_add(a: Amp, b: Amp) -> Amp;

pub uninterp spec fn c_mul(a: Amp, b: Amp) -> Amp;

pub uninterp spec fn c_conj(a: Amp) -> Amp;

pub uninterp spec fn c_norm_sqr(a: Amp) -> u64;

pub uninterp spec fn c_scale(a: Amp, s: u64) -> Amp;

pub uninterp spec fn c_unscale(a: Amp, s: u64) -> Amp;

pub uninterp spec fn f_add(x: u64, y: u64) -> u64;

pub uninterp spec fn f_sub(x: u64, y: u64) -> u64;

pub uninterp spec fn f_mul(x: u64, y: u64) -> u64;

pub uninterp spec fn f_lt(x: u64, y: u64) -> bool;

pub uninterp spec fn f_sqrt(x: u64) -> u64;

pub uninterp spec fn f_le(x: u64, y: u64) -> bool;

/// Relies on `num_complex`'s `Add` for `Complex64`. A non-NaN result is
/// determined by the operand bits alone (and forces non-NaN operands,
/// since a NaN propagates); a NaN result's payload is not, so nothing
/// is pinned of it. Sums of the exact constants `0 + 0i` and `1 + 0i`
/// are exact in IEEE-754.
#[verifier::external_body]
pub(crate) fn amp_add(a: Amp, b: Amp) -> (r: Amp)
    ensures
        amp_finite(r) ==> r == c_add(a, b) && amp_finite(a) && amp_finite(b),
        a == AMP_ZERO && b == AMP_ZERO ==> r == AMP_ZERO,
        a == AMP_ZERO && b == AMP_ONE ==> r == AMP_ONE,
        a == AMP_ONE && b == AMP_ZERO ==> r == AMP_ONE,
{
    let x = Complex64::new(Double::from_bits(a.0), Double::from_bits(a.1));
    let y = Complex64::new(Double::from_bits(b.0), Double::from_bits(b.1));
    let z = x + y;
    (z.re.to_bits(), z.im.to_bits())
}

/// Relies on `num_complex`'s `Mul` for `Complex64`. A non-NaN result is
/// determined by the operand bits alone (and forces non-NaN operands);
/// a NaN result's payload is not pinned. Products of the exact
/// constants `0 + 0i` and `1 + 0i` (also with a negative-zero imaginary
/// part, as conjugation leaves them) are exact, signed zeros included.
#[verifier::external_body]
pub(crate) fn amp_mul(a: Amp, b: Amp) -> (r: Amp)
    ensures
        amp_finite(r) ==> r == c_mul(a, b) && amp_finite(a) && amp_finite(b),
        a == AMP_ONE && b == AMP_ONE ==> r == AMP_ONE,
        a == AMP_ONE && b == AMP_ZERO ==> r == AMP_ZERO,
        a == AMP_ZERO && b == AMP_ONE ==> r == AMP_ZERO,
        a == AMP_ZERO && b == AMP_ZERO ==> r == AMP_ZERO,
        a == AMP_ONE && b == (ONE_BITS, SIGN_BIT) ==> r == AMP_ONE,
        a == AMP_ONE && b == (ZERO_BITS, SIGN_BIT) ==> r == AMP_ZERO,
        a == AMP_ZERO && b == (ONE_BITS, SIGN_BIT) ==> r == AMP_ZERO,
        a == AMP_ZERO && b == (ZERO_BITS, SIGN_BIT) ==> r == AMP_ZERO,
{
    let x = Complex64::new(Double::from_bits(a.0), Double::from_bits(a.1));
    let y = Complex64::new(Double::from_bits(b.0), Double::from_bits(b.1));
    let z = x * y;
    (z.re.to_bits(), z.im.to_bits())
}

/// Relies on `Complex64::conj`: it returns `re - i im`, which depends on
/// the operand alone; conjugating the exact constants `0 + 0i` and
/// `1 + 0i` negates their zero imaginary part to a negative zero.
#[verifier::external_body]
pub(crate) fn amp_conj(a: Amp) -> (r: Amp)
    ensures
        r == c_conj(a),
        a == AMP_ONE ==> r == (ONE_BITS, SIGN_BIT),
        a == AMP_ZERO ==> r == (ZERO_BITS, SIGN_BIT),
{
    let x = Complex64::new(Double::from_bits(a.0), Double::from_bits(a.1));
    let z = x.conj();
    (z.re.to_bits(), z.im.to_bits())
}

/// Relies on `Complex64::norm_sqr` (`re*re + im*im`). A non-NaN result
/// is determined by the operand bits alone (and forces a non-NaN
/// operand); a non-NaN operand always yields a nonnegative non-NaN sum
/// of squares. On `0 + 0i` the result is exactly `0.0`, on `1 + 0i`
/// exactly `1.0`.
#[verifier::external_body]
pub(crate) fn amp_norm_sqr(a: Amp) -> (r: u64)
    ensures
        finite_bits(r) ==> r == c_norm_sqr(a) && amp_finite(a),
        amp_finite(a) ==> r <= INF_BITS,
        a == AMP_ZERO ==> r == ZERO_BITS,
        a == AMP_ONE ==> r == ONE_BITS,
{
    let x = Complex64::new(Double::from_bits(a.0), Double::from_bits(a.1));
    x.norm_sqr().to_bits()
}

/// Relies on `num_complex`'s `Mul<f64>` for `Complex64` (scales both
/// parts). A non-NaN result is determined by the operand bits alone
/// (and forces non-NaN operands); a NaN result's payload is not pinned.
#[verifier::external_body]
pub(crate) fn amp_scale(a: Amp, s: u64) -> (r: Amp)
    ensures
        amp_finite(r) ==> r == c_scale(a, s) && amp_finite(a) && finite_bits(s),
{
    let x = Complex64::new(Double::from_bits(a.0), Double::from_bits(a.1));
    let z = x * Double::from_bits(s);
    (z.re.to_bits(), z.im.to_bits())
}

/// Relies on `num_complex`'s `Div<f64>` for `Complex64` (divides both
/// parts). A non-NaN result is determined by the operand bits alone
/// (and forces non-NaN operands); a NaN result's payload is not pinned.
/// Dividing a non-NaN amplitude by `1.0` is the exact identity.
/// Division by zero yields infinities or NaNs, never a panic.
#[verifier::external_body]
pub(crate) fn amp_unscale(a: Amp, s: u64) -> (r: Amp)
    ensures
        amp_finite(r) ==> r == c_unscale(a, s) && amp_finite(a) && finite_bits(s),
        s == ONE_BITS && amp_finite(a) ==> r == a,
{
    let x = Complex64::new(Double::from_bits(a.0), Double::from_bits(a.1));
    let z = x / Double::from_bits(s);
    (z.re.to_bits(), z.im.to_bits())
}

/// Relies on IEEE-754 `f64` addition. A non-NaN result is determined by
/// the operand bits alone (and forces non-NaN operands); a NaN result's
/// payload is not pinned. Adding `0.0` to a nonnegative non-NaN double
/// is exact on either side, and the nonnegative non-NaN doubles are
/// closed under addition.
#[verifier::external_body]
pub(crate) fn float_add(x: u64, y: u64) -> (r: u64)
    ensures
        finite_bits(r) ==> r == f_add(x, y) && finite_bits(x) && finite_bits(y),
        x <= INF_BITS && y <= INF_BITS ==> r <= INF_BITS,
        x == ZERO_BITS && y <= INF_BITS ==> r == y,
        y == ZERO_BITS && x <= INF_BITS ==> r == x,
{
    (Double::from_bits(x) + Double::from_bits(y)).to_bits()
}

/// Relies on IEEE-754 `f64` subtraction. A non-NaN result is determined
/// by the operand bits alone (and forces non-NaN operands); a NaN
/// result's payload is not pinned. `1.0 - 0.0` is exactly `1.0`, and
/// `1.0 - 1.0` is exactly `0.0`.
#[verifier::external_body]
pub(crate) fn float_sub(x: u64, y: u64) -> (r: u64)
    ensures
        finite_bits(r) ==> r == f_sub(x, y) && finite_bits(x) && finite_bits(y),
        x == ONE_BITS && y == ZERO_BITS ==> r == ONE_BITS,
        x == ONE_BITS && y == ONE_BITS ==> r == ZERO_BITS,
{
    (Double::from_bits(x) - Double::from_bits(y)).to_bits()
}

/// Relies on IEEE-754 `f64` multiplication. A non-NaN result is
/// determined by the operand bits alone (and forces non-NaN operands);
/// a NaN result's payload is not pinned.
#[verifier::external_body]
pub(crate) fn float_mul(x: u64, y: u64) -> (r: u64)
    ensures
        finite_bits(r) ==> r == f_mul(x, y) && finite_bits(x) && finite_bits(y),
{
    (Double::from_bits(x) * Double::from_bits(y)).to_bits()
}

/// Relies on IEEE-754 `f64` comparison `<`: it depends on the operands
/// alone; `x < x` is false for every double (NaN included); no double
/// with a clear sign bit is below `+0.0`; on nonnegative non-NaN
/// operands `<` coincides with the bit-pattern order; and a nonpositive
/// non-NaN is below a nonnegative non-NaN unless both are zeros.
#[verifier::external_body]
pub(crate) fn float_lt(x: u64, y: u64) -> (r: bool)
    ensures
        r == f_lt(x, y),
        x == y ==> r == false,
        y == ZERO_BITS && x < SIGN_BIT ==> r == false,
        !finite_bits(x) || !finite_bits(y) ==> r == false,
        x <= INF_BITS && y <= INF_BITS ==> r == (x < y),
        x >= SIGN_BIT && finite_bits(x) && y <= INF_BITS ==> r == !((x & MAG_MASK) == 0 && y
            == ZERO_BITS),
{
    Double::from_bits(x) < Double::from_bits(y)
}

/// Relies on IEEE-754 `f64` comparison `<=`: it depends on the operands
/// alone; it holds between equal non-NaN operands, from `+0.0` up to any
/// nonnegative non-NaN, and never of a NaN operand.
#[verifier::external_body]
pub(crate) fn float_le(x: u64, y: u64) -> (r: bool)
    ensures
        r == f_le(x, y),
        x == y && finite_bits(x) ==> r == true,
        x == ZERO_BITS && y <= INF_BITS ==> r == true,
        !finite_bits(x) || !finite_bits(y) ==> r == false,
{
    Double::from_bits(x) <= Double::from_bits(y)
}

/// Relies on `f64::sqrt`. A non-NaN root is determined by the operand
/// bits alone (and forces a non-NaN operand); negative operands give a
/// NaN whose payload is not pinned, never a panic. The root of `1.0` is
/// exactly `1.0`.
#[verifier::external_body]
pub(crate) fn float_sqrt(x: u64) -> (r: u64)
    ensures
        finite_bits(r) ==> r == f_sqrt(x) && finite_bits(x),
        x == ONE_BITS ==> r == ONE_BITS,
{
    Double::from_bits(x).sqrt().to_bits()
}

/// Relies on `f64::sin`. Its precision is documented as platform
/// dependent and possibly varying between invocations, so nothing is
/// promised of the outcome; callers carry the drawn value itself.
#[verifier::external_body]
pub(crate) fn float_sin(x: u64) -> u64 {
    Double::from_bits(x).sin().to_bits()
}

/// Relies on `f64::cos`. Its precision is documented as platform
/// dependent and possibly varying between invocations, so nothing is
/// promised of the outcome; callers carry the drawn value itself.
#[verifier::external_body]
pub(crate) fn float_cos(x: u64) -> u64 {
    Double::from_bits(x).cos().to_bits()
}

/// Relies on `rand::random::<f64>()`, which samples the standard uniform
/// distribution on `[0, 1)`: every outcome is a nonnegative double below
/// `1.0`, so its bit pattern is below `1.0`'s and the comparisons with the
/// interval's ends are fixed. Nothing more is promised of the outcome.
#[verifier::external_body]
pub(crate) fn random_unit() -> (r: u64)
    ensures
        r < ONE_BITS,
        f_lt(r, ONE_BITS) == true,
        f_lt(r, ZERO_BITS) == false,
{
    rand::random::<Double>().to_bits()
}

/// The pinned values of the named operations on the exact constants,
/// re-exported from the trusted wrappers' clauses by performing each
/// operation once: a verified caller calls this to reason about
/// amplitudes it knows exactly.
pub fn amp_constant_facts()
    ensures
        c_mul(AMP_ONE, AMP_ONE) == AMP_ONE,
        c_mul(AMP_ONE, AMP_ZERO) == AMP_ZERO,
        c_mul(AMP_ZERO, AMP_ONE) == AMP_ZERO,
        c_mul(AMP_ZERO, AMP_ZERO) == AMP_ZERO,
        c_mul(AMP_ONE, (ONE_BITS, SIGN_BIT)) == AMP_ONE,
        c_mul(AMP_ONE, (ZERO_BITS, SIGN_BIT)) == AMP_ZERO,
        c_mul(AMP_ZERO, (ONE_BITS, SIGN_BIT)) == AMP_ZERO,
        c_mul(AMP_ZERO, (ZERO_BITS, SIGN_BIT)) == AMP_ZERO,
        c_add(AMP_ZERO, AMP_ZERO) == AMP_ZERO,
        c_add(AMP_ZERO, AMP_ONE) == AMP_ONE,
        c_add(AMP_ONE, AMP_ZERO) == AMP_ONE,
        c_conj(AMP_ONE) == (ONE_BITS, SIGN_BIT),
        c_conj(AMP_ZERO) == (ZERO_BITS, SIGN_BIT),
        c_norm_sqr(AMP_ZERO) == ZERO_BITS,
        c_norm_sqr(AMP_ONE) == ONE_BITS,
        f_lt(ZERO_BITS, ONE_BITS) == true,
        f_lt(ONE_BITS, ZERO_BITS) == false,
        f_lt(ZERO_BITS, ZERO_BITS) == false,
        f_lt(ONE_BITS, ONE_BITS) == false,
        f_add(ZERO_BITS, ZERO_BITS) == ZERO_BITS,
        f_add(ZERO_BITS, ONE_BITS) == ONE_BITS,
        f_sub(ONE_BITS, ZERO_BITS) == ONE_BITS,
        f_sub(ONE_BITS, ONE_BITS) == ZERO_BITS,
        f_sqrt(ONE_BITS) == ONE_BITS,
        c_unscale(AMP_ZERO, ONE_BITS) == AMP_ZERO,
        c_unscale(AMP_ONE, ONE_BITS) == AMP_ONE,
        amp_finite(AMP_ZERO),
        amp_finite(AMP_ONE),
{
    proof {
        assert((ONE_BITS & MAG_MASK) == ONE_BITS && (ZERO_BITS & MAG_MASK) == ZERO_BITS)
            by (bit_vector);
    }
    let _ = amp_mul(AMP_ONE, AMP_ONE);
    let _ = amp_mul(AMP_ONE, AMP_ZERO);
    let _ = amp_mul(AMP_ZERO, AMP_ONE);
    let _ = amp_mul(AMP_ZERO, AMP_ZERO);
    let _ = amp_mul(AMP_ONE, (ONE_BITS, SIGN_BIT));
    let _ = amp_mul(AMP_ONE, (ZERO_BITS, SIGN_BIT));
    let _ = amp_mul(AMP_ZERO, (ONE_BITS, SIGN_BIT));
    let _ = amp_mul(AMP_ZERO, (ZERO_BITS, SIGN_BIT));
    let _ = amp_add(AMP_ZERO, AMP_ZERO);
    let _ = amp_add(AMP_ZERO, AMP_ONE);
    let _ = amp_add(AMP_ONE, AMP_ZERO);
    let _ = amp_conj(AMP_ONE);
    let _ = amp_conj(AMP_ZERO);
    let _ = amp_norm_sqr(AMP_ZERO);
    let _ = amp_norm_sqr(AMP_ONE);
    let _ = float_lt(ZERO_BITS, ONE_BITS);
    let _ = float_lt(ONE_BITS, ZERO_BITS);
    let _ = float_lt(ZERO_BITS, ZERO_BITS);
    let _ = float_lt(ONE_BITS, ONE_BITS);
    let _ = float_add(ZERO_BITS, ZERO_BITS);
    let _ = float_add(ZERO_BITS, ONE_BITS);
    let _ = float_sub(ONE_BITS, ZERO_BITS);
    let _ = float_sub(ONE_BITS, ONE_BITS);
    let _ = float_sqrt(ONE_BITS);
    let _ = amp_unscale(AMP_ZERO, ONE_BITS);
    let _ = amp_unscale(AMP_ONE, ONE_BITS);
}

/// Clamp a probability to `[0.0, 1.0]`, as `f64::clamp` does on that
/// interval: below `0.0` gives `0.0`, above `1.0` gives `1.0` (a NaN stays
/// as it is, as with `f64::clamp`).
pub open spec fn spec_clamp01(x: u64) -> u64 {
    if f_lt(x, ZERO_BITS) {
        ZERO_BITS
    } else if f_lt(ONE_BITS, x) {
        ONE_BITS
    } else {
        x
    }
}

/// Executable clamp to `[0.0, 1.0]` over the comparison wrapper; exact
/// on the interval's ends, NaN-preserving, and bounded by `1.0`'s bits
/// for every nonnegative non-NaN input.
pub fn clamp01(x: u64) -> (r: u64)
    ensures
        r == spec_clamp01(x),
        x == ZERO_BITS ==> r == ZERO_BITS,
        x == ONE_BITS ==> r == ONE_BITS,
        finite_bits(r) ==> finite_bits(x),
        x <= INF_BITS ==> r <= ONE_BITS,
{
    if float_lt(x, ZERO_BITS) {
        ZERO_BITS
    } else if float_lt(ONE_BITS, x) {
        ONE_BITS
    } else {
        x
    }
}

/// Negate a double exactly by flipping its sign bit; IEEE-754 negation is
/// a pure bit operation, so no trust is needed.
pub fn float_neg(x: u64) -> (r: u64)
    ensures
        r == (x ^ SIGN_BIT),
{
    x ^ SIGN_BIT
}

} // verus!
