//! The numeric order of IEEE 754 binary64 encodings.
//!
//! A binary64 value is stored as a sign bit above 63 bits of magnitude. Among
//! the values that are numbers, a larger magnitude field means a larger
//! absolute value, so a signed integer made of the sign and the magnitude
//! field orders the encodings exactly as the values they stand for are
//! ordered. Both encodings of zero get the integer 0 and so compare equal, as
//! the values do. Magnitude fields above that of infinity encode no number.
//!
//! That the rank follows the value is proved here against the meaning that
//! the standard gives to the fields of a finite encoding: see
//! [`lemma_rank_orders_values`].

use vstd::arithmetic::power2::{
    lemma2_to64, lemma_pow2_pos, lemma_pow2_strictly_increases, lemma_pow2_unfold, pow2,
};
use vstd::prelude::*;

verus! {

/// The sign bit of a binary64 encoding.
pub const SIGN_BIT: u64 = 0x8000_0000_0000_0000;

/// The magnitude field of infinity, the largest that encodes a number.
pub const INFINITY_BITS: u64 = 0x7FF0_0000_0000_0000;

/// Whether the sign bit of `bits` is set.
pub open spec fn negative(bits: u64) -> bool {
    bits >= SIGN_BIT
}

/// The magnitude field of `bits`: the encoding without its sign bit.
pub open spec fn magnitude(bits: u64) -> int {
    if negative(bits) {
        bits - SIGN_BIT
    } else {
        bits as int
    }
}

/// Whether `bits` encodes a number: a zero, a finite value or an infinity.
pub open spec fn is_number(bits: u64) -> bool {
    magnitude(bits) <= INFINITY_BITS
}

/// The place of `bits` in the numeric order: the magnitude field, negated
/// where the sign bit is set. Meaningful where `is_number(bits)`.
pub open spec fn rank_of(bits: u64) -> int {
    if negative(bits) {
        -magnitude(bits)
    } else {
        magnitude(bits)
    }
}

/// Ranks a binary64 encoding, or tells that it encodes no number.
pub fn rank(bits: u64) -> (r: Option<i64>)
    ensures
        r is Some <==> is_number(bits),
        r matches Some(k) ==> k == rank_of(bits),
{
    let minus: bool = bits >= SIGN_BIT;
    let size: u64 = if minus {
        bits - SIGN_BIT
    } else {
        bits
    };
    if size > INFINITY_BITS {
        None
    } else if minus {
        Some(0 - (size as i64))
    } else {
        Some(size as i64)
    }
}

/// Two encodings have the same rank exactly when they are the same encoding
/// or are both zero: among numbers, ranks are equal where the values are.
pub proof fn lemma_rank_tells_apart(a: u64, b: u64)
    ensures
        rank_of(a) == rank_of(b) <==> (a == b || (magnitude(a) == 0 && magnitude(b) == 0)),
{
}

/// The number of values of the fraction field, the low 52 bits of the
/// magnitude field. The bits above it are the exponent field.
pub const FRACTION_SPAN: u64 = 0x0010_0000_0000_0000;

/// The exponent field of `bits`.
pub open spec fn exponent(bits: u64) -> int {
    magnitude(bits) / (FRACTION_SPAN as int)
}

/// The fraction field of `bits`.
pub open spec fn fraction(bits: u64) -> int {
    magnitude(bits) % (FRACTION_SPAN as int)
}

/// Whether `bits` encodes a finite value: a number that is no infinity.
pub open spec fn is_finite(bits: u64) -> bool {
    magnitude(bits) < INFINITY_BITS
}

/// The absolute value that a finite encoding stands for, as a multiple of
/// 2^-1074, the smallest positive value. With a zero exponent field the
/// value is subnormal and the fraction field counts those units. Otherwise
/// the value is `(1 + fraction / 2^52) * 2^(exponent - 1023)`, and that is
/// `(2^52 + fraction) * 2^(exponent - 1)` units.
pub open spec fn size_of(bits: u64) -> int {
    if exponent(bits) == 0 {
        fraction(bits)
    } else {
        (FRACTION_SPAN + fraction(bits)) * pow2((exponent(bits) - 1) as nat)
    }
}

/// The value that a finite encoding stands for, as a multiple of 2^-1074.
pub open spec fn value_of(bits: u64) -> int {
    if negative(bits) {
        -size_of(bits)
    } else {
        size_of(bits)
    }
}

/// A larger magnitude field stands for a larger absolute value.
proof fn lemma_size_grows(a: u64, b: u64)
    requires
        magnitude(a) < magnitude(b),
    ensures
        0 <= size_of(a) < size_of(b),
{
    let span = FRACTION_SPAN as int;
    let (ea, fa) = (exponent(a), fraction(a));
    let (eb, fb) = (exponent(b), fraction(b));
    assert(magnitude(a) == span * ea + fa && 0 <= fa < span && 0 <= ea);
    assert(magnitude(b) == span * eb + fb && 0 <= fb < span && 0 <= eb);
    assert(ea <= eb) by (nonlinear_arith)
        requires
            span * ea + fa < span * eb + fb,
            0 <= fa < span,
            0 <= fb < span,
    ;
    if ea > 0 {
        lemma_pow2_pos((ea - 1) as nat);
        assert(0 <= (span + fa) * pow2((ea - 1) as nat)) by (nonlinear_arith)
            requires
                0 <= span + fa,
                0 < pow2((ea - 1) as nat),
        ;
    }
    if ea == eb {
        if ea > 0 {
            let unit = pow2((ea - 1) as nat) as int;
            assert((span + fa) * unit < (span + fb) * unit) by (nonlinear_arith)
                requires
                    fa < fb,
                    0 < unit,
            ;
        }
    } else {
        // The value of `a` stays below 2^52 units of the binade that follows
        // its own, and no value of the binade of `b` is below that.
        let below: nat = if ea == 0 {
            0
        } else {
            ea as nat
        };
        let unit_b = pow2((eb - 1) as nat) as int;
        let unit = pow2(below) as int;
        assert(size_of(a) < span * unit) by {
            if ea == 0 {
                lemma2_to64();
            } else {
                lemma_pow2_unfold(ea as nat);
                let half = pow2((ea - 1) as nat) as int;
                assert((span + fa) * half < span * (2 * half)) by (nonlinear_arith)
                    requires
                        fa < span,
                        0 < half,
                ;
            }
        }
        assert(unit <= unit_b) by {
            if below < eb - 1 {
                lemma_pow2_strictly_increases(below, (eb - 1) as nat);
            }
        }
        assert(span * unit <= (span + fb) * unit_b) by (nonlinear_arith)
            requires
                0 <= unit <= unit_b,
                0 <= fb,
                0 < span,
        ;
    }
}

/// Only the two zeros stand for the value zero.
proof fn lemma_size_of_zero(bits: u64)
    ensures
        0 <= size_of(bits),
        size_of(bits) == 0 <==> magnitude(bits) == 0,
{
    if magnitude(bits) > 0 {
        lemma_size_grows(0, bits);
    }
}

/// The rank orders finite encodings exactly as the values that they stand
/// for are ordered, and two of them have the same rank exactly when they
/// stand for the same value.
pub proof fn lemma_rank_orders_values(a: u64, b: u64)
    requires
        is_finite(a),
        is_finite(b),
    ensures
        rank_of(a) < rank_of(b) <==> value_of(a) < value_of(b),
        rank_of(a) == rank_of(b) <==> value_of(a) == value_of(b),
{
    lemma_size_of_zero(a);
    lemma_size_of_zero(b);
    if magnitude(a) < magnitude(b) {
        lemma_size_grows(a, b);
    }
    if magnitude(b) < magnitude(a) {
        lemma_size_grows(b, a);
    }
}

/// Every number that is not finite is an infinity, and the ranks of the two
/// infinities enclose the ranks of all finite encodings.
pub proof fn lemma_infinities_enclose(bits: u64)
    requires
        is_number(bits),
    ensures
        is_finite(bits) ==> -INFINITY_BITS < rank_of(bits) < INFINITY_BITS,
        !is_finite(bits) ==> rank_of(bits) == if negative(bits) {
            -INFINITY_BITS
        } else {
            INFINITY_BITS as int
        },
{
}

} // verus!
