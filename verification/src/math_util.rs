//! Numbers that bound others.

use vstd::prelude::*;
use crate::scalar::{lemma_key_orders_values, Scalar};

verus! {

/// The largest finite number, (2^53 - 1) * 2^971.
pub fn infinite() -> (r: Scalar)
    ensures
        r.bits == 0x7fef_ffff_ffff_ffff,
        !r.is_nan() && !r.is_infinite(),
        forall|s: Scalar| !s.is_nan() && !s.is_infinite() ==> #[trigger] s.value() <= r.value(),
{
    let r = Scalar { bits: 0x7fef_ffff_ffff_ffff };
    proof {
        assert forall|s: Scalar| !s.is_nan() && !s.is_infinite() implies #[trigger] s.value()
            <= r.value() by {
            lemma_key_orders_values(s, r);
        }
    }
    r
}

/// `x` held to the interval from `min` to `max`: `min` where `x` is below it,
/// `max` where `x` is above it, else `x` itself, which is also what comes
/// back when `x` is not a number.
pub fn clamp(x: Scalar, min: Scalar, max: Scalar) -> (r: Scalar)
    ensures
        r == if x.less(min) {
            min
        } else if max.less(x) {
            max
        } else {
            x
        },
        !x.is_nan() && !min.is_nan() && !max.is_nan() && min.value() <= max.value()
            ==> min.value() <= r.value() <= max.value(),
{
    if x.lt(min) {
        min
    } else if x.gt(max) {
        max
    } else {
        x
    }
}

/// The smaller of two numbers; the other one where one of them is not a
/// number, and the first of two that are equal.
pub fn min(a: Scalar, b: Scalar) -> (r: Scalar)
    ensures
        r == if a.is_nan() {
            b
        } else if b.is_nan() {
            a
        } else if b.less(a) {
            b
        } else {
            a
        },
        !a.is_nan() && !b.is_nan() ==> r.value() <= a.value() && r.value() <= b.value(),
{
    if a.nan() {
        b
    } else if b.nan() {
        a
    } else if b.lt(a) {
        b
    } else {
        a
    }
}

} // verus!
