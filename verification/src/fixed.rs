//! Fixed-point arithmetic: values are `i64` counts of thousandths.

use vstd::prelude::*;

verus! {

/// The real value 1.0: one thousand thousandths.
pub const ONE: i64 = 1000;

/// Magnitude of a mathematical integer.
pub open spec fn mag(x: int) -> int {
    if x >= 0 {
        x
    } else {
        -x
    }
}

/// Division by 1000 that rounds toward zero, as the scaling step of a
/// fixed-point product does.
pub open spec fn tdiv_one(p: int) -> int {
    if p >= 0 {
        p / 1000
    } else {
        -((-p) / 1000)
    }
}

/// Division by 10 that rounds toward zero, as the mutation blend does.
pub open spec fn tdiv_ten(p: int) -> int {
    if p >= 0 {
        p / 10
    } else {
        -((-p) / 10)
    }
}

/// The fixed-point product of two values in thousandths.
pub open spec fn scaled(x: int, w: int) -> int {
    tdiv_one(x * w)
}

/// Whether a fixed-point value lies in the closed real interval [-1.0, 1.0].
pub open spec fn in_unit(x: i64) -> bool {
    -1000 <= x <= 1000
}

/// Whether every element of a sequence lies in [-1.0, 1.0].
pub open spec fn all_in_unit(s: Seq<i64>) -> bool {
    forall|i: int| 0 <= i < s.len() ==> in_unit(#[trigger] s[i])
}

/// Multiplies two fixed-point values in [-1.0, 1.0]; the result is again in
/// [-1.0, 1.0].
pub fn scaled_mul(x: i64, w: i64) -> (r: i64)
    requires
        in_unit(x),
        in_unit(w),
    ensures
        r == scaled(x as int, w as int),
        in_unit(r),
{
    proof {
        assert(-1000000 <= x * w <= 1000000) by (nonlinear_arith)
            requires
                -1000 <= x <= 1000,
                -1000 <= w <= 1000,
        ;
    }
    let p: i64 = x * w;
    if p >= 0 {
        p / 1000
    } else {
        -((-p) / 1000)
    }
}

} // verus!
