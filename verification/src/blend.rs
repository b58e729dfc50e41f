//! Alpha compositing of one pixel over another. The last channel of a pixel
//! is its opacity.

use vstd::prelude::*;
use vstd::arithmetic::div_mod::lemma_fundamental_div_mod_converse;
use crate::channel::StitchableType;

verus! {

/// The mix of a colour channel: `top` weighted by `alpha / max`, `bottom`
/// by the rest, rounded to the nearest whole number, a half upwards.
pub open spec fn mixed_level(top: nat, bottom: nat, alpha: nat, max: nat) -> int {
    let sum = top * alpha + bottom * (max - alpha);
    if 2 * (sum % (max as int)) >= max {
        sum / (max as int) + 1
    } else {
        sum / (max as int)
    }
}

/// A level, or `max` where the level is beyond it.
pub open spec fn clamped_level(level: int, max: nat) -> int {
    if level <= max {
        level
    } else {
        max as int
    }
}

/// Whether `result` is the pixel `top` composited over the pixel `bottom`.
///
/// Each colour channel is the mix of the two by the opacity of `top`. The
/// opacity of the result is not mixed: it is that of `top` where `top` is
/// more than half opaque, else that of `bottom`.
pub open spec fn is_blend<T: StitchableType>(result: Seq<T>, top: Seq<T>, bottom: Seq<T>) -> bool {
    let last = top.len() - 1;
    let alpha = top[last].level();
    &&& result.len() == top.len()
    &&& result[last] == (if 2 * alpha > T::max_level() {
        top[last]
    } else {
        bottom[last]
    })
    &&& forall|i: int|
        0 <= i < last ==> (#[trigger] result[i]).level() == clamped_level(
            mixed_level(top[i].level(), bottom[i].level(), alpha, T::max_level()),
            T::max_level(),
        )
}

/// A quotient is bounded as its numerator is.
proof fn lemma_quotient_bound(q: int, a: int, m: int)
    requires
        m > 0,
        q * m <= a * m,
    ensures
        q <= a,
{
    assert(q <= a) by (nonlinear_arith)
        requires
            m > 0,
            q * m <= a * m,
    ;
}

/// The product of two levels divided by the largest level: the quotient
/// and the remainder. No intermediate value exceeds the largest level.
fn weighted(level: u128, weight: u128, max: u128) -> (r: (u128, u128))
    requires
        0 < max,
        level <= max,
    ensures
        level * weight == r.0 * max + r.1,
        r.1 < max,
        r.0 <= weight,
    decreases weight,
{
    if weight == 0 {
        proof {
            assert(level * 0 == 0 * max + 0) by (nonlinear_arith);
        }
        return (0, 0);
    }
    let half: u128 = weight / 2;
    let (q1, r1) = weighted(level, half, max);
    let ghost product = level as int * weight as int;
    proof {
        assert(product == 2 * (level * half) + (weight % 2) * level) by (nonlinear_arith)
            requires
                product == level * weight,
                weight == 2 * half + weight % 2,
        ;
        assert(0 <= (weight % 2) * level) by (nonlinear_arith)
            requires
                0 <= weight % 2,
                0 <= level,
        ;
        assert(product <= weight * max) by (nonlinear_arith)
            requires
                product == level * weight,
                0 <= level <= max,
                0 <= weight,
        ;
    }
    let (q2, r2) = if r1 >= max - r1 {
        proof {
            assert((2 * q1 + 1) * max + (r1 - (max - r1)) == 2 * (q1 * max + r1))
                by (nonlinear_arith);
            assert(0 <= (2 * q1 + 1) * max) by (nonlinear_arith)
                requires
                    0 <= q1,
                    0 < max,
            ;
            lemma_quotient_bound(2 * q1 + 1, weight as int, max as int);
        }
        (2 * q1 + 1, r1 - (max - r1))
    } else {
        proof {
            assert((2 * q1) * max + (r1 + r1) == 2 * (q1 * max + r1)) by (nonlinear_arith);
        }
        (2 * q1, r1 + r1)
    };
    assert(2 * (level * half) == q2 * max + r2);
    proof {
        let odd = (weight % 2) as int;
        assert(odd * level == if odd == 1 { level as int } else { 0 }) by (nonlinear_arith)
            requires
                odd == 0 || odd == 1,
        ;
    }
    if weight % 2 == 1 {
        if r2 >= max - level {
            proof {
                assert((q2 + 1) * max + (r2 - (max - level)) == q2 * max + r2 + level)
                    by (nonlinear_arith);
                assert(0 <= (q2 + 1) * max) by (nonlinear_arith)
                    requires
                        0 <= q2,
                        0 < max,
                ;
                lemma_quotient_bound(q2 + 1, weight as int, max as int);
            }
            (q2 + 1, r2 - (max - level))
        } else {
            proof {
                assert(0 <= q2 * max) by (nonlinear_arith)
                    requires
                        0 <= q2,
                        0 < max,
                ;
                lemma_quotient_bound(q2 as int, weight as int, max as int);
            }
            (q2, r2 + level)
        }
    } else {
        proof {
            assert(0 <= q2 * max) by (nonlinear_arith)
                requires
                    0 <= q2,
                    0 < max,
            ;
            lemma_quotient_bound(q2 as int, weight as int, max as int);
        }
        (q2, r2)
    }
}

/// The mix of one colour channel, for an opacity `alpha` of the top pixel
/// out of `max`.
fn mix(top: u128, bottom: u128, alpha: u128, max: u128) -> (r: u128)
    requires
        0 < max,
        top <= max,
        bottom <= max,
        alpha <= max,
    ensures
        r == mixed_level(top as nat, bottom as nat, alpha as nat, max as nat),
        r <= max,
{
    let rest: u128 = max - alpha;
    let (q1, r1) = weighted(top, alpha, max);
    let (q2, r2) = weighted(bottom, rest, max);
    let ghost sum = top as int * alpha as int + bottom as int * rest as int;
    proof {
        assert(sum <= max * max) by (nonlinear_arith)
            requires
                sum == top * alpha + bottom * rest,
                0 <= top <= max,
                0 <= bottom <= max,
                0 <= alpha <= max,
                rest == max - alpha,
        ;
        assert(sum == (q1 + q2) * max + (r1 + r2)) by (nonlinear_arith)
            requires
                sum == top * alpha + bottom * rest,
                top * alpha == q1 * max + r1,
                bottom * rest == q2 * max + r2,
        ;
    }
    let (whole, part) = if r1 >= max - r2 {
        proof {
            assert(sum == (q1 + q2 + 1) * max + (r1 - (max - r2))) by (nonlinear_arith)
                requires
                    sum == (q1 + q2) * max + (r1 + r2),
            ;
        }
        (q1 + q2 + 1, r1 - (max - r2))
    } else {
        (q1 + q2, r1 + r2)
    };
    proof {
        lemma_fundamental_div_mod_converse(sum, max as int, whole as int, part as int);
        if part > 0 {
            assert(whole < max) by (nonlinear_arith)
                requires
                    sum == whole * max + part,
                    part > 0,
                    sum <= max * max,
                    max > 0,
            ;
        } else {
            lemma_quotient_bound(whole as int, max as int, max as int);
        }
    }
    if part >= max - part {
        whole + 1
    } else {
        whole
    }
}

/// Composites the pixel `top` over the pixel `bottom`.
pub fn blend<T: StitchableType>(top: &[T], bottom: &[T]) -> (r: Vec<T>)
    requires
        top@.len() >= 1,
        bottom@.len() == top@.len(),
    ensures
        is_blend(r@, top@, bottom@),
{
    let n: usize = top.len();
    let opacity: T = top[n - 1];
    let max: u128 = T::maxvalue().widen();
    let alpha: u128 = opacity.widen();
    proof {
        T::max_level_in_range();
        opacity.level_in_range();
    }
    let mut res: Vec<T> = Vec::with_capacity(n);
    let mut i: usize = 0;
    while i < n - 1
        invariant
            i <= n - 1,
            n == top@.len(),
            n == bottom@.len(),
            max == T::max_level(),
            alpha == top@[n - 1].level(),
            0 < max,
            alpha <= max,
            res@.len() == i,
            forall|k: int|
                0 <= k < i ==> (#[trigger] res@[k]).level() == clamped_level(
                    mixed_level(top@[k].level(), bottom@[k].level(), alpha as nat, max as nat),
                    max as nat,
                ),
        decreases n - 1 - i,
    {
        proof {
            top[i as int].level_in_range();
            bottom[i as int].level_in_range();
        }
        let mixed: u128 = mix(top[i].widen(), bottom[i].widen(), alpha, max);
        res.push(T::narrow(mixed));
        i += 1;
    }
    let opacity_out: T = if alpha > max - alpha {
        opacity
    } else {
        bottom[n - 1]
    };
    res.push(opacity_out);
    res
}

/// Compositing a pixel over itself gives the pixel back.
pub proof fn lemma_blend_of_same<T: StitchableType>(result: Seq<T>, pixel: Seq<T>)
    requires
        pixel.len() >= 1,
        is_blend(result, pixel, pixel),
    ensures
        result == pixel,
{
    let last = pixel.len() - 1;
    let max = T::max_level() as int;
    let alpha = pixel[last].level() as int;
    T::max_level_in_range();
    pixel[last].level_in_range();
    assert forall|i: int| 0 <= i < pixel.len() implies result[i] == pixel[i] by {
        if i < last {
            let level = pixel[i].level() as int;
            pixel[i].level_in_range();
            let sum = level * alpha + level * (max - alpha);
            assert(sum == level * max + 0) by (nonlinear_arith)
                requires
                    sum == level * alpha + level * (max - alpha),
            ;
            lemma_fundamental_div_mod_converse(sum, max, level, 0);
            assert(mixed_level(level as nat, level as nat, alpha as nat, max as nat) == level);
            result[i].level_is_exact(pixel[i]);
        }
    }
    assert(result =~= pixel);
}

/// A fully opaque pixel composited over any pixel gives the opaque pixel.
pub proof fn lemma_blend_opaque_top<T: StitchableType>(
    result: Seq<T>,
    top: Seq<T>,
    bottom: Seq<T>,
)
    requires
        top.len() >= 1,
        is_blend(result, top, bottom),
        top[top.len() - 1].level() == T::max_level(),
    ensures
        result == top,
{
    let last = top.len() - 1;
    let max = T::max_level() as int;
    T::max_level_in_range();
    assert forall|i: int| 0 <= i < top.len() implies result[i] == top[i] by {
        if i < last {
            let over = top[i].level() as int;
            let under = bottom[i].level() as int;
            top[i].level_in_range();
            let sum = over * max + under * (max - max);
            assert(sum == over * max + 0) by (nonlinear_arith)
                requires
                    sum == over * max + under * (max - max),
            ;
            lemma_fundamental_div_mod_converse(sum, max, over, 0);
            assert(mixed_level(over as nat, under as nat, max as nat, max as nat) == over);
            result[i].level_is_exact(top[i]);
        }
    }
    assert(result =~= top);
}

/// A fully clear pixel composited over a pixel leaves that pixel.
pub proof fn lemma_blend_clear_top<T: StitchableType>(
    result: Seq<T>,
    top: Seq<T>,
    bottom: Seq<T>,
)
    requires
        top.len() >= 1,
        bottom.len() == top.len(),
        is_blend(result, top, bottom),
        top[top.len() - 1].level() == 0,
    ensures
        result == bottom,
{
    let last = top.len() - 1;
    let max = T::max_level() as int;
    T::max_level_in_range();
    assert forall|i: int| 0 <= i < top.len() implies result[i] == bottom[i] by {
        if i < last {
            let over = top[i].level() as int;
            let under = bottom[i].level() as int;
            bottom[i].level_in_range();
            let sum = over * 0 + under * (max - 0);
            assert(sum == under * max + 0) by (nonlinear_arith)
                requires
                    sum == over * 0 + under * (max - 0),
            ;
            lemma_fundamental_div_mod_converse(sum, max, under, 0);
            assert(mixed_level(over as nat, under as nat, 0, max as nat) == under);
            result[i].level_is_exact(bottom[i]);
        }
    }
    assert(result =~= bottom);
}

} // verus!
