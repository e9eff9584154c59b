//! The per-pixel rule of the renderer: members of the set are black, every
//! other point takes its color from the gradient at its escape count.

use crate::escape::EscapeResult;
use crate::pixel::PixelColor;
use vstd::prelude::*;

verus! {

/// `color` is a pixel that the rule admits for `result` under `cap`.
pub open spec fn shaded<G: Fn(usize, usize) -> PixelColor>(
    result: EscapeResult,
    cap: usize,
    gradient: G,
    color: PixelColor,
) -> bool {
    match result {
        EscapeResult::Member => color == PixelColor::black_spec(),
        EscapeResult::Escaped(step) => call_ensures(gradient, (step, cap), color),
    }
}

/// Colors one point from its verdict.
///
/// A member is black and the gradient is not consulted. An escaped point is
/// whatever `gradient` returns for its escape count and the cap, the two
/// numbers whose quotient places the point along the palette; the count
/// handed over is always below the cap.
pub fn shade<G: Fn(usize, usize) -> PixelColor>(
    result: EscapeResult,
    cap: usize,
    gradient: G,
) -> (color: PixelColor)
    requires
        result.within(cap as nat),
        result matches EscapeResult::Escaped(step) ==> call_requires(gradient, (step, cap)),
    ensures
        shaded(result, cap, gradient, color),
{
    match result {
        EscapeResult::Member => PixelColor::black(),
        EscapeResult::Escaped(step) => gradient(step, cap),
    }
}

/// `gradient` gives each escape count under each cap one color only.
pub open spec fn gradient_is_a_function<G: Fn(usize, usize) -> PixelColor>(gradient: G) -> bool {
    forall|step: usize, cap: usize, one: PixelColor, other: PixelColor|
        #![trigger call_ensures(gradient, (step, cap), one), call_ensures(gradient, (step, cap), other)]
        call_ensures(gradient, (step, cap), one) && call_ensures(gradient, (step, cap), other)
            ==> one == other
}

/// Shading is repeatable: under a gradient that is a function, a verdict has
/// exactly one color, so shading the same point again gives the same pixel.
pub proof fn lemma_shaded_unique<G: Fn(usize, usize) -> PixelColor>(
    result: EscapeResult,
    cap: usize,
    gradient: G,
    one: PixelColor,
    other: PixelColor,
)
    requires
        gradient_is_a_function(gradient),
        shaded(result, cap, gradient, one),
        shaded(result, cap, gradient, other),
    ensures
        one == other,
{
}

} // verus!
