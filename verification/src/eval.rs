//! Evaluating the wire format at a frame: the vocabulary of the rendered
//! frame that does not depend on a number.

pub mod frame;

use vstd::prelude::*;
use crate::eval::frame::{FillRule, GradientKind};

verus! {

/// The kind of gradient a wire gradient type names: 2 is radial, anything
/// else linear.
pub fn gradient_kind(gk: u8) -> (r: GradientKind)
    ensures
        r == (if gk == 2 { GradientKind::Radial } else { GradientKind::Linear }),
{
    if gk == 2 {
        GradientKind::Radial
    } else {
        GradientKind::Linear
    }
}

/// The fill rule a wire fill-rule number names: 2 is even-odd, anything else
/// non-zero.
pub fn fill_rule(fr: u8) -> (r: FillRule)
    ensures
        r == (if fr == 2 { FillRule::EvenOdd } else { FillRule::NonZero }),
{
    if fr == 2 {
        FillRule::EvenOdd
    } else {
        FillRule::NonZero
    }
}

} // verus!
