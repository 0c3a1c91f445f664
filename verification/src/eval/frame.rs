//! A rendered frame's vocabulary: the gradient kinds and fill rules, and how
//! the frame dump names them.

use vstd::prelude::*;

verus! {

/// Which way a gradient runs.
#[derive(Clone, Copy, PartialEq, Eq, Structural, Debug)]
pub enum GradientKind {
    Linear,
    Radial,
}

/// Which points a fill covers.
#[derive(Clone, Copy, PartialEq, Eq, Structural, Debug)]
pub enum FillRule {
    NonZero,
    EvenOdd,
}

/// A gradient kind as the frame dump writes it.
pub fn fmt_kind(k: GradientKind) -> (r: &'static str)
    ensures
        r@ == match k {
            GradientKind::Linear => "linear"@,
            GradientKind::Radial => "radial"@,
        },
{
    match k {
        GradientKind::Linear => "linear",
        GradientKind::Radial => "radial",
    }
}

/// A fill rule as the frame dump writes it.
pub fn fmt_rule(r: FillRule) -> (s: &'static str)
    ensures
        s@ == match r {
            FillRule::NonZero => "nonzero"@,
            FillRule::EvenOdd => "evenodd"@,
        },
{
    match r {
        FillRule::NonZero => "nonzero",
        FillRule::EvenOdd => "evenodd",
    }
}

} // verus!
