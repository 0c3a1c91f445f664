//! Runtime capabilities: the features of the runtime an animation reaches.
//!
//! A set of named bits. The planner computes one per scene, and the bundler
//! cuts the runtime down to what the set names. Sets combine with `|` and
//! subtract with `& !`; [`has`] asks whether one set holds another.

use vstd::prelude::*;

verus! {

/// A set of runtime capabilities, one bit per feature.
pub type Caps = u64;

/// The empty set.
pub const NONE: Caps = 0;

pub const TRANSFORM: Caps = 0x1;
pub const TRANSLATE: Caps = 0x2;
pub const OPACITY: Caps = 0x4;
pub const DISPLAY: Caps = 0x8;
pub const SHAPE: Caps = 0x10;
pub const RECT: Caps = 0x20;
pub const ELLIPSE: Caps = 0x40;
pub const FILL: Caps = 0x80;
pub const STROKE: Caps = 0x100;
pub const GRADIENT: Caps = 0x200;
pub const LAYER_TX: Caps = 0x400;
pub const LAYER_OP: Caps = 0x800;
pub const KEYFRAMES: Caps = 0x1000;
pub const EASING: Caps = 0x2000;
pub const SPATIAL: Caps = 0x4000;
pub const PATH_KF: Caps = 0x8000;
pub const HOLD: Caps = 0x10000;
pub const GEOM_RECT: Caps = 0x20000;
pub const GEOM_ELLIPSE: Caps = 0x40000;
pub const GEOM_STAR: Caps = 0x80000;
pub const PATH_D: Caps = 0x100000;
pub const TRIM: Caps = 0x200000;
pub const TRIM_CHAIN: Caps = 0x400000;
pub const DASH: Caps = 0x800000;
pub const TRANSFORM_SKEW: Caps = 0x1000000;
pub const SHAPE_MULTI: Caps = 0x2000000;
pub const TIMELINE: Caps = 0x4000000;
pub const TIME_REMAP: Caps = 0x8000000;
pub const TEMPLATES: Caps = 0x10000000;
pub const INSTANCES: Caps = 0x20000000;
pub const EXTRACTED: Caps = 0x40000000;
pub const EXPRESSIONS: Caps = 0x80000000;
pub const EXPR_PROPERTY: Caps = 0x100000000;
pub const EXPR_COMP: Caps = 0x200000000;
pub const EXPR_PATH: Caps = 0x400000000;
pub const RAMP: Caps = 0x800000000;
pub const FX: Caps = 0x1000000000;

/// Every named capability.
pub const ALL: Caps = 0x1fffffffff;

/// Whether every capability of `other` is in `caps`.
pub open spec fn spec_has(caps: Caps, other: Caps) -> bool {
    caps & other == other
}

/// Whether every capability of `other` is in `caps`.
#[verifier::when_used_as_spec(spec_has)]
pub fn has(caps: Caps, other: Caps) -> (r: bool)
    ensures
        r == spec_has(caps, other),
{
    caps & other == other
}

/// Number of named capabilities.
pub const FLAG_COUNT: usize = 37;

/// The bit of the `i`-th named capability, in bit order.
pub open spec fn flag_value(i: int) -> Caps {
    if i == 0 { TRANSFORM }
    else if i == 1 { TRANSLATE }
    else if i == 2 { OPACITY }
    else if i == 3 { DISPLAY }
    else if i == 4 { SHAPE }
    else if i == 5 { RECT }
    else if i == 6 { ELLIPSE }
    else if i == 7 { FILL }
    else if i == 8 { STROKE }
    else if i == 9 { GRADIENT }
    else if i == 10 { LAYER_TX }
    else if i == 11 { LAYER_OP }
    else if i == 12 { KEYFRAMES }
    else if i == 13 { EASING }
    else if i == 14 { SPATIAL }
    else if i == 15 { PATH_KF }
    else if i == 16 { HOLD }
    else if i == 17 { GEOM_RECT }
    else if i == 18 { GEOM_ELLIPSE }
    else if i == 19 { GEOM_STAR }
    else if i == 20 { PATH_D }
    else if i == 21 { TRIM }
    else if i == 22 { TRIM_CHAIN }
    else if i == 23 { DASH }
    else if i == 24 { TRANSFORM_SKEW }
    else if i == 25 { SHAPE_MULTI }
    else if i == 26 { TIMELINE }
    else if i == 27 { TIME_REMAP }
    else if i == 28 { TEMPLATES }
    else if i == 29 { INSTANCES }
    else if i == 30 { EXTRACTED }
    else if i == 31 { EXPRESSIONS }
    else if i == 32 { EXPR_PROPERTY }
    else if i == 33 { EXPR_COMP }
    else if i == 34 { EXPR_PATH }
    else if i == 35 { RAMP }
    else { FX }
}

/// The name of the `i`-th named capability, in bit order.
pub open spec fn flag_name(i: int) -> Seq<char> {
    if i == 0 { "TRANSFORM"@ }
    else if i == 1 { "TRANSLATE"@ }
    else if i == 2 { "OPACITY"@ }
    else if i == 3 { "DISPLAY"@ }
    else if i == 4 { "SHAPE"@ }
    else if i == 5 { "RECT"@ }
    else if i == 6 { "ELLIPSE"@ }
    else if i == 7 { "FILL"@ }
    else if i == 8 { "STROKE"@ }
    else if i == 9 { "GRADIENT"@ }
    else if i == 10 { "LAYER_TX"@ }
    else if i == 11 { "LAYER_OP"@ }
    else if i == 12 { "KEYFRAMES"@ }
    else if i == 13 { "EASING"@ }
    else if i == 14 { "SPATIAL"@ }
    else if i == 15 { "PATH_KF"@ }
    else if i == 16 { "HOLD"@ }
    else if i == 17 { "GEOM_RECT"@ }
    else if i == 18 { "GEOM_ELLIPSE"@ }
    else if i == 19 { "GEOM_STAR"@ }
    else if i == 20 { "PATH_D"@ }
    else if i == 21 { "TRIM"@ }
    else if i == 22 { "TRIM_CHAIN"@ }
    else if i == 23 { "DASH"@ }
    else if i == 24 { "TRANSFORM_SKEW"@ }
    else if i == 25 { "SHAPE_MULTI"@ }
    else if i == 26 { "TIMELINE"@ }
    else if i == 27 { "TIME_REMAP"@ }
    else if i == 28 { "TEMPLATES"@ }
    else if i == 29 { "INSTANCES"@ }
    else if i == 30 { "EXTRACTED"@ }
    else if i == 31 { "EXPRESSIONS"@ }
    else if i == 32 { "EXPR_PROPERTY"@ }
    else if i == 33 { "EXPR_COMP"@ }
    else if i == 34 { "EXPR_PATH"@ }
    else if i == 35 { "RAMP"@ }
    else { "FX"@ }
}

/// The names of the first `n` named capabilities that `caps` holds, in bit
/// order.
pub open spec fn names_upto(caps: Caps, n: int) -> Seq<Seq<char>>
    decreases n,
{
    if n <= 0 {
        seq![]
    } else if spec_has(caps, flag_value(n - 1)) {
        names_upto(caps, n - 1).push(flag_name(n - 1))
    } else {
        names_upto(caps, n - 1)
    }
}

/// The names of the capabilities in `caps`, in bit order.
pub open spec fn spec_names_of(caps: Caps) -> Seq<Seq<char>> {
    names_upto(caps, FLAG_COUNT as int)
}

/// Each named capability with its name, in bit order.
pub fn named() -> (r: Vec<(&'static str, Caps)>)
    ensures
        r@.len() == FLAG_COUNT,
        forall|i: int| 0 <= i < FLAG_COUNT ==> (#[trigger] r@[i]).0@ == flag_name(i) && r@[i].1 == flag_value(i),
{
    let mut r: Vec<(&'static str, Caps)> = Vec::new();
    r.push(("TRANSFORM", TRANSFORM));
    r.push(("TRANSLATE", TRANSLATE));
    r.push(("OPACITY", OPACITY));
    r.push(("DISPLAY", DISPLAY));
    r.push(("SHAPE", SHAPE));
    r.push(("RECT", RECT));
    r.push(("ELLIPSE", ELLIPSE));
    r.push(("FILL", FILL));
    r.push(("STROKE", STROKE));
    r.push(("GRADIENT", GRADIENT));
    r.push(("LAYER_TX", LAYER_TX));
    r.push(("LAYER_OP", LAYER_OP));
    r.push(("KEYFRAMES", KEYFRAMES));
    r.push(("EASING", EASING));
    r.push(("SPATIAL", SPATIAL));
    r.push(("PATH_KF", PATH_KF));
    r.push(("HOLD", HOLD));
    r.push(("GEOM_RECT", GEOM_RECT));
    r.push(("GEOM_ELLIPSE", GEOM_ELLIPSE));
    r.push(("GEOM_STAR", GEOM_STAR));
    r.push(("PATH_D", PATH_D));
    r.push(("TRIM", TRIM));
    r.push(("TRIM_CHAIN", TRIM_CHAIN));
    r.push(("DASH", DASH));
    r.push(("TRANSFORM_SKEW", TRANSFORM_SKEW));
    r.push(("SHAPE_MULTI", SHAPE_MULTI));
    r.push(("TIMELINE", TIMELINE));
    r.push(("TIME_REMAP", TIME_REMAP));
    r.push(("TEMPLATES", TEMPLATES));
    r.push(("INSTANCES", INSTANCES));
    r.push(("EXTRACTED", EXTRACTED));
    r.push(("EXPRESSIONS", EXPRESSIONS));
    r.push(("EXPR_PROPERTY", EXPR_PROPERTY));
    r.push(("EXPR_COMP", EXPR_COMP));
    r.push(("EXPR_PATH", EXPR_PATH));
    r.push(("RAMP", RAMP));
    r.push(("FX", FX));
    r
}

/// The names of the capabilities in `caps`, in bit order.
pub fn names_of(caps: Caps) -> (r: Vec<&'static str>)
    ensures
        r@.map_values(|s: &str| s@) == spec_names_of(caps),
{
    let all = named();
    let mut r: Vec<&'static str> = Vec::new();
    let mut i: usize = 0;
    while i < all.len()
        invariant
            i <= all@.len(),
            all@.len() == FLAG_COUNT,
            forall|k: int| 0 <= k < FLAG_COUNT ==> (#[trigger] all@[k]).0@ == flag_name(k) && all@[k].1 == flag_value(k),
            r@.map_values(|s: &str| s@) == names_upto(caps, i as int),
        decreases all@.len() - i,
    {
        let ghost o = r@;
        if has(caps, all[i].1) {
            r.push(all[i].0);
            assert(r@.map_values(|s: &str| s@) =~= o.map_values(|s: &str| s@).push(flag_name(i as int)));
        }
        i += 1;
    }
    r
}

} // verus!
