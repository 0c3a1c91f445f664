//! Symbol-level tree shaking over the runtime modules.
//!
//! Including a whole module because one of its functions is reachable is not
//! good enough for an ahead-of-time compiler: one number module alone carries
//! three number formatters and most animations use one. This resolves
//! reachability per top-level declaration instead, so what ships is the
//! transitive closure of what the scene actually binds.
//!
//! Two properties of the runtime sources make this cheap and safe:
//!
//! * top-level names are globally unique across the runtime, so a declaration
//!   graph needs no module qualification;
//! * references are found by scanning identifiers, which over-approximates —
//!   it can only ever retain too much, never drop something live.
//!
//! The one thing scanning cannot see is a reference that is statically present
//! but dynamically unreachable: the keyframe module names `EASE` on a branch
//! the planner only takes when the easing capability is set. Those edges are
//! listed in [`gate`] and cut when the capability is absent.

use vstd::prelude::*;
use crate::caps::{self, Caps};
use crate::lines::{lead_len, lines, split_lines, trim_start, trimmed_start, views, word_len, word_prefix};
use crate::text::{
    ascii_digit, chars_at, chars_eq, chars_of, has_at, is_whitespace, is_word_char, push_chars,
    slice_chars, starts_with, str_at, str_eq, string_of, whitespace, word_char,
};

verus! {

broadcast use vstd::seq_lib::group_seq_properties;

/// One top-level declaration, with the comment block that precedes it.
pub struct Decl {
    pub name: String,
    pub text: String,
    /// The identifiers its body mentions, as character sequences.
    pub refs: Vec<Vec<char>>,
}

/// The mathematical content of a [`Decl`].
#[verifier::ext_equal]
pub struct DeclV {
    pub name: Seq<char>,
    pub text: Seq<char>,
    pub refs: Set<Seq<char>>,
}

impl View for Decl {
    type V = DeclV;

    open spec fn view(&self) -> DeclV {
        DeclV { name: self.name@, text: self.text@, refs: views(self.refs@).to_set() }
    }
}

/// The views of a sequence of declarations.
pub open spec fn decl_views(v: Seq<Decl>) -> Seq<DeclV> {
    v.map_values(|d: Decl| d@)
}

impl Decl {
    /// A copy of this declaration.
    pub fn duplicate(&self) -> (r: Decl)
        ensures
            r@ == self@,
    {
        let mut refs: Vec<Vec<char>> = Vec::new();
        let mut i: usize = 0;
        while i < self.refs.len()
            invariant
                i <= self.refs@.len(),
                views(refs@) == views(self.refs@).take(i as int),
            decreases self.refs@.len() - i,
        {
            let c = slice_chars(self.refs[i].as_slice(), 0, self.refs[i].len());
            assert(c@ =~= self.refs@[i as int]@);
            let ghost before = refs@;
            refs.push(c);
            assert(refs@ == before.push(c));
            assert(views(refs@) =~= views(before).push(c@));
            assert(views(self.refs@).take(i + 1) =~= views(self.refs@).take(i as int).push(self.refs@[i as int]@));
            i += 1;
        }
        assert(views(self.refs@).take(self.refs@.len() as int) =~= views(self.refs@));
        Decl { name: self.name.clone(), text: self.text.clone(), refs }
    }
}

// ---------------------------------------------------------------------------
// Capability-gated edges
// ---------------------------------------------------------------------------

/// The capability without which a reference to `name` is never taken.
pub open spec fn spec_gate(name: Seq<char>) -> Option<Caps> {
    if name == "EASE"@ { Some(caps::EASING) }
    else if name == "spBuild"@ { Some(caps::SPATIAL) }
    else if name == "spSample"@ { Some(caps::SPATIAL) }
    else if name == "spSeg"@ { Some(caps::SPATIAL) }
    else if name == "lerpPath"@ { Some(caps::PATH_KF) }
    else if name == "rectPath"@ { Some(caps::GEOM_RECT) }
    else if name == "ellipsePath"@ { Some(caps::GEOM_ELLIPSE) }
    else if name == "starPath"@ { Some(caps::GEOM_STAR) }
    else if name == "trimTable"@ { Some(caps::TRIM) }
    else if name == "trimApply"@ { Some(caps::TRIM) }
    else if name == "trimCols"@ { Some(caps::TRIM) }
    else if name == "trim"@ { Some(caps::TRIM) }
    else if name == "trimChainCols"@ { Some(caps::TRIM_CHAIN) }
    else if name == "trimChainWin"@ { Some(caps::TRIM_CHAIN) }
    else if name == "expand"@ { Some(caps::TEMPLATES) }
    else if name == "xcol"@ { Some(caps::EXPRESSIONS) }
    else if name == "column"@ { Some(caps::EXPRESSIONS) }
    else if name == "toComp"@ { Some(caps::EXPR_COMP) }
    else if name == "fromCompToSurface"@ { Some(caps::EXPR_COMP) }
    else if name == "pointOnPath"@ { Some(caps::EXPR_PATH) }
    else if name == "tangentOnPath"@ { Some(caps::EXPR_PATH) }
    else if name == "createPath"@ { Some(caps::EXPR_PATH) }
    else { None }
}

/// Edges that exist in the source but are only ever taken when a capability
/// is present. Cutting them is what lets a scene with no easing drop the
/// bezier solver even though the keyframe module mentions it.
///
/// Each entry is named by the symbol, so renaming one silently un-gates it.
/// An entry belongs here only if its call site is genuinely guarded: cutting
/// an edge removes the declaration, so an unguarded call would name a symbol
/// the module does not carry.
pub fn gate(name: &[char]) -> (r: Option<Caps>)
    ensures
        r == spec_gate(name@),
{
    let n = string_of(name);
    let n = n.as_str();
    if str_eq(n, "EASE") { Some(caps::EASING) }
    else if str_eq(n, "spBuild") { Some(caps::SPATIAL) }
    else if str_eq(n, "spSample") { Some(caps::SPATIAL) }
    else if str_eq(n, "spSeg") { Some(caps::SPATIAL) }
    else if str_eq(n, "lerpPath") { Some(caps::PATH_KF) }
    else if str_eq(n, "rectPath") { Some(caps::GEOM_RECT) }
    else if str_eq(n, "ellipsePath") { Some(caps::GEOM_ELLIPSE) }
    else if str_eq(n, "starPath") { Some(caps::GEOM_STAR) }
    else if str_eq(n, "trimTable") { Some(caps::TRIM) }
    else if str_eq(n, "trimApply") { Some(caps::TRIM) }
    else if str_eq(n, "trimCols") { Some(caps::TRIM) }
    else if str_eq(n, "trim") { Some(caps::TRIM) }
    else if str_eq(n, "trimChainCols") { Some(caps::TRIM_CHAIN) }
    else if str_eq(n, "trimChainWin") { Some(caps::TRIM_CHAIN) }
    else if str_eq(n, "expand") { Some(caps::TEMPLATES) }
    else if str_eq(n, "xcol") { Some(caps::EXPRESSIONS) }
    else if str_eq(n, "column") { Some(caps::EXPRESSIONS) }
    else if str_eq(n, "toComp") { Some(caps::EXPR_COMP) }
    else if str_eq(n, "fromCompToSurface") { Some(caps::EXPR_COMP) }
    else if str_eq(n, "pointOnPath") { Some(caps::EXPR_PATH) }
    else if str_eq(n, "tangentOnPath") { Some(caps::EXPR_PATH) }
    else if str_eq(n, "createPath") { Some(caps::EXPR_PATH) }
    else { None }
}

/// The runtime symbols whose references are only followed under a
/// capability, each with the name of the capability whose feature calls it.
pub open spec fn gated_symbols() -> Seq<(Seq<char>, Seq<char>)> {
    seq![
        ("EASE"@, "EASING"@),
        ("spBuild"@, "SPATIAL"@),
        ("spSample"@, "SPATIAL"@),
        ("spSeg"@, "SPATIAL"@),
        ("lerpPath"@, "PATH_KF"@),
        ("rectPath"@, "GEOM_RECT"@),
        ("ellipsePath"@, "GEOM_ELLIPSE"@),
        ("starPath"@, "GEOM_STAR"@),
        ("trimTable"@, "TRIM"@),
        ("trimApply"@, "TRIM"@),
        ("trimCols"@, "TRIM"@),
        ("trim"@, "TRIM"@),
        ("trimChainCols"@, "TRIM_CHAIN"@),
        ("trimChainWin"@, "TRIM_CHAIN"@),
        ("expand"@, "TEMPLATES"@),
        ("xcol"@, "EXPRESSIONS"@),
        ("column"@, "EXPRESSIONS"@),
        ("toComp"@, "EXPR_COMP"@),
        ("fromCompToSurface"@, "EXPR_COMP"@),
        ("pointOnPath"@, "EXPR_PATH"@),
        ("tangentOnPath"@, "EXPR_PATH"@),
        ("createPath"@, "EXPR_PATH"@)
    ]
}

/// Each listed symbol is gated by the capability of the feature that calls
/// it — easing by `EASING`, the motion-path sampler by `SPATIAL`, each path
/// builder by its own geometry, the trim helpers by `TRIM`, the expression
/// helpers by the expression capabilities — so a scene with that capability
/// keeps the symbol and one without it drops it.
pub proof fn lemma_gated_symbols_follow_their_feature(k: int)
    requires
        0 <= k < gated_symbols().len(),
    ensures
        exists|i: int|
            0 <= i < caps::FLAG_COUNT && #[trigger] caps::flag_name(i) == gated_symbols()[k].1
                && spec_gate(gated_symbols()[k].0) == Some(caps::flag_value(i)),
{
    reveal_strlit("EASE");
    reveal_strlit("spBuild");
    reveal_strlit("spSample");
    reveal_strlit("spSeg");
    reveal_strlit("lerpPath");
    reveal_strlit("rectPath");
    reveal_strlit("ellipsePath");
    reveal_strlit("starPath");
    reveal_strlit("trimTable");
    reveal_strlit("trimApply");
    reveal_strlit("trimCols");
    reveal_strlit("trim");
    reveal_strlit("trimChainCols");
    reveal_strlit("trimChainWin");
    reveal_strlit("expand");
    reveal_strlit("xcol");
    reveal_strlit("column");
    reveal_strlit("toComp");
    reveal_strlit("fromCompToSurface");
    reveal_strlit("pointOnPath");
    reveal_strlit("tangentOnPath");
    reveal_strlit("createPath");
    if k == 0 {
        assert(caps::flag_name(13) == "EASING"@);
        assert(spec_gate("EASE"@) == Some(caps::flag_value(13)));
    }
    if k == 1 {
        assert("spBuild"@ != "EASE"@) by { assert("spBuild"@.len() != "EASE"@.len()); }
        assert(caps::flag_name(14) == "SPATIAL"@);
        assert(spec_gate("spBuild"@) == Some(caps::flag_value(14)));
    }
    if k == 2 {
        assert("spSample"@ != "EASE"@) by { assert("spSample"@.len() != "EASE"@.len()); }
        assert("spSample"@ != "spBuild"@) by { assert("spSample"@.len() != "spBuild"@.len()); }
        assert(caps::flag_name(14) == "SPATIAL"@);
        assert(spec_gate("spSample"@) == Some(caps::flag_value(14)));
    }
    if k == 3 {
        assert("spSeg"@ != "EASE"@) by { assert("spSeg"@.len() != "EASE"@.len()); }
        assert("spSeg"@ != "spBuild"@) by { assert("spSeg"@.len() != "spBuild"@.len()); }
        assert("spSeg"@ != "spSample"@) by { assert("spSeg"@.len() != "spSample"@.len()); }
        assert(caps::flag_name(14) == "SPATIAL"@);
        assert(spec_gate("spSeg"@) == Some(caps::flag_value(14)));
    }
    if k == 4 {
        assert("lerpPath"@ != "EASE"@) by { assert("lerpPath"@.len() != "EASE"@.len()); }
        assert("lerpPath"@ != "spBuild"@) by { assert("lerpPath"@.len() != "spBuild"@.len()); }
        assert("lerpPath"@ != "spSample"@) by { assert("lerpPath"@[0] != "spSample"@[0]); }
        assert("lerpPath"@ != "spSeg"@) by { assert("lerpPath"@.len() != "spSeg"@.len()); }
        assert(caps::flag_name(15) == "PATH_KF"@);
        assert(spec_gate("lerpPath"@) == Some(caps::flag_value(15)));
    }
    if k == 5 {
        assert("rectPath"@ != "EASE"@) by { assert("rectPath"@.len() != "EASE"@.len()); }
        assert("rectPath"@ != "spBuild"@) by { assert("rectPath"@.len() != "spBuild"@.len()); }
        assert("rectPath"@ != "spSample"@) by { assert("rectPath"@[0] != "spSample"@[0]); }
        assert("rectPath"@ != "spSeg"@) by { assert("rectPath"@.len() != "spSeg"@.len()); }
        assert("rectPath"@ != "lerpPath"@) by { assert("rectPath"@[0] != "lerpPath"@[0]); }
        assert(caps::flag_name(17) == "GEOM_RECT"@);
        assert(spec_gate("rectPath"@) == Some(caps::flag_value(17)));
    }
    if k == 6 {
        assert("ellipsePath"@ != "EASE"@) by { assert("ellipsePath"@.len() != "EASE"@.len()); }
        assert("ellipsePath"@ != "spBuild"@) by { assert("ellipsePath"@.len() != "spBuild"@.len()); }
        assert("ellipsePath"@ != "spSample"@) by { assert("ellipsePath"@.len() != "spSample"@.len()); }
        assert("ellipsePath"@ != "spSeg"@) by { assert("ellipsePath"@.len() != "spSeg"@.len()); }
        assert("ellipsePath"@ != "lerpPath"@) by { assert("ellipsePath"@.len() != "lerpPath"@.len()); }
        assert("ellipsePath"@ != "rectPath"@) by { assert("ellipsePath"@.len() != "rectPath"@.len()); }
        assert(caps::flag_name(18) == "GEOM_ELLIPSE"@);
        assert(spec_gate("ellipsePath"@) == Some(caps::flag_value(18)));
    }
    if k == 7 {
        assert("starPath"@ != "EASE"@) by { assert("starPath"@.len() != "EASE"@.len()); }
        assert("starPath"@ != "spBuild"@) by { assert("starPath"@.len() != "spBuild"@.len()); }
        assert("starPath"@ != "spSample"@) by { assert("starPath"@[1] != "spSample"@[1]); }
        assert("starPath"@ != "spSeg"@) by { assert("starPath"@.len() != "spSeg"@.len()); }
        assert("starPath"@ != "lerpPath"@) by { assert("starPath"@[0] != "lerpPath"@[0]); }
        assert("starPath"@ != "rectPath"@) by { assert("starPath"@[0] != "rectPath"@[0]); }
        assert("starPath"@ != "ellipsePath"@) by { assert("starPath"@.len() != "ellipsePath"@.len()); }
        assert(caps::flag_name(19) == "GEOM_STAR"@);
        assert(spec_gate("starPath"@) == Some(caps::flag_value(19)));
    }
    if k == 8 {
        assert("trimTable"@ != "EASE"@) by { assert("trimTable"@.len() != "EASE"@.len()); }
        assert("trimTable"@ != "spBuild"@) by { assert("trimTable"@.len() != "spBuild"@.len()); }
        assert("trimTable"@ != "spSample"@) by { assert("trimTable"@.len() != "spSample"@.len()); }
        assert("trimTable"@ != "spSeg"@) by { assert("trimTable"@.len() != "spSeg"@.len()); }
        assert("trimTable"@ != "lerpPath"@) by { assert("trimTable"@.len() != "lerpPath"@.len()); }
        assert("trimTable"@ != "rectPath"@) by { assert("trimTable"@.len() != "rectPath"@.len()); }
        assert("trimTable"@ != "ellipsePath"@) by { assert("trimTable"@.len() != "ellipsePath"@.len()); }
        assert("trimTable"@ != "starPath"@) by { assert("trimTable"@.len() != "starPath"@.len()); }
        assert(caps::flag_name(21) == "TRIM"@);
        assert(spec_gate("trimTable"@) == Some(caps::flag_value(21)));
    }
    if k == 9 {
        assert("trimApply"@ != "EASE"@) by { assert("trimApply"@.len() != "EASE"@.len()); }
        assert("trimApply"@ != "spBuild"@) by { assert("trimApply"@.len() != "spBuild"@.len()); }
        assert("trimApply"@ != "spSample"@) by { assert("trimApply"@.len() != "spSample"@.len()); }
        assert("trimApply"@ != "spSeg"@) by { assert("trimApply"@.len() != "spSeg"@.len()); }
        assert("trimApply"@ != "lerpPath"@) by { assert("trimApply"@.len() != "lerpPath"@.len()); }
        assert("trimApply"@ != "rectPath"@) by { assert("trimApply"@.len() != "rectPath"@.len()); }
        assert("trimApply"@ != "ellipsePath"@) by { assert("trimApply"@.len() != "ellipsePath"@.len()); }
        assert("trimApply"@ != "starPath"@) by { assert("trimApply"@.len() != "starPath"@.len()); }
        assert("trimApply"@ != "trimTable"@) by { assert("trimApply"@[4] != "trimTable"@[4]); }
        assert(caps::flag_name(21) == "TRIM"@);
        assert(spec_gate("trimApply"@) == Some(caps::flag_value(21)));
    }
    if k == 10 {
        assert("trimCols"@ != "EASE"@) by { assert("trimCols"@.len() != "EASE"@.len()); }
        assert("trimCols"@ != "spBuild"@) by { assert("trimCols"@.len() != "spBuild"@.len()); }
        assert("trimCols"@ != "spSample"@) by { assert("trimCols"@[0] != "spSample"@[0]); }
        assert("trimCols"@ != "spSeg"@) by { assert("trimCols"@.len() != "spSeg"@.len()); }
        assert("trimCols"@ != "lerpPath"@) by { assert("trimCols"@[0] != "lerpPath"@[0]); }
        assert("trimCols"@ != "rectPath"@) by { assert("trimCols"@[0] != "rectPath"@[0]); }
        assert("trimCols"@ != "ellipsePath"@) by { assert("trimCols"@.len() != "ellipsePath"@.len()); }
        assert("trimCols"@ != "starPath"@) by { assert("trimCols"@[0] != "starPath"@[0]); }
        assert("trimCols"@ != "trimTable"@) by { assert("trimCols"@.len() != "trimTable"@.len()); }
        assert("trimCols"@ != "trimApply"@) by { assert("trimCols"@.len() != "trimApply"@.len()); }
        assert(caps::flag_name(21) == "TRIM"@);
        assert(spec_gate("trimCols"@) == Some(caps::flag_value(21)));
    }
    if k == 11 {
        assert("trim"@ != "EASE"@) by { assert("trim"@[0] != "EASE"@[0]); }
        assert("trim"@ != "spBuild"@) by { assert("trim"@.len() != "spBuild"@.len()); }
        assert("trim"@ != "spSample"@) by { assert("trim"@.len() != "spSample"@.len()); }
        assert("trim"@ != "spSeg"@) by { assert("trim"@.len() != "spSeg"@.len()); }
        assert("trim"@ != "lerpPath"@) by { assert("trim"@.len() != "lerpPath"@.len()); }
        assert("trim"@ != "rectPath"@) by { assert("trim"@.len() != "rectPath"@.len()); }
        assert("trim"@ != "ellipsePath"@) by { assert("trim"@.len() != "ellipsePath"@.len()); }
        assert("trim"@ != "starPath"@) by { assert("trim"@.len() != "starPath"@.len()); }
        assert("trim"@ != "trimTable"@) by { assert("trim"@.len() != "trimTable"@.len()); }
        assert("trim"@ != "trimApply"@) by { assert("trim"@.len() != "trimApply"@.len()); }
        assert("trim"@ != "trimCols"@) by { assert("trim"@.len() != "trimCols"@.len()); }
        assert(caps::flag_name(21) == "TRIM"@);
        assert(spec_gate("trim"@) == Some(caps::flag_value(21)));
    }
    if k == 12 {
        assert("trimChainCols"@ != "EASE"@) by { assert("trimChainCols"@.len() != "EASE"@.len()); }
        assert("trimChainCols"@ != "spBuild"@) by { assert("trimChainCols"@.len() != "spBuild"@.len()); }
        assert("trimChainCols"@ != "spSample"@) by { assert("trimChainCols"@.len() != "spSample"@.len()); }
        assert("trimChainCols"@ != "spSeg"@) by { assert("trimChainCols"@.len() != "spSeg"@.len()); }
        assert("trimChainCols"@ != "lerpPath"@) by { assert("trimChainCols"@.len() != "lerpPath"@.len()); }
        assert("trimChainCols"@ != "rectPath"@) by { assert("trimChainCols"@.len() != "rectPath"@.len()); }
        assert("trimChainCols"@ != "ellipsePath"@) by { assert("trimChainCols"@.len() != "ellipsePath"@.len()); }
        assert("trimChainCols"@ != "starPath"@) by { assert("trimChainCols"@.len() != "starPath"@.len()); }
        assert("trimChainCols"@ != "trimTable"@) by { assert("trimChainCols"@.len() != "trimTable"@.len()); }
        assert("trimChainCols"@ != "trimApply"@) by { assert("trimChainCols"@.len() != "trimApply"@.len()); }
        assert("trimChainCols"@ != "trimCols"@) by { assert("trimChainCols"@.len() != "trimCols"@.len()); }
        assert("trimChainCols"@ != "trim"@) by { assert("trimChainCols"@.len() != "trim"@.len()); }
        assert(caps::flag_name(22) == "TRIM_CHAIN"@);
        assert(spec_gate("trimChainCols"@) == Some(caps::flag_value(22)));
    }
    if k == 13 {
        assert("trimChainWin"@ != "EASE"@) by { assert("trimChainWin"@.len() != "EASE"@.len()); }
        assert("trimChainWin"@ != "spBuild"@) by { assert("trimChainWin"@.len() != "spBuild"@.len()); }
        assert("trimChainWin"@ != "spSample"@) by { assert("trimChainWin"@.len() != "spSample"@.len()); }
        assert("trimChainWin"@ != "spSeg"@) by { assert("trimChainWin"@.len() != "spSeg"@.len()); }
        assert("trimChainWin"@ != "lerpPath"@) by { assert("trimChainWin"@.len() != "lerpPath"@.len()); }
        assert("trimChainWin"@ != "rectPath"@) by { assert("trimChainWin"@.len() != "rectPath"@.len()); }
        assert("trimChainWin"@ != "ellipsePath"@) by { assert("trimChainWin"@.len() != "ellipsePath"@.len()); }
        assert("trimChainWin"@ != "starPath"@) by { assert("trimChainWin"@.len() != "starPath"@.len()); }
        assert("trimChainWin"@ != "trimTable"@) by { assert("trimChainWin"@.len() != "trimTable"@.len()); }
        assert("trimChainWin"@ != "trimApply"@) by { assert("trimChainWin"@.len() != "trimApply"@.len()); }
        assert("trimChainWin"@ != "trimCols"@) by { assert("trimChainWin"@.len() != "trimCols"@.len()); }
        assert("trimChainWin"@ != "trim"@) by { assert("trimChainWin"@.len() != "trim"@.len()); }
        assert("trimChainWin"@ != "trimChainCols"@) by { assert("trimChainWin"@.len() != "trimChainCols"@.len()); }
        assert(caps::flag_name(22) == "TRIM_CHAIN"@);
        assert(spec_gate("trimChainWin"@) == Some(caps::flag_value(22)));
    }
    if k == 14 {
        assert("expand"@ != "EASE"@) by { assert("expand"@.len() != "EASE"@.len()); }
        assert("expand"@ != "spBuild"@) by { assert("expand"@.len() != "spBuild"@.len()); }
        assert("expand"@ != "spSample"@) by { assert("expand"@.len() != "spSample"@.len()); }
        assert("expand"@ != "spSeg"@) by { assert("expand"@.len() != "spSeg"@.len()); }
        assert("expand"@ != "lerpPath"@) by { assert("expand"@.len() != "lerpPath"@.len()); }
        assert("expand"@ != "rectPath"@) by { assert("expand"@.len() != "rectPath"@.len()); }
        assert("expand"@ != "ellipsePath"@) by { assert("expand"@.len() != "ellipsePath"@.len()); }
        assert("expand"@ != "starPath"@) by { assert("expand"@.len() != "starPath"@.len()); }
        assert("expand"@ != "trimTable"@) by { assert("expand"@.len() != "trimTable"@.len()); }
        assert("expand"@ != "trimApply"@) by { assert("expand"@.len() != "trimApply"@.len()); }
        assert("expand"@ != "trimCols"@) by { assert("expand"@.len() != "trimCols"@.len()); }
        assert("expand"@ != "trim"@) by { assert("expand"@.len() != "trim"@.len()); }
        assert("expand"@ != "trimChainCols"@) by { assert("expand"@.len() != "trimChainCols"@.len()); }
        assert("expand"@ != "trimChainWin"@) by { assert("expand"@.len() != "trimChainWin"@.len()); }
        assert(caps::flag_name(28) == "TEMPLATES"@);
        assert(spec_gate("expand"@) == Some(caps::flag_value(28)));
    }
    if k == 15 {
        assert("xcol"@ != "EASE"@) by { assert("xcol"@[0] != "EASE"@[0]); }
        assert("xcol"@ != "spBuild"@) by { assert("xcol"@.len() != "spBuild"@.len()); }
        assert("xcol"@ != "spSample"@) by { assert("xcol"@.len() != "spSample"@.len()); }
        assert("xcol"@ != "spSeg"@) by { assert("xcol"@.len() != "spSeg"@.len()); }
        assert("xcol"@ != "lerpPath"@) by { assert("xcol"@.len() != "lerpPath"@.len()); }
        assert("xcol"@ != "rectPath"@) by { assert("xcol"@.len() != "rectPath"@.len()); }
        assert("xcol"@ != "ellipsePath"@) by { assert("xcol"@.len() != "ellipsePath"@.len()); }
        assert("xcol"@ != "starPath"@) by { assert("xcol"@.len() != "starPath"@.len()); }
        assert("xcol"@ != "trimTable"@) by { assert("xcol"@.len() != "trimTable"@.len()); }
        assert("xcol"@ != "trimApply"@) by { assert("xcol"@.len() != "trimApply"@.len()); }
        assert("xcol"@ != "trimCols"@) by { assert("xcol"@.len() != "trimCols"@.len()); }
        assert("xcol"@ != "trim"@) by { assert("xcol"@[0] != "trim"@[0]); }
        assert("xcol"@ != "trimChainCols"@) by { assert("xcol"@.len() != "trimChainCols"@.len()); }
        assert("xcol"@ != "trimChainWin"@) by { assert("xcol"@.len() != "trimChainWin"@.len()); }
        assert("xcol"@ != "expand"@) by { assert("xcol"@.len() != "expand"@.len()); }
        assert(caps::flag_name(31) == "EXPRESSIONS"@);
        assert(spec_gate("xcol"@) == Some(caps::flag_value(31)));
    }
    if k == 16 {
        assert("column"@ != "EASE"@) by { assert("column"@.len() != "EASE"@.len()); }
        assert("column"@ != "spBuild"@) by { assert("column"@.len() != "spBuild"@.len()); }
        assert("column"@ != "spSample"@) by { assert("column"@.len() != "spSample"@.len()); }
        assert("column"@ != "spSeg"@) by { assert("column"@.len() != "spSeg"@.len()); }
        assert("column"@ != "lerpPath"@) by { assert("column"@.len() != "lerpPath"@.len()); }
        assert("column"@ != "rectPath"@) by { assert("column"@.len() != "rectPath"@.len()); }
        assert("column"@ != "ellipsePath"@) by { assert("column"@.len() != "ellipsePath"@.len()); }
        assert("column"@ != "starPath"@) by { assert("column"@.len() != "starPath"@.len()); }
        assert("column"@ != "trimTable"@) by { assert("column"@.len() != "trimTable"@.len()); }
        assert("column"@ != "trimApply"@) by { assert("column"@.len() != "trimApply"@.len()); }
        assert("column"@ != "trimCols"@) by { assert("column"@.len() != "trimCols"@.len()); }
        assert("column"@ != "trim"@) by { assert("column"@.len() != "trim"@.len()); }
        assert("column"@ != "trimChainCols"@) by { assert("column"@.len() != "trimChainCols"@.len()); }
        assert("column"@ != "trimChainWin"@) by { assert("column"@.len() != "trimChainWin"@.len()); }
        assert("column"@ != "expand"@) by { assert("column"@[0] != "expand"@[0]); }
        assert("column"@ != "xcol"@) by { assert("column"@.len() != "xcol"@.len()); }
        assert(caps::flag_name(31) == "EXPRESSIONS"@);
        assert(spec_gate("column"@) == Some(caps::flag_value(31)));
    }
    if k == 17 {
        assert("toComp"@ != "EASE"@) by { assert("toComp"@.len() != "EASE"@.len()); }
        assert("toComp"@ != "spBuild"@) by { assert("toComp"@.len() != "spBuild"@.len()); }
        assert("toComp"@ != "spSample"@) by { assert("toComp"@.len() != "spSample"@.len()); }
        assert("toComp"@ != "spSeg"@) by { assert("toComp"@.len() != "spSeg"@.len()); }
        assert("toComp"@ != "lerpPath"@) by { assert("toComp"@.len() != "lerpPath"@.len()); }
        assert("toComp"@ != "rectPath"@) by { assert("toComp"@.len() != "rectPath"@.len()); }
        assert("toComp"@ != "ellipsePath"@) by { assert("toComp"@.len() != "ellipsePath"@.len()); }
        assert("toComp"@ != "starPath"@) by { assert("toComp"@.len() != "starPath"@.len()); }
        assert("toComp"@ != "trimTable"@) by { assert("toComp"@.len() != "trimTable"@.len()); }
        assert("toComp"@ != "trimApply"@) by { assert("toComp"@.len() != "trimApply"@.len()); }
        assert("toComp"@ != "trimCols"@) by { assert("toComp"@.len() != "trimCols"@.len()); }
        assert("toComp"@ != "trim"@) by { assert("toComp"@.len() != "trim"@.len()); }
        assert("toComp"@ != "trimChainCols"@) by { assert("toComp"@.len() != "trimChainCols"@.len()); }
        assert("toComp"@ != "trimChainWin"@) by { assert("toComp"@.len() != "trimChainWin"@.len()); }
        assert("toComp"@ != "expand"@) by { assert("toComp"@[0] != "expand"@[0]); }
        assert("toComp"@ != "xcol"@) by { assert("toComp"@.len() != "xcol"@.len()); }
        assert("toComp"@ != "column"@) by { assert("toComp"@[0] != "column"@[0]); }
        assert(caps::flag_name(33) == "EXPR_COMP"@);
        assert(spec_gate("toComp"@) == Some(caps::flag_value(33)));
    }
    if k == 18 {
        assert("fromCompToSurface"@ != "EASE"@) by { assert("fromCompToSurface"@.len() != "EASE"@.len()); }
        assert("fromCompToSurface"@ != "spBuild"@) by { assert("fromCompToSurface"@.len() != "spBuild"@.len()); }
        assert("fromCompToSurface"@ != "spSample"@) by { assert("fromCompToSurface"@.len() != "spSample"@.len()); }
        assert("fromCompToSurface"@ != "spSeg"@) by { assert("fromCompToSurface"@.len() != "spSeg"@.len()); }
        assert("fromCompToSurface"@ != "lerpPath"@) by { assert("fromCompToSurface"@.len() != "lerpPath"@.len()); }
        assert("fromCompToSurface"@ != "rectPath"@) by { assert("fromCompToSurface"@.len() != "rectPath"@.len()); }
        assert("fromCompToSurface"@ != "ellipsePath"@) by { assert("fromCompToSurface"@.len() != "ellipsePath"@.len()); }
        assert("fromCompToSurface"@ != "starPath"@) by { assert("fromCompToSurface"@.len() != "starPath"@.len()); }
        assert("fromCompToSurface"@ != "trimTable"@) by { assert("fromCompToSurface"@.len() != "trimTable"@.len()); }
        assert("fromCompToSurface"@ != "trimApply"@) by { assert("fromCompToSurface"@.len() != "trimApply"@.len()); }
        assert("fromCompToSurface"@ != "trimCols"@) by { assert("fromCompToSurface"@.len() != "trimCols"@.len()); }
        assert("fromCompToSurface"@ != "trim"@) by { assert("fromCompToSurface"@.len() != "trim"@.len()); }
        assert("fromCompToSurface"@ != "trimChainCols"@) by { assert("fromCompToSurface"@.len() != "trimChainCols"@.len()); }
        assert("fromCompToSurface"@ != "trimChainWin"@) by { assert("fromCompToSurface"@.len() != "trimChainWin"@.len()); }
        assert("fromCompToSurface"@ != "expand"@) by { assert("fromCompToSurface"@.len() != "expand"@.len()); }
        assert("fromCompToSurface"@ != "xcol"@) by { assert("fromCompToSurface"@.len() != "xcol"@.len()); }
        assert("fromCompToSurface"@ != "column"@) by { assert("fromCompToSurface"@.len() != "column"@.len()); }
        assert("fromCompToSurface"@ != "toComp"@) by { assert("fromCompToSurface"@.len() != "toComp"@.len()); }
        assert(caps::flag_name(33) == "EXPR_COMP"@);
        assert(spec_gate("fromCompToSurface"@) == Some(caps::flag_value(33)));
    }
    if k == 19 {
        assert("pointOnPath"@ != "EASE"@) by { assert("pointOnPath"@.len() != "EASE"@.len()); }
        assert("pointOnPath"@ != "spBuild"@) by { assert("pointOnPath"@.len() != "spBuild"@.len()); }
        assert("pointOnPath"@ != "spSample"@) by { assert("pointOnPath"@.len() != "spSample"@.len()); }
        assert("pointOnPath"@ != "spSeg"@) by { assert("pointOnPath"@.len() != "spSeg"@.len()); }
        assert("pointOnPath"@ != "lerpPath"@) by { assert("pointOnPath"@.len() != "lerpPath"@.len()); }
        assert("pointOnPath"@ != "rectPath"@) by { assert("pointOnPath"@.len() != "rectPath"@.len()); }
        assert("pointOnPath"@ != "ellipsePath"@) by { assert("pointOnPath"@[0] != "ellipsePath"@[0]); }
        assert("pointOnPath"@ != "starPath"@) by { assert("pointOnPath"@.len() != "starPath"@.len()); }
        assert("pointOnPath"@ != "trimTable"@) by { assert("pointOnPath"@.len() != "trimTable"@.len()); }
        assert("pointOnPath"@ != "trimApply"@) by { assert("pointOnPath"@.len() != "trimApply"@.len()); }
        assert("pointOnPath"@ != "trimCols"@) by { assert("pointOnPath"@.len() != "trimCols"@.len()); }
        assert("pointOnPath"@ != "trim"@) by { assert("pointOnPath"@.len() != "trim"@.len()); }
        assert("pointOnPath"@ != "trimChainCols"@) by { assert("pointOnPath"@.len() != "trimChainCols"@.len()); }
        assert("pointOnPath"@ != "trimChainWin"@) by { assert("pointOnPath"@.len() != "trimChainWin"@.len()); }
        assert("pointOnPath"@ != "expand"@) by { assert("pointOnPath"@.len() != "expand"@.len()); }
        assert("pointOnPath"@ != "xcol"@) by { assert("pointOnPath"@.len() != "xcol"@.len()); }
        assert("pointOnPath"@ != "column"@) by { assert("pointOnPath"@.len() != "column"@.len()); }
        assert("pointOnPath"@ != "toComp"@) by { assert("pointOnPath"@.len() != "toComp"@.len()); }
        assert("pointOnPath"@ != "fromCompToSurface"@) by { assert("pointOnPath"@.len() != "fromCompToSurface"@.len()); }
        assert(caps::flag_name(34) == "EXPR_PATH"@);
        assert(spec_gate("pointOnPath"@) == Some(caps::flag_value(34)));
    }
    if k == 20 {
        assert("tangentOnPath"@ != "EASE"@) by { assert("tangentOnPath"@.len() != "EASE"@.len()); }
        assert("tangentOnPath"@ != "spBuild"@) by { assert("tangentOnPath"@.len() != "spBuild"@.len()); }
        assert("tangentOnPath"@ != "spSample"@) by { assert("tangentOnPath"@.len() != "spSample"@.len()); }
        assert("tangentOnPath"@ != "spSeg"@) by { assert("tangentOnPath"@.len() != "spSeg"@.len()); }
        assert("tangentOnPath"@ != "lerpPath"@) by { assert("tangentOnPath"@.len() != "lerpPath"@.len()); }
        assert("tangentOnPath"@ != "rectPath"@) by { assert("tangentOnPath"@.len() != "rectPath"@.len()); }
        assert("tangentOnPath"@ != "ellipsePath"@) by { assert("tangentOnPath"@.len() != "ellipsePath"@.len()); }
        assert("tangentOnPath"@ != "starPath"@) by { assert("tangentOnPath"@.len() != "starPath"@.len()); }
        assert("tangentOnPath"@ != "trimTable"@) by { assert("tangentOnPath"@.len() != "trimTable"@.len()); }
        assert("tangentOnPath"@ != "trimApply"@) by { assert("tangentOnPath"@.len() != "trimApply"@.len()); }
        assert("tangentOnPath"@ != "trimCols"@) by { assert("tangentOnPath"@.len() != "trimCols"@.len()); }
        assert("tangentOnPath"@ != "trim"@) by { assert("tangentOnPath"@.len() != "trim"@.len()); }
        assert("tangentOnPath"@ != "trimChainCols"@) by { assert("tangentOnPath"@[1] != "trimChainCols"@[1]); }
        assert("tangentOnPath"@ != "trimChainWin"@) by { assert("tangentOnPath"@.len() != "trimChainWin"@.len()); }
        assert("tangentOnPath"@ != "expand"@) by { assert("tangentOnPath"@.len() != "expand"@.len()); }
        assert("tangentOnPath"@ != "xcol"@) by { assert("tangentOnPath"@.len() != "xcol"@.len()); }
        assert("tangentOnPath"@ != "column"@) by { assert("tangentOnPath"@.len() != "column"@.len()); }
        assert("tangentOnPath"@ != "toComp"@) by { assert("tangentOnPath"@.len() != "toComp"@.len()); }
        assert("tangentOnPath"@ != "fromCompToSurface"@) by { assert("tangentOnPath"@.len() != "fromCompToSurface"@.len()); }
        assert("tangentOnPath"@ != "pointOnPath"@) by { assert("tangentOnPath"@.len() != "pointOnPath"@.len()); }
        assert(caps::flag_name(34) == "EXPR_PATH"@);
        assert(spec_gate("tangentOnPath"@) == Some(caps::flag_value(34)));
    }
    if k == 21 {
        assert("createPath"@ != "EASE"@) by { assert("createPath"@.len() != "EASE"@.len()); }
        assert("createPath"@ != "spBuild"@) by { assert("createPath"@.len() != "spBuild"@.len()); }
        assert("createPath"@ != "spSample"@) by { assert("createPath"@.len() != "spSample"@.len()); }
        assert("createPath"@ != "spSeg"@) by { assert("createPath"@.len() != "spSeg"@.len()); }
        assert("createPath"@ != "lerpPath"@) by { assert("createPath"@.len() != "lerpPath"@.len()); }
        assert("createPath"@ != "rectPath"@) by { assert("createPath"@.len() != "rectPath"@.len()); }
        assert("createPath"@ != "ellipsePath"@) by { assert("createPath"@.len() != "ellipsePath"@.len()); }
        assert("createPath"@ != "starPath"@) by { assert("createPath"@.len() != "starPath"@.len()); }
        assert("createPath"@ != "trimTable"@) by { assert("createPath"@.len() != "trimTable"@.len()); }
        assert("createPath"@ != "trimApply"@) by { assert("createPath"@.len() != "trimApply"@.len()); }
        assert("createPath"@ != "trimCols"@) by { assert("createPath"@.len() != "trimCols"@.len()); }
        assert("createPath"@ != "trim"@) by { assert("createPath"@.len() != "trim"@.len()); }
        assert("createPath"@ != "trimChainCols"@) by { assert("createPath"@.len() != "trimChainCols"@.len()); }
        assert("createPath"@ != "trimChainWin"@) by { assert("createPath"@.len() != "trimChainWin"@.len()); }
        assert("createPath"@ != "expand"@) by { assert("createPath"@.len() != "expand"@.len()); }
        assert("createPath"@ != "xcol"@) by { assert("createPath"@.len() != "xcol"@.len()); }
        assert("createPath"@ != "column"@) by { assert("createPath"@.len() != "column"@.len()); }
        assert("createPath"@ != "toComp"@) by { assert("createPath"@.len() != "toComp"@.len()); }
        assert("createPath"@ != "fromCompToSurface"@) by { assert("createPath"@.len() != "fromCompToSurface"@.len()); }
        assert("createPath"@ != "pointOnPath"@) by { assert("createPath"@.len() != "pointOnPath"@.len()); }
        assert("createPath"@ != "tangentOnPath"@) by { assert("createPath"@.len() != "tangentOnPath"@.len()); }
        assert(caps::flag_name(34) == "EXPR_PATH"@);
        assert(spec_gate("createPath"@) == Some(caps::flag_value(34)));
    }
}

/// Nothing but the listed symbols is gated: every other reference is always
/// followed.
pub proof fn lemma_only_listed_symbols_are_gated(name: Seq<char>)
    requires
        spec_gate(name) is Some,
    ensures
        exists|k: int| 0 <= k < gated_symbols().len() && (#[trigger] gated_symbols()[k]).0 == name,
{
    if name == "EASE"@ { assert(gated_symbols()[0].0 == name); }
    if name == "spBuild"@ { assert(gated_symbols()[1].0 == name); }
    if name == "spSample"@ { assert(gated_symbols()[2].0 == name); }
    if name == "spSeg"@ { assert(gated_symbols()[3].0 == name); }
    if name == "lerpPath"@ { assert(gated_symbols()[4].0 == name); }
    if name == "rectPath"@ { assert(gated_symbols()[5].0 == name); }
    if name == "ellipsePath"@ { assert(gated_symbols()[6].0 == name); }
    if name == "starPath"@ { assert(gated_symbols()[7].0 == name); }
    if name == "trimTable"@ { assert(gated_symbols()[8].0 == name); }
    if name == "trimApply"@ { assert(gated_symbols()[9].0 == name); }
    if name == "trimCols"@ { assert(gated_symbols()[10].0 == name); }
    if name == "trim"@ { assert(gated_symbols()[11].0 == name); }
    if name == "trimChainCols"@ { assert(gated_symbols()[12].0 == name); }
    if name == "trimChainWin"@ { assert(gated_symbols()[13].0 == name); }
    if name == "expand"@ { assert(gated_symbols()[14].0 == name); }
    if name == "xcol"@ { assert(gated_symbols()[15].0 == name); }
    if name == "column"@ { assert(gated_symbols()[16].0 == name); }
    if name == "toComp"@ { assert(gated_symbols()[17].0 == name); }
    if name == "fromCompToSurface"@ { assert(gated_symbols()[18].0 == name); }
    if name == "pointOnPath"@ { assert(gated_symbols()[19].0 == name); }
    if name == "tangentOnPath"@ { assert(gated_symbols()[20].0 == name); }
    if name == "createPath"@ { assert(gated_symbols()[21].0 == name); }
}

/// The ASCII letters of `s` in upper case, everything else as it is.
pub open spec fn ascii_upper(s: Seq<char>) -> Seq<char> {
    s.map_values(|c: char| if 'a' <= c && c <= 'z' { ((c as u32) - 32) as char } else { c })
}

/// A shape's path builder is gated by that shape's own geometry capability:
/// for each geometry kind, `<kind>Path` is cut exactly when the capability
/// named `GEOM_<KIND>` is missing, so a scene that animates a rectangle
/// carries `rectPath` and one that animates no ellipse drops `ellipsePath`.
pub proof fn lemma_path_builders_follow_their_geometry(kind: Seq<char>)
    requires
        kind == "rect"@ || kind == "ellipse"@ || kind == "star"@,
    ensures
        exists|i: int|
            0 <= i < caps::FLAG_COUNT && #[trigger] caps::flag_name(i) == "GEOM_"@ + ascii_upper(kind)
                && spec_gate(kind + "Path"@) == Some(caps::flag_value(i)),
        forall|c: Caps|
            spec_is_cut(kind + "Path"@, c) <==> exists|i: int|
                0 <= i < caps::FLAG_COUNT && #[trigger] caps::flag_name(i) == "GEOM_"@ + ascii_upper(kind)
                    && !caps::spec_has(c, caps::flag_value(i)),
{
    reveal_strlit("rect");
    reveal_strlit("ellipse");
    reveal_strlit("star");
    reveal_strlit("Path");
    reveal_strlit("GEOM_");
    reveal_strlit("GEOM_RECT");
    reveal_strlit("GEOM_ELLIPSE");
    reveal_strlit("GEOM_STAR");
    reveal_strlit("EASE");
    reveal_strlit("spBuild");
    reveal_strlit("spSample");
    reveal_strlit("spSeg");
    reveal_strlit("lerpPath");
    reveal_strlit("rectPath");
    reveal_strlit("ellipsePath");
    reveal_strlit("starPath");
    let i: int = if kind == "rect"@ { 17 } else if kind == "ellipse"@ { 18 } else { 19 };
    let name = kind + "Path"@;
    if kind == "rect"@ {
        assert(name =~= "rectPath"@);
        assert(caps::flag_name(i) =~= "GEOM_"@ + ascii_upper(kind));
    } else if kind == "ellipse"@ {
        assert(name =~= "ellipsePath"@);
        assert(caps::flag_name(i) =~= "GEOM_"@ + ascii_upper(kind));
    } else {
        assert(name =~= "starPath"@);
        assert(caps::flag_name(i) =~= "GEOM_"@ + ascii_upper(kind));
    }
    assert(name != "EASE"@ && name != "spBuild"@ && name != "spSeg"@) by {
        assert(name.len() != "EASE"@.len() && name.len() != "spBuild"@.len() && name.len() != "spSeg"@.len());
    }
    assert(name != "spSample"@) by {
        assert(name.len() != 8 || name[1] != "spSample"@[1]);
    }
    assert(name != "lerpPath"@) by {
        assert(name.len() != 8 || name[0] != "lerpPath"@[0]);
    }
    if kind != "rect"@ {
        assert(name != "rectPath"@) by {
            assert(name.len() != 8 || name[0] != "rectPath"@[0]);
        }
    }
    if kind == "star"@ {
        assert(name != "ellipsePath"@) by {
            assert(name.len() != "ellipsePath"@.len());
        }
    }
    assert(spec_gate(name) == Some(caps::flag_value(i)));
    assert forall|c: Caps|
        spec_is_cut(kind + "Path"@, c) <==> exists|j: int|
            0 <= j < caps::FLAG_COUNT && #[trigger] caps::flag_name(j) == "GEOM_"@ + ascii_upper(kind)
                && !caps::spec_has(c, caps::flag_value(j)) by {
        if exists|j: int|
            0 <= j < caps::FLAG_COUNT && #[trigger] caps::flag_name(j) == "GEOM_"@ + ascii_upper(kind)
                && !caps::spec_has(c, caps::flag_value(j)) {
            let j = choose|j: int|
                0 <= j < caps::FLAG_COUNT && #[trigger] caps::flag_name(j) == "GEOM_"@ + ascii_upper(kind)
                    && !caps::spec_has(c, caps::flag_value(j));
            lemma_flag_names_distinct(i, j);
        }
    }
}

proof fn lemma_flag_names_distinct(i: int, j: int)
    requires
        0 <= i < caps::FLAG_COUNT,
        0 <= j < caps::FLAG_COUNT,
        caps::flag_name(i) == caps::flag_name(j),
        17 <= i <= 19,
    ensures
        i == j,
{
    reveal_strlit("GEOM_RECT");
    reveal_strlit("GEOM_ELLIPSE");
    reveal_strlit("GEOM_STAR");
    reveal_strlit("TRANSFORM");
    reveal_strlit("TRANSLATE");
    reveal_strlit("OPACITY");
    reveal_strlit("DISPLAY");
    reveal_strlit("SHAPE");
    reveal_strlit("RECT");
    reveal_strlit("ELLIPSE");
    reveal_strlit("FILL");
    reveal_strlit("STROKE");
    reveal_strlit("GRADIENT");
    reveal_strlit("LAYER_TX");
    reveal_strlit("LAYER_OP");
    reveal_strlit("KEYFRAMES");
    reveal_strlit("EASING");
    reveal_strlit("SPATIAL");
    reveal_strlit("PATH_KF");
    reveal_strlit("HOLD");
    reveal_strlit("PATH_D");
    reveal_strlit("TRIM");
    reveal_strlit("TRIM_CHAIN");
    reveal_strlit("DASH");
    reveal_strlit("TRANSFORM_SKEW");
    reveal_strlit("SHAPE_MULTI");
    reveal_strlit("TIMELINE");
    reveal_strlit("TIME_REMAP");
    reveal_strlit("TEMPLATES");
    reveal_strlit("INSTANCES");
    reveal_strlit("EXTRACTED");
    reveal_strlit("EXPRESSIONS");
    reveal_strlit("EXPR_PROPERTY");
    reveal_strlit("EXPR_COMP");
    reveal_strlit("EXPR_PATH");
    reveal_strlit("RAMP");
    reveal_strlit("FX");
    if i != j {
        let a = caps::flag_name(i);
        let b = caps::flag_name(j);
        if a.len() == b.len() {
            assert(a[5] != b[5] || a[0] != b[0] || a[1] != b[1] || a[6] != b[6]);
        }
    }
}

/// Whether a reference to `name` is cut under `c`.
pub open spec fn spec_is_cut(name: Seq<char>, c: Caps) -> bool {
    match spec_gate(name) {
        Some(g) => !caps::spec_has(c, g),
        None => false,
    }
}

/// Whether a reference to `name` is cut under `c`.
pub fn is_cut(name: &[char], c: Caps) -> (r: bool)
    ensures
        r == spec_is_cut(name@, c),
{
    match gate(name) {
        Some(g) => !caps::has(c, g),
        None => false,
    }
}


// ---------------------------------------------------------------------------
// Splitting a module into declarations
// ---------------------------------------------------------------------------

/// `p` stripped off the front of `l`, when it is there.
pub fn strip_prefix(l: &[char], p: &str) -> (r: Option<Vec<char>>)
    ensures
        match r {
            Some(x) => starts_with(l@, p@) && x@ == l@.skip(p@.len() as int),
            None => !starts_with(l@, p@),
        },
{
    if str_at(l, 0, p) {
        let pl = chars_of(p).len();
        Some(slice_chars(l, pl, l.len()))
    } else {
        None
    }
}

/// A line without a leading `export `.
pub open spec fn spec_strip_export(line: Seq<char>) -> Seq<char> {
    if starts_with(line, "export "@) {
        line.skip("export "@.len() as int)
    } else {
        line
    }
}

fn strip_export(line: &[char]) -> (r: Vec<char>)
    ensures
        r@ == spec_strip_export(line@),
{
    match strip_prefix(line, "export ") {
        Some(x) => x,
        None => slice_chars(line, 0, line.len()),
    }
}

/// What follows a declaration keyword, when the line starts with one.
pub open spec fn after_keyword(rest: Seq<char>) -> Option<Seq<char>> {
    if starts_with(rest, "function "@) {
        Some(rest.skip("function "@.len() as int))
    } else if starts_with(rest, "const "@) {
        Some(rest.skip("const "@.len() as int))
    } else if starts_with(rest, "let "@) {
        Some(rest.skip("let "@.len() as int))
    } else if starts_with(rest, "var "@) {
        Some(rest.skip("var "@.len() as int))
    } else if starts_with(rest, "class "@) {
        Some(rest.skip("class "@.len() as int))
    } else {
        None
    }
}

/// The name a line declares: `export function foo(` / `const foo =` give
/// `foo`, when the keyword is in column 0.
pub open spec fn spec_declaration_name(line: Seq<char>) -> Option<Seq<char>> {
    if line.len() > 0 && whitespace(line[0]) {
        None
    } else {
        match after_keyword(spec_strip_export(line)) {
            None => None,
            Some(r) => {
                let t = trim_start(r);
                let name = t.take(word_len(t) as int);
                if name.len() == 0 {
                    None
                } else {
                    Some(name)
                }
            },
        }
    }
}

fn declaration_name(line: &[char]) -> (r: Option<Vec<char>>)
    ensures
        match r {
            Some(n) => spec_declaration_name(line@) == Some(n@),
            None => spec_declaration_name(line@) is None,
        },
{
    if line.len() > 0 && is_whitespace(line[0]) {
        return None;
    }
    let rest = strip_export(line);
    let rest = rest.as_slice();
    let after = match strip_prefix(rest, "function ") {
        Some(x) => x,
        None => match strip_prefix(rest, "const ") {
            Some(x) => x,
            None => match strip_prefix(rest, "let ") {
                Some(x) => x,
                None => match strip_prefix(rest, "var ") {
                    Some(x) => x,
                    None => match strip_prefix(rest, "class ") {
                        Some(x) => x,
                        None => {
                            return None;
                        },
                    },
                },
            },
        },
    };
    let t = trimmed_start(after.as_slice());
    let name = word_prefix(t.as_slice());
    if name.len() == 0 {
        None
    } else {
        Some(name)
    }
}

/// A line that is a comment (or the inside of a block comment).
pub open spec fn comment_line(line: Seq<char>) -> bool {
    let t = trim_start(line);
    starts_with(t, "//"@) || (t.len() > 0 && t[0] == '*') || starts_with(t, "/*"@)
}

fn is_comment_line(line: &[char]) -> (r: bool)
    ensures
        r == comment_line(line@),
{
    let t = trimmed_start(line);
    let t = t.as_slice();
    str_at(t, 0, "//") || (t.len() > 0 && t[0] == '*') || str_at(t, 0, "/*")
}

/// The state of the identifier scan over one line: the words found, the word
/// being read, whether it follows a `.`, and the previous character.
pub open spec fn id_scan(s: Seq<char>, own: Seq<char>) -> (Set<Seq<char>>, Seq<char>, bool, char)
    decreases s.len(),
{
    if s.len() == 0 {
        (Set::empty(), seq![], false, '\0')
    } else {
        let (out, word, member, prev) = id_scan(s.drop_last(), own);
        let ch = s.last();
        if word_char(ch) {
            (out, word.push(ch), if word.len() == 0 { prev == '.' } else { member }, ch)
        } else if word.len() > 0 {
            (
                if !member && word != own && !ascii_digit(word[0]) {
                    out.insert(word)
                } else {
                    out
                },
                seq![],
                member,
                ch,
            )
        } else {
            (out, word, member, ch)
        }
    }
}

/// The identifiers one line references. A word directly after a `.` is a
/// property, not a reference to a top-level binding; a word starting with a
/// digit is a number, except at the very end of the line, where the scan
/// does not look at its first character.
pub open spec fn line_ids(line: Seq<char>, own: Seq<char>) -> Set<Seq<char>> {
    let (out, word, member, _) = id_scan(line, own);
    if word.len() > 0 && !member && word != own {
        out.insert(word)
    } else {
        out
    }
}

/// The identifiers referenced by the lines in `ls`, skipping comment lines.
pub open spec fn ids_of_lines(ls: Seq<Seq<char>>, own: Seq<char>) -> Set<Seq<char>>
    decreases ls.len(),
{
    if ls.len() == 0 {
        Set::empty()
    } else if comment_line(ls.last()) {
        ids_of_lines(ls.drop_last(), own)
    } else {
        ids_of_lines(ls.drop_last(), own).union(line_ids(ls.last(), own))
    }
}

/// The identifiers a declaration's text references, other than its own name.
pub open spec fn spec_identifiers(text: Seq<char>, own: Seq<char>) -> Set<Seq<char>> {
    ids_of_lines(lines(text), own)
}

fn line_words(line: &[char], own: &[char]) -> (r: Vec<Vec<char>>)
    ensures
        views(r@).to_set() == line_ids(line@, own@),
{
    let mut out: Vec<Vec<char>> = Vec::new();
    let mut word: Vec<char> = Vec::new();
    let mut member = false;
    let mut prev = '\0';
    let mut i: usize = 0;
    while i < line.len()
        invariant
            i <= line@.len(),
            id_scan(line@.take(i as int), own@) == (views(out@).to_set(), word@, member, prev),
        decreases line@.len() - i,
    {
        assert(line@.take(i + 1).drop_last() =~= line@.take(i as int));
        let ch = line[i];
        if is_word_char(ch) {
            if word.len() == 0 {
                member = prev == '.';
            }
            word.push(ch);
        } else if word.len() > 0 {
            if !member && !chars_eq(word.as_slice(), own) && !(word[0] >= '0' && word[0] <= '9') {
                let ghost before = out@;
                let ghost w = word@;
                out.push(word);
                proof {
                    assert(views(out@) =~= views(before).push(w));
                    views(before).lemma_push_to_set_commute(w);
                }
            }
            word = Vec::new();
        }
        prev = ch;
        i += 1;
    }
    assert(line@.take(line@.len() as int) =~= line@);
    if word.len() > 0 && !member && !chars_eq(word.as_slice(), own) {
        let ghost before = out@;
        let ghost w = word@;
        out.push(word);
        proof {
            assert(views(out@) =~= views(before).push(w));
            views(before).lemma_push_to_set_commute(w);
        }
    }
    out
}

/// Identifiers referenced by a declaration's body. Whole-line comments are
/// skipped so a doc comment naming a symbol does not keep it alive.
fn identifiers(text: &[char], own: &[char]) -> (r: Vec<Vec<char>>)
    ensures
        views(r@).to_set() == spec_identifiers(text@, own@),
{
    let ls = split_lines(text);
    let mut out: Vec<Vec<char>> = Vec::new();
    let mut i: usize = 0;
    while i < ls.len()
        invariant
            i <= ls@.len(),
            views(ls@) == lines(text@),
            views(out@).to_set() == ids_of_lines(views(ls@).take(i as int), own@),
        decreases ls@.len() - i,
    {
        assert(views(ls@).take(i + 1).drop_last() =~= views(ls@).take(i as int));
        assert(views(ls@).take(i + 1).last() == ls@[i as int]@);
        let line = ls[i].as_slice();
        if !is_comment_line(line) {
            let found = line_words(line, own);
            let ghost before = out@;
            let mut k: usize = 0;
            while k < found.len()
                invariant
                    k <= found@.len(),
                    views(out@).to_set() == views(before).to_set().union(views(found@).take(k as int).to_set()),
                decreases found@.len() - k,
            {
                let ghost o = out@;
                let w = slice_chars(found[k].as_slice(), 0, found[k].len());
                assert(w@ =~= found@[k as int]@);
                out.push(w);
                proof {
                    assert(views(out@) =~= views(o).push(w@));
                    views(o).lemma_push_to_set_commute(w@);
                    assert(views(found@).take(k + 1) =~= views(found@).take(k as int).push(w@));
                    views(found@).take(k as int).lemma_push_to_set_commute(w@);
                    assert(views(out@).to_set() =~= views(before).to_set().union(views(found@).take(k + 1).to_set()));
                }
                k += 1;
            }
            assert(views(found@).take(found@.len() as int) =~= views(found@));
        }
        i += 1;
    }
    assert(views(ls@).take(ls@.len() as int) =~= views(ls@));
    out
}


/// The declarations finished so far, with `cur` appended when there is one.
pub open spec fn flushed(out: Seq<DeclV>, cur: Option<(Seq<char>, Seq<char>)>) -> Seq<DeclV> {
    match cur {
        Some((n, t)) => out.push(DeclV { name: n, text: t, refs: spec_identifiers(t, n) }),
        None => out,
    }
}

/// One line of the declaration splitter: the declarations finished, the
/// comment block waiting for the next declaration, and the declaration being
/// read (its name and text).
pub open spec fn decl_step(
    st: (Seq<DeclV>, Seq<char>, Option<(Seq<char>, Seq<char>)>),
    line: Seq<char>,
) -> (Seq<DeclV>, Seq<char>, Option<(Seq<char>, Seq<char>)>) {
    let (out, pending, cur) = st;
    match spec_declaration_name(line) {
        Some(name) => (
            flushed(out, cur),
            seq![],
            Some((name, pending + spec_strip_export(line) + seq!['\n'])),
        ),
        None => {
            let t = trim_start(line);
            if starts_with(t, "import "@) || starts_with(t, "export {"@) {
                st
            } else {
                match cur {
                    Some((n, text)) => if comment_line(line) || (t.len() == 0 && pending.len() > 0) {
                        (out, pending + line + seq!['\n'], cur)
                    } else {
                        (out, seq![], Some((n, text + pending + line + seq!['\n'])))
                    },
                    None => if t.len() == 0 || comment_line(line) {
                        (out, pending + line + seq!['\n'], None)
                    } else {
                        st
                    },
                }
            }
        },
    }
}

/// The splitter's state after the lines in `ls`.
pub open spec fn decl_scan(ls: Seq<Seq<char>>) -> (Seq<DeclV>, Seq<char>, Option<(Seq<char>, Seq<char>)>)
    decreases ls.len(),
{
    if ls.len() == 0 {
        (seq![], seq![], None)
    } else {
        decl_step(decl_scan(ls.drop_last()), ls.last())
    }
}

/// The top-level declarations of a module's source.
///
/// Every top-level declaration starts in column 0 and everything belonging to
/// it is indented or is its closing brace, so a declaration is the line that
/// names it and the lines after it, up to the next such line. Each carries the
/// comment block that precedes it: comment lines met after a declaration wait,
/// with any blank lines among them, and go to the next declaration — or back
/// into the current one when more of its body follows. A blank line with no
/// comment waiting stays with the declaration it follows. Before the first
/// declaration every comment and blank line is its header. A trailing comment
/// block belongs to nothing and is dropped; so are `import` and `export {`
/// lines, the `export` keyword, and any other column-0 line before the first
/// declaration.
pub open spec fn spec_declarations(src: Seq<char>) -> Seq<DeclV> {
    let (out, _, cur) = decl_scan(lines(src));
    flushed(out, cur)
}

fn flush(out: &mut Vec<Decl>, cur: Option<(Vec<char>, Vec<char>)>)
    ensures
        decl_views(final(out)@) == flushed(
            decl_views(old(out)@),
            match cur {
                Some((n, t)) => Some((n@, t@)),
                None => None,
            },
        ),
{
    match cur {
        Some((name, text)) => {
            let refs = identifiers(text.as_slice(), name.as_slice());
            let d = Decl { name: string_of(name.as_slice()), text: string_of(text.as_slice()), refs };
            let ghost before = out@;
            out.push(d);
            assert(decl_views(out@) =~= decl_views(before).push(d@));
        },
        None => {},
    }
}

/// Split a module's source into top-level declarations.
///
/// Runtime modules are formatted so that every top-level declaration starts in
/// column 0 and everything belonging to it is indented (or is its closing
/// brace). Anything else in column 0 is a comment, a blank line, or module
/// syntax.
pub fn declarations(src: &str) -> (r: Vec<Decl>)
    ensures
        decl_views(r@) == spec_declarations(src@),
{
    let chars = chars_of(src);
    let ls = split_lines(chars.as_slice());
    let mut out: Vec<Decl> = Vec::new();
    let mut pending: Vec<char> = Vec::new();
    let mut current: Option<(Vec<char>, Vec<char>)> = None;
    let mut i: usize = 0;
    while i < ls.len()
        invariant
            i <= ls@.len(),
            views(ls@) == lines(src@),
            decl_scan(views(ls@).take(i as int)) == (
                decl_views(out@),
                pending@,
                match current {
                    Some((n, t)) => Some((n@, t@)),
                    None => None,
                },
            ),
        decreases ls@.len() - i,
    {
        assert(views(ls@).take(i + 1).drop_last() =~= views(ls@).take(i as int));
        assert(views(ls@).take(i + 1).last() == ls@[i as int]@);
        let line = ls[i].as_slice();
        match declaration_name(line) {
            Some(name) => {
                let cur = current;
                flush(&mut out, cur);
                let mut text = pending;
                pending = Vec::new();
                let stripped = strip_export(line);
                let ghost t0 = text@;
                text.append(&mut stripped.clone());
                text.push('\n');
                assert(text@ =~= t0 + stripped@ + seq!['\n']);
                current = Some((name, text));
            },
            None => {
                let t = trimmed_start(line);
                if str_at(t.as_slice(), 0, "import ") || str_at(t.as_slice(), 0, "export {") {
                } else {
                    match current {
                        Some((n, mut text)) => {
                            if is_comment_line(line) || (t.len() == 0 && pending.len() > 0) {
                                let ghost p0 = pending@;
                                let mut l = slice_chars(line, 0, line.len());
                                pending.append(&mut l);
                                pending.push('\n');
                                assert(pending@ =~= p0 + line@ + seq!['\n']);
                                current = Some((n, text));
                            } else {
                                let ghost t0 = text@;
                                let ghost p0 = pending@;
                                text.append(&mut pending);
                                let mut l = slice_chars(line, 0, line.len());
                                text.append(&mut l);
                                text.push('\n');
                                assert(text@ =~= t0 + p0 + line@ + seq!['\n']);
                                pending = Vec::new();
                                assert(pending@ =~= Seq::<char>::empty());
                                current = Some((n, text));
                            }
                        },
                        None => {
                            if t.len() == 0 || is_comment_line(line) {
                                let ghost p0 = pending@;
                                let mut l = slice_chars(line, 0, line.len());
                                pending.append(&mut l);
                                pending.push('\n');
                                assert(pending@ =~= p0 + line@ + seq!['\n']);
                            }
                            current = None;
                        },
                    }
                }
            },
        }
        i += 1;
    }
    assert(views(ls@).take(ls@.len() as int) =~= views(ls@));
    flush(&mut out, current);
    out
}


// ---------------------------------------------------------------------------
// Reachability
// ---------------------------------------------------------------------------

/// The last declaration among the first `n` that is named `name`.
pub open spec fn last_named(ds: Seq<DeclV>, name: Seq<char>, n: int) -> Option<int>
    decreases n,
{
    if n <= 0 {
        None
    } else if ds[n - 1].name == name {
        Some(n - 1)
    } else {
        last_named(ds, name, n - 1)
    }
}

/// The declaration a reference to `name` resolves to: the last one of that
/// name, as a name-keyed map built in order would keep it.
pub open spec fn target(ds: Seq<DeclV>, name: Seq<char>) -> Option<int> {
    last_named(ds, name, ds.len() as int)
}

/// Whether declaration `i` references declaration `j` along an edge that is
/// not cut under `c`.
pub open spec fn edge(ds: Seq<DeclV>, c: Caps, i: int, j: int) -> bool {
    exists|r: Seq<char>| #[trigger] ds[i].refs.contains(r) && !spec_is_cut(r, c) && target(ds, r) == Some(j)
}

/// Whether declaration `j` is what one of the roots names.
pub open spec fn is_root(ds: Seq<DeclV>, roots: Seq<Seq<char>>, j: int) -> bool {
    exists|k: int| 0 <= k < roots.len() && target(ds, #[trigger] roots[k]) == Some(j)
}

/// A walk through the declaration graph that starts at a root.
pub open spec fn is_walk(ds: Seq<DeclV>, roots: Seq<Seq<char>>, c: Caps, p: Seq<int>) -> bool {
    &&& p.len() > 0
    &&& is_root(ds, roots, p[0])
    &&& forall|k: int| 0 <= k < p.len() - 1 ==> edge(ds, c, #[trigger] p[k], p[k + 1])
}

/// Whether declaration `j` is reachable from the roots.
pub open spec fn reachable(ds: Seq<DeclV>, roots: Seq<Seq<char>>, c: Caps, j: int) -> bool {
    exists|p: Seq<int>| #[trigger] is_walk(ds, roots, c, p) && p.last() == j
}

/// The reachable declarations among the first `n`, in their original order.
pub open spec fn kept(ds: Seq<DeclV>, roots: Seq<Seq<char>>, c: Caps, n: int) -> Seq<DeclV>
    decreases n,
{
    if n <= 0 {
        seq![]
    } else if reachable(ds, roots, c, n - 1) {
        kept(ds, roots, c, n - 1).push(ds[n - 1])
    } else {
        kept(ds, roots, c, n - 1)
    }
}

/// Whether `s` holds every declaration a root names and everything a member
/// of `s` references along an uncut edge.
pub open spec fn closed(ds: Seq<DeclV>, roots: Seq<Seq<char>>, c: Caps, s: Set<int>) -> bool {
    &&& forall|j: int| #[trigger] is_root(ds, roots, j) ==> s.contains(j)
    &&& forall|i: int, j: int| s.contains(i) && #[trigger] edge(ds, c, i, j) ==> s.contains(j)
}

proof fn lemma_walk_inside(ds: Seq<DeclV>, roots: Seq<Seq<char>>, c: Caps, s: Set<int>, p: Seq<int>, k: int)
    requires
        closed(ds, roots, c, s),
        is_walk(ds, roots, c, p),
        0 <= k < p.len(),
    ensures
        s.contains(p[k]),
    decreases k,
{
    if k > 0 {
        lemma_walk_inside(ds, roots, c, s, p, k - 1);
        assert(edge(ds, c, p[k - 1], p[k]));
    }
}

/// What shaking keeps is the least closed set: the declarations the roots
/// name are kept, whatever a kept declaration references along an uncut edge
/// is kept, and any set with those two properties holds everything kept.
pub proof fn lemma_reachable_is_least_closed(ds: Seq<DeclV>, roots: Seq<Seq<char>>, c: Caps, s: Set<int>)
    ensures
        closed(ds, roots, c, Set::new(|j: int| reachable(ds, roots, c, j))),
        closed(ds, roots, c, s) ==> forall|j: int| #[trigger] reachable(ds, roots, c, j) ==> s.contains(j),
{
    let r = Set::new(|j: int| reachable(ds, roots, c, j));
    assert forall|j: int| #[trigger] is_root(ds, roots, j) implies r.contains(j) by {
        let p = seq![j];
        assert(is_walk(ds, roots, c, p));
    }
    assert forall|i: int, j: int| r.contains(i) && #[trigger] edge(ds, c, i, j) implies r.contains(j) by {
        let p = choose|p: Seq<int>| #[trigger] is_walk(ds, roots, c, p) && p.last() == i;
        let q = p.push(j);
        assert forall|k: int| 0 <= k < q.len() - 1 implies edge(ds, c, #[trigger] q[k], q[k + 1]) by {
            if k < p.len() - 1 {
                assert(q[k] == p[k] && q[k + 1] == p[k + 1]);
            } else {
                assert(q[k] == i && q[k + 1] == j);
            }
        }
        assert(is_walk(ds, roots, c, q));
        assert(q.last() == j);
    }
    if closed(ds, roots, c, s) {
        assert forall|j: int| #[trigger] reachable(ds, roots, c, j) implies s.contains(j) by {
            let p = choose|p: Seq<int>| #[trigger] is_walk(ds, roots, c, p) && p.last() == j;
            lemma_walk_inside(ds, roots, c, s, p, p.len() - 1);
        }
    }
}

/// Shaking keeps more, never less, when more roots are asked for or more
/// capabilities are granted: a declaration reachable from some roots under
/// some capabilities stays reachable from any roots that include them, under
/// any capabilities that grant at least as much.
pub proof fn lemma_shake_grows(
    ds: Seq<DeclV>,
    r1: Seq<Seq<char>>,
    c1: Caps,
    r2: Seq<Seq<char>>,
    c2: Caps,
    j: int,
)
    requires
        forall|k: int| 0 <= k < r1.len() ==> r2.contains(#[trigger] r1[k]),
        forall|g: Caps| #[trigger] caps::spec_has(c1, g) ==> caps::spec_has(c2, g),
        reachable(ds, r1, c1, j),
    ensures
        reachable(ds, r2, c2, j),
{
    let p = choose|p: Seq<int>| #[trigger] is_walk(ds, r1, c1, p) && p.last() == j;
    let k = choose|k: int| 0 <= k < r1.len() && target(ds, #[trigger] r1[k]) == Some(p[0]);
    assert(r2.contains(r1[k]));
    let k2 = choose|k2: int| 0 <= k2 < r2.len() && r2[k2] == r1[k];
    assert(target(ds, r2[k2]) == Some(p[0]));
    assert(is_root(ds, r2, p[0]));
    assert forall|i: int| 0 <= i < p.len() - 1 implies edge(ds, c2, #[trigger] p[i], p[i + 1]) by {
        assert(edge(ds, c1, p[i], p[i + 1]));
        let r = choose|r: Seq<char>| #[trigger] ds[p[i]].refs.contains(r) && !spec_is_cut(r, c1) && target(ds, r) == Some(
            p[i + 1],
        );
        match spec_gate(r) {
            Some(g) => {
                assert(caps::spec_has(c1, g));
            },
            None => {},
        }
        assert(!spec_is_cut(r, c2));
    }
    assert(is_walk(ds, r2, c2, p));
}

/// The number of `false` entries.
pub open spec fn count_false(s: Seq<bool>) -> nat
    decreases s.len(),
{
    if s.len() == 0 {
        0
    } else {
        count_false(s.drop_last()) + if s.last() { 0nat } else { 1nat }
    }
}

proof fn lemma_count_false_update(s: Seq<bool>, j: int)
    requires
        0 <= j < s.len(),
        !s[j],
    ensures
        count_false(s.update(j, true)) + 1 == count_false(s),
    decreases s.len(),
{
    if j < s.len() - 1 {
        assert(s.update(j, true).drop_last() =~= s.drop_last().update(j, true));
        lemma_count_false_update(s.drop_last(), j);
    } else {
        assert(s.update(j, true).drop_last() =~= s.drop_last());
    }
}

/// Every node of a walk is live when the live set holds the roots and is
/// closed under edges.
proof fn lemma_walk_live(ds: Seq<DeclV>, roots: Seq<Seq<char>>, c: Caps, live: Seq<bool>, p: Seq<int>)
    requires
        live.len() == ds.len(),
        is_walk(ds, roots, c, p),
        forall|j: int| 0 <= j < ds.len() && is_root(ds, roots, j) ==> live[j],
        forall|i: int, j: int|
            0 <= i < ds.len() && 0 <= j < ds.len() && live[i] && #[trigger] edge(ds, c, i, j) ==> live[j],
    ensures
        0 <= p.last() < ds.len(),
        live[p.last()],
    decreases p.len(),
{
    if p.len() == 1 {
        let k = choose|k: int| 0 <= k < roots.len() && target(ds, #[trigger] roots[k]) == Some(p[0]);
        lemma_last_named_range(ds, roots[k], ds.len() as int);
    } else {
        let q = p.drop_last();
        assert forall|k: int| 0 <= k < q.len() - 1 implies edge(ds, c, #[trigger] q[k], q[k + 1]) by {
            assert(q[k] == p[k] && q[k + 1] == p[k + 1]);
        }
        lemma_walk_live(ds, roots, c, live, q);
        let n = p.len() - 2;
        assert(edge(ds, c, p[n], p[n + 1]));
        let r = choose|r: Seq<char>| #[trigger] ds[p[n]].refs.contains(r) && !spec_is_cut(r, c) && target(ds, r) == Some(p[n + 1]);
        lemma_last_named_range(ds, r, ds.len() as int);
    }
}

proof fn lemma_last_named_range(ds: Seq<DeclV>, name: Seq<char>, n: int)
    requires
        n <= ds.len(),
    ensures
        match last_named(ds, name, n) {
            Some(j) => 0 <= j < n && ds[j].name == name,
            None => true,
        },
    decreases n,
{
    if n > 0 && ds[n - 1].name != name {
        lemma_last_named_range(ds, name, n - 1);
    }
}

/// The index of the last declaration named `name`.
fn find_target(names: &Vec<Vec<char>>, name: &[char]) -> (r: Option<usize>)
    ensures
        match r {
            Some(j) => j < names@.len() && last_named_in(views(names@), name@, names@.len() as int) == Some(j as int),
            None => last_named_in(views(names@), name@, names@.len() as int) is None,
        },
{
    let mut n = names.len();
    while n > 0
        invariant
            n <= names@.len(),
            last_named_in(views(names@), name@, names@.len() as int) == last_named_in(views(names@), name@, n as int),
        decreases n,
    {
        if chars_eq(names[n - 1].as_slice(), name) {
            return Some(n - 1);
        }
        n -= 1;
    }
    None
}

/// [`last_named`] over the names alone.
pub open spec fn last_named_in(names: Seq<Seq<char>>, name: Seq<char>, n: int) -> Option<int>
    decreases n,
{
    if n <= 0 {
        None
    } else if names[n - 1] == name {
        Some(n - 1)
    } else {
        last_named_in(names, name, n - 1)
    }
}

proof fn lemma_last_named_in(ds: Seq<DeclV>, names: Seq<Seq<char>>, name: Seq<char>, n: int)
    requires
        names.len() == ds.len(),
        n <= ds.len(),
        forall|j: int| 0 <= j < ds.len() ==> names[j] == #[trigger] ds[j].name,
    ensures
        last_named_in(names, name, n) == last_named(ds, name, n),
    decreases n,
{
    if n > 0 {
        lemma_last_named_in(ds, names, name, n - 1);
    }
}


/// The views of the root names.
pub open spec fn root_views(roots: Seq<&str>) -> Seq<Seq<char>> {
    roots.map_values(|r: &str| r@)
}

/// Retain the declarations reachable from `roots`, in their original order.
///
/// A declaration is reachable when a root names it, or when a reachable
/// declaration references it along an edge the capabilities do not cut. A
/// name resolves to the last declaration that carries it.
pub fn shake(decls: Vec<Decl>, roots: &[&str], c: Caps) -> (r: Vec<Decl>)
    ensures
        decl_views(r@) == kept(decl_views(decls@), root_views(roots@), c, decls@.len() as int),
{
    let ghost ds = decl_views(decls@);
    let ghost rs = root_views(roots@);
    let n = decls.len();

    let mut names: Vec<Vec<char>> = Vec::new();
    let mut live: Vec<bool> = Vec::new();
    let mut i: usize = 0;
    while i < n
        invariant
            n == decls@.len(),
            ds == decl_views(decls@),
            i <= n,
            names@.len() == i,
            live@.len() == i,
            forall|j: int| 0 <= j < i ==> views(names@)[j] == #[trigger] ds[j].name,
            forall|j: int| 0 <= j < i ==> !live@[j],
        decreases n - i,
    {
        names.push(chars_of(decls[i].name.as_str()));
        live.push(false);
        i += 1;
    }
    proof {
        assert(live@ =~= Seq::new(n as nat, |j: int| false));
        lemma_count_false_all(live@);
    }
    let ghost mut dead: nat = n as nat;
    let mut stack: Vec<usize> = Vec::new();

    let mut k: usize = 0;
    while k < roots.len()
        invariant
            n == decls@.len(),
            ds == decl_views(decls@),
            rs == root_views(roots@),
            names@.len() == n,
            live@.len() == n,
            forall|j: int| 0 <= j < n ==> views(names@)[j] == #[trigger] ds[j].name,
            k <= roots@.len(),
            dead == count_false(live@),
            forall|j: int| 0 <= j < n && #[trigger] live@[j] ==> reachable(ds, rs, c, j),
            forall|q: int| 0 <= q < stack@.len() ==> #[trigger] stack@[q] < n && live@[stack@[q] as int],
            forall|a: int, b: int| 0 <= a < b < stack@.len() ==> stack@[a] != stack@[b],
            forall|m: int| 0 <= m < n && live@[m] ==> #[trigger] stack@.contains(m as usize),
            forall|kk: int| 0 <= kk < k ==> match #[trigger] target(ds, rs[kk]) {
                Some(j) => 0 <= j < n && live@[j],
                None => true,
            },
        decreases roots@.len() - k,
    {
        let rc = chars_of(roots[k]);
        proof {
            lemma_last_named_in(ds, views(names@), rc@, n as int);
            lemma_last_named_range(ds, rc@, n as int);
            assert(rs[k as int] == rc@);
        }
        match find_target(&names, rc.as_slice()) {
            Some(j) => {
                if !live[j] {
                    proof {
                        lemma_count_false_update(live@, j as int);
                        dead = (dead - 1) as nat;
                        let p = seq![j as int];
                        assert(is_root(ds, rs, p[0]));
                        assert(is_walk(ds, rs, c, p));
                    }
                    live.set(j, true);
                    stack.push(j);
                }
            },
            None => {},
        }
        k += 1;
    }

    loop
        invariant
            n == decls@.len(),
            ds == decl_views(decls@),
            rs == root_views(roots@),
            names@.len() == n,
            live@.len() == n,
            forall|j: int| 0 <= j < n ==> views(names@)[j] == #[trigger] ds[j].name,
            dead == count_false(live@),
            forall|j: int| 0 <= j < n && #[trigger] live@[j] ==> reachable(ds, rs, c, j),
            forall|q: int| 0 <= q < stack@.len() ==> #[trigger] stack@[q] < n && live@[stack@[q] as int],
            forall|a: int, b: int| 0 <= a < b < stack@.len() ==> stack@[a] != stack@[b],
            forall|j: int| 0 <= j < n && is_root(ds, rs, j) ==> #[trigger] live@[j],
            forall|m: int, j: int|
                0 <= m < n && 0 <= j < n && live@[m] && !stack@.contains(m as usize) && #[trigger] edge(ds, c, m, j)
                    ==> live@[j],
        ensures
            live@.len() == n,
            forall|j: int| 0 <= j < n && #[trigger] live@[j] ==> reachable(ds, rs, c, j),
            forall|j: int| 0 <= j < n && is_root(ds, rs, j) ==> #[trigger] live@[j],
            forall|m: int, j: int| 0 <= m < n && 0 <= j < n && live@[m] && #[trigger] edge(ds, c, m, j) ==> live@[j],
        decreases dead, stack@.len(),
    {
        proof {
            if stack@.len() == 0 {
                assert forall|m: int, j: int|
                    0 <= m < n && 0 <= j < n && live@[m] && #[trigger] edge(ds, c, m, j) implies live@[j] by {
                    assert(!stack@.contains(m as usize));
                }
            }
        }
        let ghost dead0 = dead;
        let ghost len0 = stack@.len();
        let ghost stack0 = stack@;
        match stack.pop() {
            None => {
                break;
            },
            Some(i) => {
                let ghost walk_i = choose|p: Seq<int>| #[trigger] is_walk(ds, rs, c, p) && p.last() == i as int;
                let nr = decls[i].refs.len();
                let mut kk: usize = 0;
                while kk < nr
                    invariant
                        n == decls@.len(),
                        ds == decl_views(decls@),
                        rs == root_views(roots@),
                        i < n,
                        live@[i as int],
                        is_walk(ds, rs, c, walk_i) && walk_i.last() == i as int,
                        nr == decls@[i as int].refs@.len(),
                        kk <= nr,
                        names@.len() == n,
                        live@.len() == n,
                        forall|j: int| 0 <= j < n ==> views(names@)[j] == #[trigger] ds[j].name,
                        dead == count_false(live@),
                        dead0 == dead || dead0 > dead,
                        dead0 == dead ==> stack@ == stack0.drop_last(),
                        forall|j: int| 0 <= j < n && #[trigger] live@[j] ==> reachable(ds, rs, c, j),
                        forall|q: int| 0 <= q < stack@.len() ==> #[trigger] stack@[q] < n && live@[stack@[q] as int],
                        forall|a: int, b: int| 0 <= a < b < stack@.len() ==> stack@[a] != stack@[b],
                        forall|j: int| 0 <= j < n && is_root(ds, rs, j) ==> #[trigger] live@[j],
                        forall|m: int, j: int|
                            0 <= m < n && 0 <= j < n && m != i && live@[m] && !stack@.contains(m as usize) && #[trigger] edge(ds, c, m, j)
                                ==> live@[j],
                        forall|q: int| 0 <= q < kk ==> {
                            let r = #[trigger] views(decls@[i as int].refs@)[q];
                            !spec_is_cut(r, c) ==> match target(ds, r) {
                                Some(j) => 0 <= j < n && live@[j],
                                None => true,
                            }
                        },
                    decreases nr - kk,
                {
                    let r = decls[i].refs[kk].as_slice();
                    proof {
                        lemma_last_named_in(ds, views(names@), r@, n as int);
                        lemma_last_named_range(ds, r@, n as int);
                    }
                    if !is_cut(r, c) {
                        match find_target(&names, r) {
                            Some(j) => {
                                if !live[j] {
                                    proof {
                                        lemma_count_false_update(live@, j as int);
                                        dead = (dead - 1) as nat;
                                        let p = walk_i.push(j as int);
                                        assert(ds[i as int].refs.contains(r@)) by {
                                            assert(views(decls@[i as int].refs@)[kk as int] == r@);
                                        }
                                        assert(edge(ds, c, i as int, j as int));
                                        assert forall|q: int| 0 <= q < p.len() - 1 implies edge(ds, c, #[trigger] p[q], p[q + 1]) by {
                                            if q < p.len() - 2 {
                                                assert(p[q] == walk_i[q] && p[q + 1] == walk_i[q + 1]);
                                            }
                                        }
                                        assert(is_walk(ds, rs, c, p));
                                    }
                                    live.set(j, true);
                                    stack.push(j);
                                }
                            },
                            None => {},
                        }
                    }
                    kk += 1;
                }
                proof {
                    assert forall|j: int| 0 <= j < n && #[trigger] edge(ds, c, i as int, j) implies live@[j] by {
                        let r = choose|r: Seq<char>| #[trigger] ds[i as int].refs.contains(r) && !spec_is_cut(r, c) && target(ds, r) == Some(j);
                        let q = choose|q: int| 0 <= q < views(decls@[i as int].refs@).len() && views(decls@[i as int].refs@)[q] == r;
                    }
                    if dead0 == dead {
                        assert(stack@.len() < len0);
                    }
                }
            },
        }
    }

    proof {
        assert forall|j: int| 0 <= j < n implies (#[trigger] live@[j] <==> reachable(ds, rs, c, j)) by {
            if reachable(ds, rs, c, j) {
                let p = choose|p: Seq<int>| #[trigger] is_walk(ds, rs, c, p) && p.last() == j;
                lemma_walk_live(ds, rs, c, live@, p);
            }
        }
    }
    let mut out: Vec<Decl> = Vec::new();
    let mut i: usize = 0;
    while i < n
        invariant
            n == decls@.len(),
            ds == decl_views(decls@),
            rs == root_views(roots@),
            live@.len() == n,
            i <= n,
            forall|j: int| 0 <= j < n ==> (#[trigger] live@[j] <==> reachable(ds, rs, c, j)),
            decl_views(out@) == kept(ds, rs, c, i as int),
        decreases n - i,
    {
        if live[i] {
            let d = decls[i].duplicate();
            let ghost before = out@;
            out.push(d);
            assert(decl_views(out@) =~= decl_views(before).push(d@));
        }
        i += 1;
    }
    out
}

proof fn lemma_count_false_all(s: Seq<bool>)
    requires
        forall|j: int| 0 <= j < s.len() ==> !s[j],
    ensures
        count_false(s) == s.len(),
    decreases s.len(),
{
    if s.len() > 0 {
        lemma_count_false_all(s.drop_last());
    }
}

} // verus!
