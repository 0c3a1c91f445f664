//! The `skia-aot` target: a React Native module for react-native-skia +
//! react-native-reanimated.
//!
//! Same wire, different write point — again. Instead of a react-native-svg
//! component tree, the baked markup lowers at compile time to a display-list
//! descriptor that the draw walker turns into one picture, so a player mounts a
//! single native canvas regardless of animation size. The tree is first
//! restructured by the rn passes, because the flattened form is
//! target-neutral.

pub mod lower;

use vstd::prelude::*;
use crate::backend::emit::Mod;
use crate::backend::rn::{attr_views, node_view, spec_supported, Node};
use crate::backend::shake::{decl_views, Decl};
use crate::caps::{Caps, FX, GRADIENT, RAMP};
use crate::text::{chars_of, decimal, decimal_string, push_chars, push_str, str_eq};

verus! {

broadcast use vstd::seq_lib::group_seq_properties;

/// The rn whitelist plus what react-native-svg cannot express: animated
/// gradient geometry, keyframed colour ramps and animated layer-effect
/// parameters.
pub fn supported() -> (r: Caps)
    ensures
        r == spec_supported() | GRADIENT | RAMP | FX,
{
    crate::backend::rn::supported() | GRADIENT | RAMP | FX
}

/// The web runtime's declarations with the Skia override modules swapped in.
pub fn skia_declarations(web: &[Mod], skia_mods: &[Mod]) -> (r: Vec<Decl>)
    ensures
        decl_views(r@) == crate::backend::rn::spec_declarations_with(web@, skia_mods@),
{
    crate::backend::rn::declarations_with(web, skia_mods)
}

/// The names the reachable Skia runtime declares, in dependency order.
pub open spec fn spec_symbols(web: Seq<Mod>, skia_mods: Seq<Mod>, roots: Seq<Seq<char>>, c: Caps) -> Seq<char> {
    let ds = crate::backend::rn::spec_declarations_with(web, skia_mods);
    crate::text::joined(
        crate::backend::shake::kept(ds, roots, c, ds.len() as int).map_values(|d: crate::backend::shake::DeclV| d.name),
        ", "@,
    )
}

/// The names the Skia module's shaken runtime declares, comma-separated.
pub fn symbols(web: &[Mod], skia_mods: &[Mod], roots: &[&str], c: Caps) -> (r: String)
    ensures
        r@ == spec_symbols(web@, skia_mods@, crate::backend::shake::root_views(roots@), c),
{
    let ds = skia_declarations(web, skia_mods);
    let kept = crate::backend::shake::shake(ds, roots, c);
    let ghost ks = decl_views(kept@);
    let mut names: Vec<String> = Vec::new();
    let mut i: usize = 0;
    while i < kept.len()
        invariant
            ks == decl_views(kept@),
            i <= kept@.len(),
            crate::text::string_views(names@) == ks.take(i as int).map_values(|d: crate::backend::shake::DeclV| d.name),
        decreases kept@.len() - i,
    {
        let ghost o = crate::text::string_views(names@);
        let mut n = String::new();
        push_str(&mut n, kept[i].name.as_str());
        names.push(n);
        assert(crate::text::string_views(names@) =~= o.push(ks[i as int].name));
        assert(ks.take(i + 1).map_values(|d: crate::backend::shake::DeclV| d.name) =~= ks.take(i as int).map_values(
            |d: crate::backend::shake::DeclV| d.name,
        ).push(ks[i as int].name));
        i += 1;
    }
    assert(ks.take(kept@.len() as int) =~= ks);
    let mut out = String::new();
    crate::text::push_joined_strings(&mut out, names.as_slice(), ", ");
    out
}

// ---------------------------------------------------------------------------
// Attribute values
// ---------------------------------------------------------------------------

/// The value of the first attribute named `key`.
pub open spec fn first_attr(attrs: Seq<(Seq<char>, Seq<char>)>, key: Seq<char>, i: int) -> Option<Seq<char>>
    decreases attrs.len() - i,
{
    if i < 0 || i >= attrs.len() {
        None
    } else if attrs[i].0 == key {
        Some(attrs[i].1)
    } else {
        first_attr(attrs, key, i + 1)
    }
}

/// The value of a node's first attribute named `key`.
pub fn attr<'n>(n: &'n Node, key: &str) -> (r: Option<&'n str>)
    ensures
        match first_attr(attr_views(n.attrs@), key@, 0) {
            Some(v) => r matches Some(x) && x@ == v,
            None => r is None,
        },
{
    let ghost a = attr_views(n.attrs@);
    let mut i: usize = 0;
    while i < n.attrs.len()
        invariant
            a == attr_views(n.attrs@),
            i <= n.attrs@.len(),
            first_attr(a, key@, 0) == first_attr(a, key@, i as int),
        decreases n.attrs@.len() - i,
    {
        if str_eq(n.attrs[i].0.as_str(), key) {
            return Some(n.attrs[i].1.as_str());
        }
        i += 1;
    }
    None
}

/// The Skia `BlendMode` value of a CSS `mix-blend-mode` keyword (the fifteen
/// the web emitter writes).
pub open spec fn spec_blend_mode(kw: Seq<char>) -> Option<u32> {
    if kw == "multiply"@ { Some(24) }
    else if kw == "screen"@ { Some(14) }
    else if kw == "overlay"@ { Some(15) }
    else if kw == "darken"@ { Some(16) }
    else if kw == "lighten"@ { Some(17) }
    else if kw == "color-dodge"@ { Some(18) }
    else if kw == "color-burn"@ { Some(19) }
    else if kw == "hard-light"@ { Some(20) }
    else if kw == "soft-light"@ { Some(21) }
    else if kw == "difference"@ { Some(22) }
    else if kw == "exclusion"@ { Some(23) }
    else if kw == "hue"@ { Some(25) }
    else if kw == "saturation"@ { Some(26) }
    else if kw == "color"@ { Some(27) }
    else if kw == "luminosity"@ { Some(28) }
    else { None }
}

/// Skia's `BlendMode` enum from `kScreen` (14) through `kLuminosity` (28),
/// each value by the CSS keyword that names the same blend. The Porter-Duff
/// modes below 14 have no CSS keyword.
pub open spec fn skia_blend_keyword(b: u32) -> Option<Seq<char>> {
    if b == 14 { Some("screen"@) }
    else if b == 15 { Some("overlay"@) }
    else if b == 16 { Some("darken"@) }
    else if b == 17 { Some("lighten"@) }
    else if b == 18 { Some("color-dodge"@) }
    else if b == 19 { Some("color-burn"@) }
    else if b == 20 { Some("hard-light"@) }
    else if b == 21 { Some("soft-light"@) }
    else if b == 22 { Some("difference"@) }
    else if b == 23 { Some("exclusion"@) }
    else if b == 24 { Some("multiply"@) }
    else if b == 25 { Some("hue"@) }
    else if b == 26 { Some("saturation"@) }
    else if b == 27 { Some("color"@) }
    else if b == 28 { Some("luminosity"@) }
    else { None }
}

/// Every CSS blend keyword becomes the Skia blend mode of the same name, and
/// every Skia blend mode that CSS can name is reached from its keyword.
pub proof fn lemma_blend_modes_keep_their_names(kw: Seq<char>, b: u32)
    ensures
        spec_blend_mode(kw) == Some(b) <==> skia_blend_keyword(b) == Some(kw),
{
    reveal_strlit("multiply");
    reveal_strlit("screen");
    reveal_strlit("overlay");
    reveal_strlit("darken");
    reveal_strlit("lighten");
    reveal_strlit("color-dodge");
    reveal_strlit("color-burn");
    reveal_strlit("hard-light");
    reveal_strlit("soft-light");
    reveal_strlit("difference");
    reveal_strlit("exclusion");
    reveal_strlit("hue");
    reveal_strlit("saturation");
    reveal_strlit("color");
    reveal_strlit("luminosity");
    if b == 24 {
    }
    if b == 14 {
        assert("screen"@ != "multiply"@) by { assert("screen"@.len() != "multiply"@.len()); }
    }
    if b == 15 {
        assert("overlay"@ != "multiply"@) by { assert("overlay"@.len() != "multiply"@.len()); }
        assert("overlay"@ != "screen"@) by { assert("overlay"@.len() != "screen"@.len()); }
    }
    if b == 16 {
        assert("darken"@ != "multiply"@) by { assert("darken"@.len() != "multiply"@.len()); }
        assert("darken"@ != "screen"@) by { assert("darken"@[0] != "screen"@[0]); }
        assert("darken"@ != "overlay"@) by { assert("darken"@.len() != "overlay"@.len()); }
    }
    if b == 17 {
        assert("lighten"@ != "multiply"@) by { assert("lighten"@.len() != "multiply"@.len()); }
        assert("lighten"@ != "screen"@) by { assert("lighten"@.len() != "screen"@.len()); }
        assert("lighten"@ != "overlay"@) by { assert("lighten"@[0] != "overlay"@[0]); }
        assert("lighten"@ != "darken"@) by { assert("lighten"@.len() != "darken"@.len()); }
    }
    if b == 18 {
        assert("color-dodge"@ != "multiply"@) by { assert("color-dodge"@.len() != "multiply"@.len()); }
        assert("color-dodge"@ != "screen"@) by { assert("color-dodge"@.len() != "screen"@.len()); }
        assert("color-dodge"@ != "overlay"@) by { assert("color-dodge"@.len() != "overlay"@.len()); }
        assert("color-dodge"@ != "darken"@) by { assert("color-dodge"@.len() != "darken"@.len()); }
        assert("color-dodge"@ != "lighten"@) by { assert("color-dodge"@.len() != "lighten"@.len()); }
    }
    if b == 19 {
        assert("color-burn"@ != "multiply"@) by { assert("color-burn"@.len() != "multiply"@.len()); }
        assert("color-burn"@ != "screen"@) by { assert("color-burn"@.len() != "screen"@.len()); }
        assert("color-burn"@ != "overlay"@) by { assert("color-burn"@.len() != "overlay"@.len()); }
        assert("color-burn"@ != "darken"@) by { assert("color-burn"@.len() != "darken"@.len()); }
        assert("color-burn"@ != "lighten"@) by { assert("color-burn"@.len() != "lighten"@.len()); }
        assert("color-burn"@ != "color-dodge"@) by { assert("color-burn"@.len() != "color-dodge"@.len()); }
    }
    if b == 20 {
        assert("hard-light"@ != "multiply"@) by { assert("hard-light"@.len() != "multiply"@.len()); }
        assert("hard-light"@ != "screen"@) by { assert("hard-light"@.len() != "screen"@.len()); }
        assert("hard-light"@ != "overlay"@) by { assert("hard-light"@.len() != "overlay"@.len()); }
        assert("hard-light"@ != "darken"@) by { assert("hard-light"@.len() != "darken"@.len()); }
        assert("hard-light"@ != "lighten"@) by { assert("hard-light"@.len() != "lighten"@.len()); }
        assert("hard-light"@ != "color-dodge"@) by { assert("hard-light"@.len() != "color-dodge"@.len()); }
        assert("hard-light"@ != "color-burn"@) by { assert("hard-light"@[0] != "color-burn"@[0]); }
    }
    if b == 21 {
        assert("soft-light"@ != "multiply"@) by { assert("soft-light"@.len() != "multiply"@.len()); }
        assert("soft-light"@ != "screen"@) by { assert("soft-light"@.len() != "screen"@.len()); }
        assert("soft-light"@ != "overlay"@) by { assert("soft-light"@.len() != "overlay"@.len()); }
        assert("soft-light"@ != "darken"@) by { assert("soft-light"@.len() != "darken"@.len()); }
        assert("soft-light"@ != "lighten"@) by { assert("soft-light"@.len() != "lighten"@.len()); }
        assert("soft-light"@ != "color-dodge"@) by { assert("soft-light"@.len() != "color-dodge"@.len()); }
        assert("soft-light"@ != "color-burn"@) by { assert("soft-light"@[0] != "color-burn"@[0]); }
        assert("soft-light"@ != "hard-light"@) by { assert("soft-light"@[0] != "hard-light"@[0]); }
    }
    if b == 22 {
        assert("difference"@ != "multiply"@) by { assert("difference"@.len() != "multiply"@.len()); }
        assert("difference"@ != "screen"@) by { assert("difference"@.len() != "screen"@.len()); }
        assert("difference"@ != "overlay"@) by { assert("difference"@.len() != "overlay"@.len()); }
        assert("difference"@ != "darken"@) by { assert("difference"@.len() != "darken"@.len()); }
        assert("difference"@ != "lighten"@) by { assert("difference"@.len() != "lighten"@.len()); }
        assert("difference"@ != "color-dodge"@) by { assert("difference"@.len() != "color-dodge"@.len()); }
        assert("difference"@ != "color-burn"@) by { assert("difference"@[0] != "color-burn"@[0]); }
        assert("difference"@ != "hard-light"@) by { assert("difference"@[0] != "hard-light"@[0]); }
        assert("difference"@ != "soft-light"@) by { assert("difference"@[0] != "soft-light"@[0]); }
    }
    if b == 23 {
        assert("exclusion"@ != "multiply"@) by { assert("exclusion"@.len() != "multiply"@.len()); }
        assert("exclusion"@ != "screen"@) by { assert("exclusion"@.len() != "screen"@.len()); }
        assert("exclusion"@ != "overlay"@) by { assert("exclusion"@.len() != "overlay"@.len()); }
        assert("exclusion"@ != "darken"@) by { assert("exclusion"@.len() != "darken"@.len()); }
        assert("exclusion"@ != "lighten"@) by { assert("exclusion"@.len() != "lighten"@.len()); }
        assert("exclusion"@ != "color-dodge"@) by { assert("exclusion"@.len() != "color-dodge"@.len()); }
        assert("exclusion"@ != "color-burn"@) by { assert("exclusion"@.len() != "color-burn"@.len()); }
        assert("exclusion"@ != "hard-light"@) by { assert("exclusion"@.len() != "hard-light"@.len()); }
        assert("exclusion"@ != "soft-light"@) by { assert("exclusion"@.len() != "soft-light"@.len()); }
        assert("exclusion"@ != "difference"@) by { assert("exclusion"@.len() != "difference"@.len()); }
    }
    if b == 25 {
        assert("hue"@ != "multiply"@) by { assert("hue"@.len() != "multiply"@.len()); }
        assert("hue"@ != "screen"@) by { assert("hue"@.len() != "screen"@.len()); }
        assert("hue"@ != "overlay"@) by { assert("hue"@.len() != "overlay"@.len()); }
        assert("hue"@ != "darken"@) by { assert("hue"@.len() != "darken"@.len()); }
        assert("hue"@ != "lighten"@) by { assert("hue"@.len() != "lighten"@.len()); }
        assert("hue"@ != "color-dodge"@) by { assert("hue"@.len() != "color-dodge"@.len()); }
        assert("hue"@ != "color-burn"@) by { assert("hue"@.len() != "color-burn"@.len()); }
        assert("hue"@ != "hard-light"@) by { assert("hue"@.len() != "hard-light"@.len()); }
        assert("hue"@ != "soft-light"@) by { assert("hue"@.len() != "soft-light"@.len()); }
        assert("hue"@ != "difference"@) by { assert("hue"@.len() != "difference"@.len()); }
        assert("hue"@ != "exclusion"@) by { assert("hue"@.len() != "exclusion"@.len()); }
    }
    if b == 26 {
        assert("saturation"@ != "multiply"@) by { assert("saturation"@.len() != "multiply"@.len()); }
        assert("saturation"@ != "screen"@) by { assert("saturation"@.len() != "screen"@.len()); }
        assert("saturation"@ != "overlay"@) by { assert("saturation"@.len() != "overlay"@.len()); }
        assert("saturation"@ != "darken"@) by { assert("saturation"@.len() != "darken"@.len()); }
        assert("saturation"@ != "lighten"@) by { assert("saturation"@.len() != "lighten"@.len()); }
        assert("saturation"@ != "color-dodge"@) by { assert("saturation"@.len() != "color-dodge"@.len()); }
        assert("saturation"@ != "color-burn"@) by { assert("saturation"@[0] != "color-burn"@[0]); }
        assert("saturation"@ != "hard-light"@) by { assert("saturation"@[0] != "hard-light"@[0]); }
        assert("saturation"@ != "soft-light"@) by { assert("saturation"@[1] != "soft-light"@[1]); }
        assert("saturation"@ != "difference"@) by { assert("saturation"@[0] != "difference"@[0]); }
        assert("saturation"@ != "exclusion"@) by { assert("saturation"@.len() != "exclusion"@.len()); }
        assert("saturation"@ != "hue"@) by { assert("saturation"@.len() != "hue"@.len()); }
    }
    if b == 27 {
        assert("color"@ != "multiply"@) by { assert("color"@.len() != "multiply"@.len()); }
        assert("color"@ != "screen"@) by { assert("color"@.len() != "screen"@.len()); }
        assert("color"@ != "overlay"@) by { assert("color"@.len() != "overlay"@.len()); }
        assert("color"@ != "darken"@) by { assert("color"@.len() != "darken"@.len()); }
        assert("color"@ != "lighten"@) by { assert("color"@.len() != "lighten"@.len()); }
        assert("color"@ != "color-dodge"@) by { assert("color"@.len() != "color-dodge"@.len()); }
        assert("color"@ != "color-burn"@) by { assert("color"@.len() != "color-burn"@.len()); }
        assert("color"@ != "hard-light"@) by { assert("color"@.len() != "hard-light"@.len()); }
        assert("color"@ != "soft-light"@) by { assert("color"@.len() != "soft-light"@.len()); }
        assert("color"@ != "difference"@) by { assert("color"@.len() != "difference"@.len()); }
        assert("color"@ != "exclusion"@) by { assert("color"@.len() != "exclusion"@.len()); }
        assert("color"@ != "hue"@) by { assert("color"@.len() != "hue"@.len()); }
        assert("color"@ != "saturation"@) by { assert("color"@.len() != "saturation"@.len()); }
    }
    if b == 28 {
        assert("luminosity"@ != "multiply"@) by { assert("luminosity"@.len() != "multiply"@.len()); }
        assert("luminosity"@ != "screen"@) by { assert("luminosity"@.len() != "screen"@.len()); }
        assert("luminosity"@ != "overlay"@) by { assert("luminosity"@.len() != "overlay"@.len()); }
        assert("luminosity"@ != "darken"@) by { assert("luminosity"@.len() != "darken"@.len()); }
        assert("luminosity"@ != "lighten"@) by { assert("luminosity"@.len() != "lighten"@.len()); }
        assert("luminosity"@ != "color-dodge"@) by { assert("luminosity"@.len() != "color-dodge"@.len()); }
        assert("luminosity"@ != "color-burn"@) by { assert("luminosity"@[0] != "color-burn"@[0]); }
        assert("luminosity"@ != "hard-light"@) by { assert("luminosity"@[0] != "hard-light"@[0]); }
        assert("luminosity"@ != "soft-light"@) by { assert("luminosity"@[0] != "soft-light"@[0]); }
        assert("luminosity"@ != "difference"@) by { assert("luminosity"@[0] != "difference"@[0]); }
        assert("luminosity"@ != "exclusion"@) by { assert("luminosity"@.len() != "exclusion"@.len()); }
        assert("luminosity"@ != "hue"@) by { assert("luminosity"@.len() != "hue"@.len()); }
        assert("luminosity"@ != "saturation"@) by { assert("luminosity"@[0] != "saturation"@[0]); }
        assert("luminosity"@ != "color"@) by { assert("luminosity"@.len() != "color"@.len()); }
    }
}

/// Two keywords never share a blend mode.
pub proof fn lemma_blend_mode_injective(a: Seq<char>, b: Seq<char>)
    requires
        spec_blend_mode(a) is Some,
        spec_blend_mode(a) == spec_blend_mode(b),
    ensures
        a == b,
{
    let m = spec_blend_mode(a)->0;
    lemma_blend_modes_keep_their_names(a, m);
    lemma_blend_modes_keep_their_names(b, m);
}

/// A CSS `mix-blend-mode` keyword → the Skia `BlendMode` enum value.
pub fn blend_mode(kw: &str) -> (r: Result<u32, String>)
    ensures
        match spec_blend_mode(kw@) {
            Some(b) => r == Ok::<u32, String>(b),
            None => r matches Err(m) && m@ == "unsupported mix-blend-mode `"@ + kw@ + "`"@,
        },
{
    if str_eq(kw, "multiply") { return Ok(24); }
    if str_eq(kw, "screen") { return Ok(14); }
    if str_eq(kw, "overlay") { return Ok(15); }
    if str_eq(kw, "darken") { return Ok(16); }
    if str_eq(kw, "lighten") { return Ok(17); }
    if str_eq(kw, "color-dodge") { return Ok(18); }
    if str_eq(kw, "color-burn") { return Ok(19); }
    if str_eq(kw, "hard-light") { return Ok(20); }
    if str_eq(kw, "soft-light") { return Ok(21); }
    if str_eq(kw, "difference") { return Ok(22); }
    if str_eq(kw, "exclusion") { return Ok(23); }
    if str_eq(kw, "hue") { return Ok(25); }
    if str_eq(kw, "saturation") { return Ok(26); }
    if str_eq(kw, "color") { return Ok(27); }
    if str_eq(kw, "luminosity") { return Ok(28); }
    let mut m = String::new();
    push_str(&mut m, "unsupported mix-blend-mode `");
    push_str(&mut m, kw);
    push_str(&mut m, "`");
    Err(m)
}

/// Whether a fill rule is even-odd.
pub fn fill_rule_eo(v: &str) -> (r: Result<bool, String>)
    ensures
        v@ == "evenodd"@ ==> r == Ok::<bool, String>(true),
        v@ == "nonzero"@ ==> r == Ok::<bool, String>(false),
        v@ != "evenodd"@ && v@ != "nonzero"@ ==> (r matches Err(m) && m@ == "unsupported fill rule `"@ + v@ + "`"@),
{
    proof {
        reveal_strlit("evenodd");
        reveal_strlit("nonzero");
        assert("evenodd"@[0] != "nonzero"@[0]);
    }
    if str_eq(v, "evenodd") {
        return Ok(true);
    }
    if str_eq(v, "nonzero") {
        return Ok(false);
    }
    let mut m = String::new();
    push_str(&mut m, "unsupported fill rule `");
    push_str(&mut m, v);
    push_str(&mut m, "`");
    Err(m)
}

// ---------------------------------------------------------------------------
// Numbers
// ---------------------------------------------------------------------------

/// ASCII lowercase.
pub open spec fn lower(c: char) -> char {
    if 'A' <= c && c <= 'Z' {
        ((c as int) + 32) as char
    } else {
        c
    }
}

/// Where the run of decimal digits starting at `i` ends.
pub open spec fn digits_end(s: Seq<char>, i: int) -> int
    decreases s.len() - i,
{
    if i < 0 || i >= s.len() || !crate::text::ascii_digit(s[i]) {
        i
    } else {
        digits_end(s, i + 1)
    }
}

/// Whether `s` (already lowercased, sign removed) is a decimal number:
/// `(digits | digits '.' digits? | '.' digits) ('e' sign? digits)?`.
pub open spec fn is_number(s: Seq<char>) -> bool {
    let e1 = digits_end(s, 0);
    let dot = e1 < s.len() && s[e1] == '.';
    let e2 = if dot { digits_end(s, e1 + 1) } else { e1 };
    let mantissa = e1 > 0 || (dot && e2 > e1 + 1);
    mantissa && (e2 == s.len() || (s[e2] == 'e' && {
        let x = if e2 + 1 < s.len() && (s[e2 + 1] == '+' || s[e2 + 1] == '-') { e2 + 2 } else { e2 + 1 };
        x < s.len() && digits_end(s, x) == s.len()
    }))
}

/// Whether `str::parse::<f64>` accepts `s`: the grammar std documents for
/// `f64::from_str`, matched case-insensitively — an optional sign, then
/// `inf`, `infinity`, `nan` or a decimal number with an optional exponent.
pub open spec fn parses_as_float(s: Seq<char>) -> bool {
    let t = s.map_values(|c: char| lower(c));
    let body = if t.len() > 0 && (t[0] == '+' || t[0] == '-') { t.skip(1) } else { t };
    body == "inf"@ || body == "infinity"@ || body == "nan"@ || is_number(body)
}

fn digits_to(s: &[char], i: usize) -> (r: usize)
    requires
        i <= s@.len(),
    ensures
        r == digits_end(s@, i as int),
        i <= r <= s@.len(),
{
    let mut j = i;
    while j < s.len() && '0' <= s[j] && s[j] <= '9'
        invariant
            i <= j <= s@.len(),
            digits_end(s@, i as int) == digits_end(s@, j as int),
        decreases s@.len() - j,
    {
        j += 1;
    }
    j
}

fn lowered_chars(v: &str) -> (r: Vec<char>)
    ensures
        r@ == v@.map_values(|c: char| lower(c)),
{
    let s = chars_of(v);
    let mut out: Vec<char> = Vec::new();
    let mut i: usize = 0;
    while i < s.len()
        invariant
            s@ == v@,
            i <= s@.len(),
            out@ == s@.take(i as int).map_values(|c: char| lower(c)),
        decreases s@.len() - i,
    {
        let c = s[i];
        let l = if 'A' <= c && c <= 'Z' {
            let x = (c as u32 + 32) as u8;
            x as char
        } else {
            c
        };
        assert(l == lower(c));
        out.push(l);
        assert(s@.take(i + 1).map_values(|c: char| lower(c)) =~= s@.take(i as int).map_values(|c: char| lower(c)).push(lower(c)));
        i += 1;
    }
    assert(s@.take(s@.len() as int) =~= s@);
    out
}

fn number_ok(b: &[char]) -> (r: bool)
    ensures
        r == is_number(b@),
{
    let e1 = digits_to(b, 0);
    let dot = e1 < b.len() && b[e1] == '.';
    let e2 = if dot { digits_to(b, e1 + 1) } else { e1 };
    let mantissa = e1 > 0 || (dot && e2 > e1 + 1);
    if !mantissa {
        return false;
    }
    if e2 == b.len() {
        return true;
    }
    if b[e2] != 'e' {
        return false;
    }
    let x = if e2 + 1 < b.len() && (b[e2 + 1] == '+' || b[e2 + 1] == '-') { e2 + 2 } else { e2 + 1 };
    x < b.len() && digits_to(b, x) == b.len()
}

/// Whether `v` is a number `str::parse::<f64>` accepts.
pub fn is_float(v: &str) -> (r: bool)
    ensures
        r == parses_as_float(v@),
{
    let t = lowered_chars(v);
    let start: usize = if t.len() > 0 && (t[0] == '+' || t[0] == '-') { 1 } else { 0 };
    let body = crate::text::slice_chars(t.as_slice(), start, t.len());
    assert(body@ =~= if t@.len() > 0 && (t@[0] == '+' || t@[0] == '-') { t@.skip(1) } else { t@ });
    let named = crate::text::chars_eq(body.as_slice(), chars_of("inf").as_slice()) || crate::text::chars_eq(
        body.as_slice(),
        chars_of("infinity").as_slice(),
    ) || crate::text::chars_eq(body.as_slice(), chars_of("nan").as_slice());
    named || number_ok(body.as_slice())
}

/// Validate a numeric attribute value; emitted verbatim.
pub fn num<'a>(v: &'a str, what: &str) -> (r: Result<&'a str, String>)
    ensures
        parses_as_float(v@) ==> r == Ok::<&str, String>(v),
        !parses_as_float(v@) ==> (r matches Err(m) && m@ == "non-numeric `"@ + what@ + "` value `"@ + v@
            + "` in the skia-aot target"@),
{
    if is_float(v) {
        return Ok(v);
    }
    let mut m = String::new();
    push_str(&mut m, "non-numeric `");
    push_str(&mut m, what);
    push_str(&mut m, "` value `");
    push_str(&mut m, v);
    push_str(&mut m, "` in the skia-aot target");
    Err(m)
}

// ---------------------------------------------------------------------------
// Transforms
// ---------------------------------------------------------------------------

/// A baked transform as a row-major 3x3, or why it cannot be one.
pub open spec fn spec_transform9(v: Seq<char>) -> Result<Seq<char>, Seq<char>> {
    match crate::text::between(v, "matrix("@, ")"@) {
        Some(args) => {
            let p = crate::text::split_on(args, ',');
            if p.len() != 6 {
                Err("matrix() with "@ + decimal(p.len()) + " arguments"@)
            } else {
                Ok("["@ + p[0] + ", "@ + p[2] + ", "@ + p[4] + ", "@ + p[1] + ", "@ + p[3] + ", "@ + p[5]
                    + ", 0, 0, 1]"@)
            }
        },
        None => match crate::text::between(v, "translate("@, ")"@) {
            Some(args) => {
                let p = crate::text::split_on(args, ',');
                if p.len() != 2 {
                    Err("translate() with "@ + decimal(p.len()) + " arguments"@)
                } else {
                    Ok("[1, 0, "@ + p[0] + ", 0, 1, "@ + p[1] + ", 0, 0, 1]"@)
                }
            },
            None => Err("unsupported transform `"@ + v + "` in the skia-aot target"@),
        },
    }
}

fn count_message(head: &str, n: usize) -> (r: String)
    ensures
        r@ == head@ + decimal(n as nat) + " arguments"@,
{
    let mut m = String::new();
    push_str(&mut m, head);
    let d = decimal_string(n as u64);
    push_str(&mut m, d.as_str());
    push_str(&mut m, " arguments");
    m
}

/// The 2x3 affine matrix a transform spells, as its six numbers' text
/// `[a, b, c, d, e, f]`: those of `matrix(…)`, or `1, 0, 0, 1, x, y` for
/// `translate(x, y)`.
pub open spec fn affine(v: Seq<char>) -> Option<Seq<Seq<char>>> {
    match crate::text::between(v, "matrix("@, ")"@) {
        Some(args) => {
            let p = crate::text::split_on(args, ',');
            if p.len() == 6 {
                Some(p)
            } else {
                None
            }
        },
        None => match crate::text::between(v, "translate("@, ")"@) {
            Some(args) => {
                let p = crate::text::split_on(args, ',');
                if p.len() == 2 {
                    Some(seq!["1"@, "0"@, "0"@, "1"@, p[0], p[1]])
                } else {
                    None
                }
            },
            None => None,
        },
    }
}

/// The row-major 3x3 of an affine matrix: `[a, c, e, b, d, f, 0, 0, 1]`.
pub open spec fn row_major(m: Seq<Seq<char>>) -> Seq<char> {
    "["@ + m[0] + ", "@ + m[2] + ", "@ + m[4] + ", "@ + m[1] + ", "@ + m[3] + ", "@ + m[5] + ", 0, 0, 1]"@
}

proof fn lemma_translate_affine(x: Seq<char>, y: Seq<char>)
    ensures
        row_major(seq!["1"@, "0"@, "0"@, "1"@, x, y]) == "[1, 0, "@ + x + ", 0, 1, "@ + y + ", 0, 0, 1]"@,
        "["@ + crate::text::joined(seq!["1"@, "0"@, "0"@, "1"@, x, y], ", "@) + "]"@ == "[1, 0, 0, 1, "@ + x + ", "@ + y
            + "]"@,
{
    let m = seq!["1"@, "0"@, "0"@, "1"@, x, y];
    reveal_strlit("1");
    reveal_strlit("0");
    reveal_strlit(", ");
    reveal_strlit("[");
    reveal_strlit("]");
    reveal_strlit(", 0, 0, 1]");
    reveal_strlit("[1, 0, ");
    reveal_strlit(", 0, 1, ");
    reveal_strlit("[1, 0, 0, 1, ");
    assert(m.drop_last().drop_last().drop_last().drop_last().drop_last() =~= seq!["1"@]);
    assert(m.drop_last().drop_last().drop_last().drop_last() =~= seq!["1"@, "0"@]);
    assert(m.drop_last().drop_last().drop_last() =~= seq!["1"@, "0"@, "0"@]);
    assert(m.drop_last().drop_last() =~= seq!["1"@, "0"@, "0"@, "1"@]);
    assert(m.drop_last() =~= seq!["1"@, "0"@, "0"@, "1"@, x]);
    reveal_with_fuel(crate::text::joined, 7);
    assert(row_major(m) =~= "[1, 0, "@ + x + ", 0, 1, "@ + y + ", 0, 0, 1]"@);
    assert("["@ + crate::text::joined(m, ", "@) + "]"@ =~= "[1, 0, 0, 1, "@ + x + ", "@ + y + "]"@);
}

/// The two ahead-of-time targets read a transform alike: each accepts it
/// exactly when it spells an affine matrix; the reanimated target writes the
/// matrix as its six numbers in order, and the skia target writes the
/// row-major 3x3 of the same matrix.
pub proof fn lemma_transform_targets_agree(v: Seq<char>)
    ensures
        spec_transform9(v) is Ok <==> affine(v) is Some,
        crate::backend::rn::spec_transform_array(v) is Ok <==> affine(v) is Some,
        affine(v) matches Some(m) ==> spec_transform9(v) == Ok::<Seq<char>, Seq<char>>(row_major(m))
            && crate::backend::rn::spec_transform_array(v) == Ok::<Seq<char>, Seq<char>>(
            "["@ + crate::text::joined(m, ", "@) + "]"@,
        ),
{
    if crate::text::between(v, "matrix("@, ")"@) is None {
        if let Some(args) = crate::text::between(v, "translate("@, ")"@) {
            let p = crate::text::split_on(args, ',');
            if p.len() == 2 {
                lemma_translate_affine(p[0], p[1]);
            }
        }
    }
}

/// A baked transform as a row-major 3x3 for `canvas.concat`. The compiler
/// only ever writes these two spellings.
pub fn transform9(v: &str) -> (r: Result<String, String>)
    ensures
        match spec_transform9(v@) {
            Ok(t) => r matches Ok(x) && x@ == t,
            Err(m) => r matches Err(x) && x@ == m,
        },
{
    let s = chars_of(v);
    if let Some(args) = crate::text::between_chars(s.as_slice(), "matrix(", ")") {
        let p = crate::text::split_chars(args.as_slice(), ',');
        if p.len() != 6 {
            return Err(count_message("matrix() with ", p.len()));
        }
        let mut out = String::new();
        push_str(&mut out, "[");
        push_chars(&mut out, p[0].as_slice());
        push_str(&mut out, ", ");
        push_chars(&mut out, p[2].as_slice());
        push_str(&mut out, ", ");
        push_chars(&mut out, p[4].as_slice());
        push_str(&mut out, ", ");
        push_chars(&mut out, p[1].as_slice());
        push_str(&mut out, ", ");
        push_chars(&mut out, p[3].as_slice());
        push_str(&mut out, ", ");
        push_chars(&mut out, p[5].as_slice());
        push_str(&mut out, ", 0, 0, 1]");
        return Ok(out);
    }
    if let Some(args) = crate::text::between_chars(s.as_slice(), "translate(", ")") {
        let p = crate::text::split_chars(args.as_slice(), ',');
        if p.len() != 2 {
            return Err(count_message("translate() with ", p.len()));
        }
        let mut out = String::new();
        push_str(&mut out, "[1, 0, ");
        push_chars(&mut out, p[0].as_slice());
        push_str(&mut out, ", 0, 1, ");
        push_chars(&mut out, p[1].as_slice());
        push_str(&mut out, ", 0, 0, 1]");
        return Ok(out);
    }
    let mut m = String::new();
    push_str(&mut m, "unsupported transform `");
    push_str(&mut m, v);
    push_str(&mut m, "` in the skia-aot target");
    Err(m)
}

} // verus!
