//! Assembling the runtime a scene needs.
//!
//! The runtime is a set of small ES modules with globally-unique top-level
//! names, so "bundling" is a topological concatenation with `import`/`export`
//! lines stripped — no IIFE namespaces, no indirection through namespace
//! objects, and the minifier gets one flat scope to mangle.
//!
//! Which modules get concatenated is decided by the scene's capabilities, not
//! by hoping a tree-shaker finds the dead code afterwards.

pub mod unminified;

use vstd::prelude::*;
use crate::backend::runtime::{minified, minify};
use crate::backend::shake::{decl_views, declarations, kept, root_views, shake, spec_declarations, Decl, DeclV};
use crate::caps::{
    has, names_of, spec_has, spec_names_of, Caps, ALL, DISPLAY, ELLIPSE, EXPRESSIONS, EXTRACTED, FILL,
    GRADIENT, LAYER_OP, LAYER_TX, OPACITY, RECT, SHAPE, STROKE, TEMPLATES, TIME_REMAP, TRANSFORM,
    TRANSLATE,
};
use crate::text::{joined, push_char, push_joined, push_joined_strings, push_str, str_views, string_views};

verus! {

broadcast use vstd::seq_lib::group_seq_properties;

// ---------------------------------------------------------------------------
// Module registry — listed in dependency order.
// ---------------------------------------------------------------------------

/// One runtime module.
pub struct Mod {
    /// Module specifier relative to the runtime root, e.g. `ops/txt.js`.
    pub name: &'static str,
    /// Its source text.
    pub src: String,
}

/// The runtime modules, by specifier, in dependency order.
pub open spec fn registry() -> Seq<Seq<char>> {
    seq![
        "num.js"@, "kfval.js"@, "play.js"@, "vlq.js"@, "wire.js"@, "col.js"@, "scale.js"@,
        "set.js"@, "rec.js"@, "ids.js"@, "tpl.js"@, "sprite.js"@, "css.js"@, "ease.js"@,
        "spatial.js"@, "kfpath.js"@, "expr.js"@, "kf.js"@, "path.js"@, "geom.js"@, "trim.js"@,
        "ops/tx.js"@, "ops/txt.js"@, "ops/opacity.js"@, "ops/display.js"@, "ops/shape.js"@,
        "ops/rect.js"@, "ops/ellipse.js"@, "ops/fill.js"@, "ops/stroke.js"@, "ops/grad.js"@,
        "ops/layer.js"@, "core.js"@,
    ]
}

/// Every runtime module specifier, in dependency order.
pub fn module_names() -> (r: Vec<&'static str>)
    ensures
        str_views(r@) == registry(),
{
    let mut r: Vec<&'static str> = Vec::new();
    r.push("num.js");
    r.push("kfval.js");
    r.push("play.js");
    r.push("vlq.js");
    r.push("wire.js");
    r.push("col.js");
    r.push("scale.js");
    r.push("set.js");
    r.push("rec.js");
    r.push("ids.js");
    r.push("tpl.js");
    r.push("sprite.js");
    r.push("css.js");
    r.push("ease.js");
    r.push("spatial.js");
    r.push("kfpath.js");
    r.push("expr.js");
    r.push("kf.js");
    r.push("path.js");
    r.push("geom.js");
    r.push("trim.js");
    r.push("ops/tx.js");
    r.push("ops/txt.js");
    r.push("ops/opacity.js");
    r.push("ops/display.js");
    r.push("ops/shape.js");
    r.push("ops/rect.js");
    r.push("ops/ellipse.js");
    r.push("ops/fill.js");
    r.push("ops/stroke.js");
    r.push("ops/grad.js");
    r.push("ops/layer.js");
    r.push("core.js");
    assert(str_views(r@) =~= registry());
    r
}

/// Every runtime module, for callers that need to publish the tree: each
/// specifier of the registry paired with its source, given in registry order.
/// `None` unless there is exactly one source per module.
pub fn modules(sources: Vec<String>) -> (r: Option<Vec<Mod>>)
    ensures
        r is Some <==> sources@.len() == registry().len(),
        r matches Some(ms) ==> ms@.len() == registry().len() && forall|i: int|
            0 <= i < ms@.len() ==> (#[trigger] ms@[i]).name@ == registry()[i] && ms@[i].src@ == sources@[i]@,
{
    let names = module_names();
    if sources.len() != names.len() {
        return None;
    }
    let mut out: Vec<Mod> = Vec::new();
    let mut i: usize = 0;
    while i < names.len()
        invariant
            str_views(names@) == registry(),
            names@.len() == sources@.len(),
            i <= names@.len(),
            out@.len() == i,
            forall|k: int| 0 <= k < i ==> (#[trigger] out@[k]).name@ == registry()[k] && out@[k].src@ == sources@[k]@,
        decreases names@.len() - i,
    {
        assert(names@[i as int]@ == registry()[i as int]);
        out.push(Mod { name: names[i], src: sources[i].clone() });
        i += 1;
    }
    Some(out)
}

/// Every top-level declaration of the modules, in module order.
pub open spec fn mod_decls(mods: Seq<Mod>) -> Seq<DeclV>
    decreases mods.len(),
{
    if mods.len() == 0 {
        seq![]
    } else {
        mod_decls(mods.drop_last()) + spec_declarations(mods.last().src@)
    }
}

/// Every top-level declaration in the runtime, in dependency order.
#[verifier::spinoff_prover]
pub fn all_declarations(mods: &[Mod]) -> (r: Vec<Decl>)
    ensures
        decl_views(r@) == mod_decls(mods@),
{
    let mut out: Vec<Decl> = Vec::new();
    let mut i: usize = 0;
    while i < mods.len()
        invariant
            i <= mods@.len(),
            decl_views(out@) == mod_decls(mods@.take(i as int)),
        decreases mods@.len() - i,
    {
        assert(mods@.take(i + 1).drop_last() =~= mods@.take(i as int));
        let mut ds = declarations(mods[i].src.as_str());
        let ghost o = out@;
        let ghost d = ds@;
        out.append(&mut ds);
        assert(decl_views(out@) =~= decl_views(o) + decl_views(d));
        i += 1;
    }
    assert(mods@.take(mods@.len() as int) =~= mods@);
    out
}

// ---------------------------------------------------------------------------
// Binders
// ---------------------------------------------------------------------------

/// Number of op codes with a binder.
pub const BINDER_COUNT: usize = 12;

/// The capability that makes op `i`'s binder live.
pub open spec fn binder_cap(i: int) -> Caps {
    if i == 0 { TRANSFORM }
    else if i == 1 { TRANSLATE }
    else if i == 2 { OPACITY }
    else if i == 3 { DISPLAY }
    else if i == 4 { SHAPE }
    else if i == 5 { RECT }
    else if i == 6 { ELLIPSE }
    else if i == 7 { FILL }
    else if i == 8 { STROKE }
    else if i == 9 { GRADIENT }
    else if i == 10 { LAYER_TX }
    else { LAYER_OP }
}

/// The binder op `i` resolves to.
pub open spec fn binder_name(i: int) -> Seq<char> {
    if i == 0 { "bTransform"@ }
    else if i == 1 { "bTranslate"@ }
    else if i == 2 { "bOpacity"@ }
    else if i == 3 { "bDisplay"@ }
    else if i == 4 { "bShape"@ }
    else if i == 5 { "bRect"@ }
    else if i == 6 { "bEllipse"@ }
    else if i == 7 { "bFill"@ }
    else if i == 8 { "bStroke"@ }
    else if i == 9 { "bGradient"@ }
    else if i == 10 { "bLayerTx"@ }
    else { "bLayerOpacity"@ }
}

/// The module op `i`'s binder lives in.
pub open spec fn binder_module(i: int) -> Seq<char> {
    if i == 0 { "ops/tx.js"@ }
    else if i == 1 { "ops/txt.js"@ }
    else if i == 2 { "ops/opacity.js"@ }
    else if i == 3 { "ops/display.js"@ }
    else if i == 4 { "ops/shape.js"@ }
    else if i == 5 { "ops/rect.js"@ }
    else if i == 6 { "ops/ellipse.js"@ }
    else if i == 7 { "ops/fill.js"@ }
    else if i == 8 { "ops/stroke.js"@ }
    else if i == 9 { "ops/grad.js"@ }
    else { "ops/layer.js"@ }
}

/// The binder each op code resolves to, and the module it lives in, indexed by
/// op code.
fn binders() -> (r: Vec<(Caps, &'static str, &'static str)>)
    ensures
        r@.len() == BINDER_COUNT,
        forall|i: int| 0 <= i < BINDER_COUNT ==> (#[trigger] r@[i]).0 == binder_cap(i)
            && r@[i].1@ == binder_name(i) && r@[i].2@ == binder_module(i),
{
    let mut r: Vec<(Caps, &'static str, &'static str)> = Vec::new();
    r.push((TRANSFORM, "bTransform", "ops/tx.js"));
    r.push((TRANSLATE, "bTranslate", "ops/txt.js"));
    r.push((OPACITY, "bOpacity", "ops/opacity.js"));
    r.push((DISPLAY, "bDisplay", "ops/display.js"));
    r.push((SHAPE, "bShape", "ops/shape.js"));
    r.push((RECT, "bRect", "ops/rect.js"));
    r.push((ELLIPSE, "bEllipse", "ops/ellipse.js"));
    r.push((FILL, "bFill", "ops/fill.js"));
    r.push((STROKE, "bStroke", "ops/stroke.js"));
    r.push((GRADIENT, "bGradient", "ops/grad.js"));
    r.push((LAYER_TX, "bLayerTx", "ops/layer.js"));
    r.push((LAYER_OP, "bLayerOpacity", "ops/layer.js"));
    r
}

/// The binders among the first `n` op codes that `c` makes live.
pub open spec fn binder_names(c: Caps, n: int) -> Seq<Seq<char>>
    decreases n,
{
    if n <= 0 {
        seq![]
    } else {
        binder_names(c, n - 1) + if spec_has(c, binder_cap(n - 1)) {
            seq![binder_name(n - 1)]
        } else {
            seq![]
        }
    }
}

/// A one-element list when `b` holds, else nothing.
pub open spec fn when(b: bool, x: Seq<char>) -> Seq<Seq<char>> {
    if b {
        seq![x]
    } else {
        seq![]
    }
}

/// Roots of the reachability walk: the mount entry point, the engine when there
/// are expressions, the helpers the bodies call, the optional entry points the
/// capabilities ask for, and every binder the scene uses.
pub open spec fn spec_roots(c: Caps, helpers: Seq<Seq<char>>) -> Seq<Seq<char>> {
    seq!["mount"@] + when(spec_has(c, EXPRESSIONS), "makeExpr"@) + helpers + when(
        spec_has(c, TEMPLATES),
        "expand"@,
    ) + when(spec_has(c, EXTRACTED), "fromSprite"@) + when(spec_has(c, TIME_REMAP), "resolve"@)
        + binder_names(c, BINDER_COUNT as int)
}

fn push_when(r: &mut Vec<&'static str>, b: bool, x: &'static str)
    ensures
        str_views(final(r)@) == str_views(old(r)@) + when(b, x@),
{
    let ghost o = r@;
    if b {
        r.push(x);
        assert(str_views(r@) =~= str_views(o) + when(b, x@));
    } else {
        assert(str_views(r@) =~= str_views(o) + when(b, x@));
    }
}

/// Roots of the reachability walk for a scene with capabilities `c` whose
/// expression bodies call `helpers`.
///
/// The expression helpers come in as roots rather than through the capability
/// gates, because the layer pass reports exactly which ones it wrote into the
/// bodies. A root is live whatever the gates say, so retention there is exact
/// by construction.
pub fn roots(c: Caps, helpers: &[&'static str]) -> (r: Vec<&'static str>)
    ensures
        str_views(r@) == spec_roots(c, str_views(helpers@)),
{
    let mut r: Vec<&'static str> = Vec::new();
    r.push("mount");
    assert(str_views(r@) =~= seq!["mount"@]);
    push_when(&mut r, has(c, EXPRESSIONS), "makeExpr");
    let ghost before = str_views(r@);
    let mut i: usize = 0;
    while i < helpers.len()
        invariant
            i <= helpers@.len(),
            str_views(r@) == before + str_views(helpers@).take(i as int),
        decreases helpers@.len() - i,
    {
        let ghost o = r@;
        r.push(helpers[i]);
        assert(str_views(r@) =~= str_views(o).push(helpers@[i as int]@));
        assert(str_views(helpers@).take(i + 1) =~= str_views(helpers@).take(i as int).push(helpers@[i as int]@));
        assert(str_views(r@) =~= before + str_views(helpers@).take(i + 1));
        i += 1;
    }
    assert(str_views(helpers@).take(helpers@.len() as int) =~= str_views(helpers@));
    push_when(&mut r, has(c, TEMPLATES), "expand");
    push_when(&mut r, has(c, EXTRACTED), "fromSprite");
    push_when(&mut r, has(c, TIME_REMAP), "resolve");
    let bs = binders();
    let ghost fixed = str_views(r@);
    let mut k: usize = 0;
    while k < bs.len()
        invariant
            bs@.len() == BINDER_COUNT,
            forall|i: int| 0 <= i < BINDER_COUNT ==> (#[trigger] bs@[i]).0 == binder_cap(i)
                && bs@[i].1@ == binder_name(i) && bs@[i].2@ == binder_module(i),
            k <= bs@.len(),
            str_views(r@) == fixed + binder_names(c, k as int),
        decreases bs@.len() - k,
    {
        let ghost o = str_views(r@);
        let (cap, name, _) = bs[k];
        if has(c, cap) {
            r.push(name);
        }
        assert(str_views(r@) =~= o + if spec_has(c, binder_cap(k as int)) {
            seq![binder_name(k as int)]
        } else {
            seq![]
        });
        k += 1;
    }
    r
}

// ---------------------------------------------------------------------------
// Bundling
// ---------------------------------------------------------------------------

/// The declarations' texts, concatenated.
pub open spec fn texts(ds: Seq<DeclV>) -> Seq<char>
    decreases ds.len(),
{
    if ds.len() == 0 {
        seq![]
    } else {
        texts(ds.drop_last()) + ds.last().text
    }
}

/// The runtime declarations a scene keeps, in dependency order.
pub open spec fn kept_decls(mods: Seq<Mod>, c: Caps, helpers: Seq<Seq<char>>) -> Seq<DeclV> {
    kept(mod_decls(mods), spec_roots(c, helpers), c, mod_decls(mods).len() as int)
}

/// The runtime a scene needs, shaken down to reachable declarations.
pub open spec fn spec_bundle(mods: Seq<Mod>, c: Caps, helpers: Seq<Seq<char>>) -> Seq<char> {
    texts(kept_decls(mods, c, helpers))
}

fn kept_of(mods: &[Mod], c: Caps, helpers: &[&'static str]) -> (r: Vec<Decl>)
    ensures
        decl_views(r@) == kept_decls(mods@, c, str_views(helpers@)),
{
    let all = all_declarations(mods);
    let rs = roots(c, helpers);
    assert(root_views(rs@) =~= str_views(rs@));
    shake(all, rs.as_slice(), c)
}

/// The runtime this scene needs, shaken down to reachable declarations.
pub fn bundle(mods: &[Mod], c: Caps, helpers: &[&'static str]) -> (r: String)
    ensures
        r@ == spec_bundle(mods@, c, str_views(helpers@)),
{
    let kept = kept_of(mods, c, helpers);
    let ghost ks = decl_views(kept@);
    let mut out = String::new();
    let mut i: usize = 0;
    while i < kept.len()
        invariant
            ks == decl_views(kept@),
            i <= kept@.len(),
            out@ == texts(ks.take(i as int)),
        decreases kept@.len() - i,
    {
        assert(ks.take(i + 1).drop_last() =~= ks.take(i as int));
        push_str(&mut out, kept[i].text.as_str());
        i += 1;
    }
    assert(ks.take(kept@.len() as int) =~= ks);
    out
}

/// Every runtime declaration reachable from `roots`, whatever the scene's
/// capabilities, concatenated in dependency order: the runtime a generated
/// module calls into by name.
pub open spec fn spec_shaken(mods: Seq<Mod>, roots: Seq<Seq<char>>) -> Seq<char> {
    texts(kept(mod_decls(mods), roots, ALL, mod_decls(mods).len() as int))
}

/// The runtime reachable from `roots` under every capability.
pub fn shaken(mods: &[Mod], roots: &[&str]) -> (r: String)
    ensures
        r@ == spec_shaken(mods@, root_views(roots@)),
{
    let all = all_declarations(mods);
    let kept = shake(all, roots, ALL);
    let ghost ks = decl_views(kept@);
    let mut out = String::new();
    let mut i: usize = 0;
    while i < kept.len()
        invariant
            ks == decl_views(kept@),
            i <= kept@.len(),
            out@ == texts(ks.take(i as int)),
        decreases kept@.len() - i,
    {
        assert(ks.take(i + 1).drop_last() =~= ks.take(i as int));
        push_str(&mut out, kept[i].text.as_str());
        i += 1;
    }
    assert(ks.take(kept@.len() as int) =~= ks);
    out
}

/// The helpers the expression bodies call, or none without expressions.
pub fn helpers_of(exprs: Option<&crate::backend::layers::Exprs>) -> (r: Vec<&'static str>)
    ensures
        r@ == match exprs {
            Some(e) => e.helpers@,
            None => Seq::<&'static str>::empty(),
        },
{
    match exprs {
        Some(e) => {
            let mut out: Vec<&'static str> = Vec::new();
            let mut i: usize = 0;
            while i < e.helpers.len()
                invariant
                    i <= e.helpers@.len(),
                    out@ == e.helpers@.take(i as int),
                decreases e.helpers@.len() - i,
            {
                out.push(e.helpers[i]);
                assert(out@ =~= e.helpers@.take(i + 1));
                i += 1;
            }
            assert(out@ =~= e.helpers@);
            out
        },
        None => Vec::new(),
    }
}

/// A scene's capabilities plus what the delivery mode needs: extraction is a
/// property of how the module ships, not of the animation, so the planner
/// never sees it.
pub fn caps_of(c: Caps, m: &MarkupMode) -> (r: Caps)
    ensures
        r == match m {
            MarkupMode::Inline => c,
            MarkupMode::Extracted(_) => c | EXTRACTED,
        },
{
    match m {
        MarkupMode::Inline => c,
        MarkupMode::Extracted(_) => c | EXTRACTED,
    }
}

/// The unminified runtime is the retained declarations written out in full,
/// one after the other in runtime order: the bundle `runtime_pretty` gives is
/// the texts of the declarations whose names `retained_symbols` reports, and
/// it splits after any of them into the texts before and the texts after.
pub proof fn lemma_pretty_runtime_is_the_retained(mods: Seq<Mod>, c: Caps)
    ensures
        spec_bundle(mods, c, seq![]) == texts(kept_decls(mods, c, seq![])),
        forall|n: int|
            0 <= n <= kept_decls(mods, c, seq![]).len() ==> #[trigger] texts(kept_decls(mods, c, seq![]).take(n)) + texts(
                kept_decls(mods, c, seq![]).skip(n),
            ) == spec_bundle(mods, c, seq![]),
{
    let ds = kept_decls(mods, c, seq![]);
    assert forall|n: int| 0 <= n <= ds.len() implies #[trigger] texts(ds.take(n)) + texts(ds.skip(n)) == texts(ds) by {
        lemma_texts_split(ds, n);
    }
}

proof fn lemma_texts_split(ds: Seq<DeclV>, n: int)
    requires
        0 <= n <= ds.len(),
    ensures
        texts(ds.take(n)) + texts(ds.skip(n)) == texts(ds),
    decreases ds.len(),
{
    if n == ds.len() {
        assert(ds.take(n) =~= ds);
        assert(ds.skip(n) =~= Seq::<DeclV>::empty());
        assert(texts(ds.take(n)) + texts(ds.skip(n)) =~= texts(ds));
    } else {
        lemma_texts_split(ds.drop_last(), n);
        assert(ds.drop_last().take(n) =~= ds.take(n));
        assert(ds.skip(n).drop_last() =~= ds.drop_last().skip(n));
        assert(ds.skip(n).last() == ds.last());
        assert(texts(ds.take(n)) + texts(ds.skip(n)) =~= texts(ds.take(n)) + texts(ds.drop_last().skip(n)) + ds.last().text);
    }
}

/// Names of the runtime declarations a scene retains, in dependency order.
/// Reported in unminified output so a review diff shows when a change starts
/// (or stops) pulling something in.
pub fn retained_symbols(mods: &[Mod], c: Caps, helpers: &[&'static str]) -> (r: Vec<String>)
    ensures
        string_views(r@) == kept_decls(mods@, c, str_views(helpers@)).map_values(|d: DeclV| d.name),
{
    let kept = kept_of(mods, c, helpers);
    let ghost ks = decl_views(kept@);
    let mut out: Vec<String> = Vec::new();
    let mut i: usize = 0;
    while i < kept.len()
        invariant
            ks == decl_views(kept@),
            i <= kept@.len(),
            string_views(out@) == ks.take(i as int).map_values(|d: DeclV| d.name),
        decreases kept@.len() - i,
    {
        let ghost o = string_views(out@);
        out.push(kept[i].name.clone());
        assert(string_views(out@) =~= o.push(kept@[i as int].name@));
        assert(ks.take(i + 1).map_values(|d: DeclV| d.name) =~= ks.take(i as int).map_values(|d: DeclV| d.name).push(ks[i as int].name));
        i += 1;
    }
    assert(ks.take(kept@.len() as int) =~= ks);
    out
}

/// The runtime a capability set pulls in, unminified — module comments and
/// all, in dependency order.
///
/// Capability-only, so the expression helpers a particular module's bodies
/// call are not part of the figure: what a *feature* costs, not what one
/// animation ended up shipping.
pub fn runtime_pretty(mods: &[Mod], c: Caps) -> (r: String)
    ensures
        r@ == spec_bundle(mods@, c, seq![]),
{
    let none: Vec<&'static str> = Vec::new();
    assert(str_views(none@) =~= Seq::<Seq<char>>::empty());
    bundle(mods, c, none.as_slice())
}

// ---------------------------------------------------------------------------
// Minified runtime slices
// ---------------------------------------------------------------------------

/// An `export { … };` line naming `names`.
pub open spec fn export_line(names: Seq<Seq<char>>) -> Seq<char> {
    "export { "@ + joined(names, ", "@) + " };\n"@
}

/// What minifying `src` gives, or `src` itself when it does not minify.
pub open spec fn minified_or(src: Seq<char>) -> Seq<char> {
    match minified(src) {
        Some(m) => m,
        None => src,
    }
}

fn minify_or(src: String) -> (r: String)
    ensures
        r@ == minified_or(src@),
{
    match minify(src.as_str()) {
        Some(m) => m,
        None => src,
    }
}

/// The bundle for `c` and `helpers` with its entry points exported.
pub open spec fn anchored(mods: Seq<Mod>, c: Caps, helpers: Seq<Seq<char>>) -> Seq<char> {
    spec_bundle(mods, c, helpers) + export_line(spec_roots(c, helpers))
}

fn anchored_bundle(mods: &[Mod], c: Caps, helpers: &[&'static str]) -> (r: String)
    ensures
        r@ == anchored(mods@, c, str_views(helpers@)),
{
    let mut src = bundle(mods, c, helpers);
    let rs = roots(c, helpers);
    push_str(&mut src, "export { ");
    push_joined(&mut src, rs.as_slice(), ", ");
    push_str(&mut src, " };\n");
    src
}

/// Minified source of the runtime a capability set pulls in.
pub fn runtime_source(mods: &[Mod], c: Caps) -> (r: String)
    ensures
        r@ == minified_or(anchored(mods@, c, seq![])),
{
    let none: Vec<&'static str> = Vec::new();
    assert(str_views(none@) =~= Seq::<Seq<char>>::empty());
    minify_or(anchored_bundle(mods, c, none.as_slice()))
}

/// Length in bytes of a string's UTF-8 encoding.
pub open spec fn byte_len(s: Seq<char>) -> nat {
    vstd::utf8::encode_utf8(s).len()
}

/// What one module's runtime actually weighs, helpers included: the minified
/// bytes of its bundle.
///
/// The entry points are anchored before minifying. The shaker strips `export`
/// keywords, so without that the module has no exports and no side effects and
/// the minifier correctly deletes all of it.
pub fn runtime_size_with(mods: &[Mod], c: Caps, helpers: &[&'static str]) -> (r: usize)
    ensures
        r == byte_len(minified_or(anchored(mods@, c, str_views(helpers@)))) as usize,
{
    let s = minify_or(anchored_bundle(mods, c, helpers));
    s.as_str().len()
}

/// Minified size of the runtime a capability set pulls in. Used to report what
/// each optional feature costs.
pub fn runtime_size(mods: &[Mod], c: Caps) -> (r: usize)
    ensures
        r == byte_len(minified_or(anchored(mods@, c, seq![]))) as usize,
{
    let none: Vec<&'static str> = Vec::new();
    assert(str_views(none@) =~= Seq::<Seq<char>>::empty());
    runtime_size_with(mods, c, none.as_slice())
}

/// Every runtime symbol the expression bodies can be rewritten to call, plus
/// the fallback surface.
pub open spec fn expr_helpers() -> Seq<Seq<char>> {
    seq![
        "lyAt"@, "lyRel"@, "lyParent"@, "lyPos"@, "lyAnchor"@, "lyScale"@, "lyRot"@,
        "lyOpacity"@, "lyPath"@, "lyPoints"@, "lyClosed"@, "lyEffect"@, "toComp"@,
        "fromCompToSurface"@,
    ]
}

fn expr_helper_names() -> (r: Vec<&'static str>)
    ensures
        str_views(r@) == expr_helpers(),
{
    let mut r: Vec<&'static str> = Vec::new();
    r.push("lyAt");
    r.push("lyRel");
    r.push("lyParent");
    r.push("lyPos");
    r.push("lyAnchor");
    r.push("lyScale");
    r.push("lyRot");
    r.push("lyOpacity");
    r.push("lyPath");
    r.push("lyPoints");
    r.push("lyClosed");
    r.push("lyEffect");
    r.push("toComp");
    r.push("fromCompToSurface");
    assert(str_views(r@) =~= expr_helpers());
    r
}

/// The whole runtime, every capability on, unminified, followed by the full
/// binder table.
pub open spec fn spec_driver_source(mods: Seq<Mod>) -> Seq<char> {
    spec_bundle(mods, ALL, expr_helpers()) + spec_binder_table(ALL)
}

/// The whole runtime, every capability on, unminified.
///
/// No compiled module imports this. It exists so size reporting can show the
/// upper bound on what a page could ever load.
pub fn driver_source(mods: &[Mod]) -> (r: String)
    ensures
        r@ == spec_driver_source(mods@),
{
    let hs = expr_helper_names();
    let mut src = bundle(mods, ALL, hs.as_slice());
    let t = binder_table(ALL);
    push_str(&mut src, t.as_str());
    src
}

/// Minified counterpart of [`driver_source`], for size reporting: every entry
/// point and the binder table exported.
pub fn build_driver(mods: &[Mod]) -> (r: String)
    ensures
        r@ == minified_or(
            spec_driver_source(mods@) + "export { "@ + joined(spec_roots(ALL, expr_helpers()), ", "@)
                + ", B };\n"@,
        ),
{
    let mut src = driver_source(mods);
    let hs = expr_helper_names();
    let rs = roots(ALL, hs.as_slice());
    push_str(&mut src, "export { ");
    push_joined(&mut src, rs.as_slice(), ", ");
    push_str(&mut src, ", B };\n");
    minify_or(src)
}

// ---------------------------------------------------------------------------
// The binder table
// ---------------------------------------------------------------------------

/// The highest op code below `n` whose binder `c` makes live; 0 when none is.
pub open spec fn last_binder(c: Caps, n: int) -> int
    decreases n,
{
    if n <= 0 {
        0
    } else if spec_has(c, binder_cap(n - 1)) {
        n - 1
    } else {
        last_binder(c, n - 1)
    }
}

/// Op `i`'s entry in the table: its binder, or a hole.
pub open spec fn binder_slot(c: Caps, i: int) -> Seq<char> {
    if spec_has(c, binder_cap(i)) {
        binder_name(i)
    } else {
        seq![]
    }
}

/// The sparse binder table: one entry per op code up to the last live one.
pub open spec fn spec_binder_table(c: Caps) -> Seq<char> {
    "const B=["@ + joined(
        Seq::new((last_binder(c, BINDER_COUNT as int) + 1) as nat, |i: int| binder_slot(c, i)),
        ","@,
    ) + "];\n"@
}

/// Sparse binder table holding only the ops this scene uses. Array holes keep
/// the indices aligned with the op codes without naming the absent binders.
pub fn binder_table(c: Caps) -> (r: String)
    ensures
        r@ == spec_binder_table(c),
{
    let bs = binders();
    let mut last: usize = 0;
    let mut k: usize = 0;
    while k < bs.len()
        invariant
            bs@.len() == BINDER_COUNT,
            forall|i: int| 0 <= i < BINDER_COUNT ==> (#[trigger] bs@[i]).0 == binder_cap(i)
                && bs@[i].1@ == binder_name(i) && bs@[i].2@ == binder_module(i),
            k <= bs@.len(),
            last == last_binder(c, k as int),
            last < BINDER_COUNT,
        decreases bs@.len() - k,
    {
        if has(c, bs[k].0) {
            last = k;
        }
        k += 1;
    }
    let ghost want = Seq::new((last + 1) as nat, |i: int| binder_slot(c, i));
    let mut parts: Vec<&'static str> = Vec::new();
    let mut i: usize = 0;
    proof {
        reveal_strlit("");
    }
    while i <= last
        invariant
            bs@.len() == BINDER_COUNT,
            forall|i: int| 0 <= i < BINDER_COUNT ==> (#[trigger] bs@[i]).0 == binder_cap(i)
                && bs@[i].1@ == binder_name(i) && bs@[i].2@ == binder_module(i),
            last < BINDER_COUNT,
            i <= last + 1,
            want == Seq::new((last + 1) as nat, |i: int| binder_slot(c, i)),
            str_views(parts@) == want.take(i as int),
            ""@ == Seq::<char>::empty(),
        decreases last + 1 - i,
    {
        let ghost o = str_views(parts@);
        if has(c, bs[i].0) {
            parts.push(bs[i].1);
        } else {
            parts.push("");
        }
        assert(str_views(parts@) =~= o.push(want[i as int]));
        assert(want.take(i + 1) =~= want.take(i as int).push(want[i as int]));
        i += 1;
    }
    assert(want.take((last + 1) as int) =~= want);
    let mut out = String::new();
    push_str(&mut out, "const B=[");
    push_joined(&mut out, parts.as_slice(), ",");
    push_str(&mut out, "];\n");
    out
}

// ---------------------------------------------------------------------------
// Extern imports
// ---------------------------------------------------------------------------

/// `import { names } from 'base/module';`, with its newline.
pub open spec fn import_line(names: Seq<char>, base: Seq<char>, module: Seq<char>) -> Seq<char> {
    "import { "@ + names + " } from '"@ + base + "/"@ + module + "';\n"@
}

/// The import of each live binder among the first `n` op codes.
pub open spec fn binder_imports(c: Caps, base: Seq<char>, n: int) -> Seq<char>
    decreases n,
{
    if n <= 0 {
        seq![]
    } else {
        binder_imports(c, base, n - 1) + if spec_has(c, binder_cap(n - 1)) {
            import_line(binder_name(n - 1), base, binder_module(n - 1))
        } else {
            seq![]
        }
    }
}

/// A line when `b` holds, else nothing.
pub open spec fn line_when(b: bool, line: Seq<char>) -> Seq<char> {
    if b {
        line
    } else {
        seq![]
    }
}

/// The imports an extern build of a scene with capabilities `c` makes from the
/// runtime at `base`, its bodies calling `helpers`.
pub open spec fn spec_extern_imports(c: Caps, base: Seq<char>, helpers: Seq<Seq<char>>) -> Seq<char> {
    import_line("mount"@, base, "core.js"@)
        + line_when(spec_has(c, EXTRACTED), import_line("fromSprite"@, base, "sprite.js"@))
        + line_when(
            spec_has(c, EXPRESSIONS),
            import_line(joined(seq!["makeExpr"@] + helpers, ", "@), base, "expr.js"@),
        )
        + line_when(spec_has(c, TIME_REMAP), import_line("resolve"@, base, "kf.js"@))
        + line_when(spec_has(c, TEMPLATES), import_line("expand"@, base, "tpl.js"@))
        + binder_imports(c, base, BINDER_COUNT as int)
}

fn push_import(out: &mut String, names: &str, base: &str, module: &str)
    ensures
        final(out)@ == old(out)@ + import_line(names@, base@, module@),
{
    push_str(out, "import { ");
    push_str(out, names);
    push_str(out, " } from '");
    push_str(out, base);
    push_str(out, "/");
    push_str(out, module);
    push_str(out, "';\n");
}

fn push_import_when(out: &mut String, b: bool, names: &str, base: &str, module: &str)
    ensures
        final(out)@ == old(out)@ + line_when(b, import_line(names@, base@, module@)),
{
    if b {
        push_import(out, names, base, module);
    } else {
        assert(old(out)@ + line_when(b, import_line(names@, base@, module@)) =~= old(out)@);
    }
}

/// Import exactly the runtime entry points this scene binds — not an aggregate
/// driver. A bundler then sees a normal module graph and drops everything the
/// animation never reaches, the same way the embedded path does. The bodies
/// call the layer helpers by bare name, so they are imported alongside the
/// engine.
pub fn extern_imports(c: Caps, base: &str, helpers: &[&'static str]) -> (r: String)
    ensures
        r@ == spec_extern_imports(c, base@, str_views(helpers@)),
{
    let mut out = String::new();
    push_import(&mut out, "mount", base, "core.js");
    push_import_when(&mut out, has(c, EXTRACTED), "fromSprite", base, "sprite.js");
    let list = engine_imports(helpers);
    push_import_when(&mut out, has(c, EXPRESSIONS), list.as_str(), base, "expr.js");
    push_import_when(&mut out, has(c, TIME_REMAP), "resolve", base, "kf.js");
    push_import_when(&mut out, has(c, TEMPLATES), "expand", base, "tpl.js");
    push_binder_imports(&mut out, c, base);
    out
}

/// The names imported from the expression engine: the engine itself and the
/// helpers the bodies call.
fn engine_imports(helpers: &[&'static str]) -> (r: String)
    ensures
        r@ == joined(seq!["makeExpr"@] + str_views(helpers@), ", "@),
{
    let mut names: Vec<&'static str> = Vec::new();
    names.push("makeExpr");
    let mut i: usize = 0;
    while i < helpers.len()
        invariant
            i <= helpers@.len(),
            str_views(names@) == seq!["makeExpr"@] + str_views(helpers@).take(i as int),
        decreases helpers@.len() - i,
    {
        let ghost o = names@;
        names.push(helpers[i]);
        assert(str_views(names@) =~= str_views(o).push(helpers@[i as int]@));
        assert(str_views(helpers@).take(i + 1) =~= str_views(helpers@).take(i as int).push(helpers@[i as int]@));
        i += 1;
    }
    assert(str_views(helpers@).take(helpers@.len() as int) =~= str_views(helpers@));
    let mut list = String::new();
    push_joined(&mut list, names.as_slice(), ", ");
    list
}

fn push_binder_imports(out: &mut String, c: Caps, base: &str)
    ensures
        final(out)@ == old(out)@ + binder_imports(c, base@, BINDER_COUNT as int),
{
    let bs = binders();
    let ghost fixed = out@;
    let mut k: usize = 0;
    while k < bs.len()
        invariant
            bs@.len() == BINDER_COUNT,
            forall|i: int| 0 <= i < BINDER_COUNT ==> (#[trigger] bs@[i]).0 == binder_cap(i)
                && bs@[i].1@ == binder_name(i) && bs@[i].2@ == binder_module(i),
            k <= bs@.len(),
            out@ == fixed + binder_imports(c, base@, k as int),
        decreases bs@.len() - k,
    {
        let (cap, name, module) = bs[k];
        push_import_when(out, has(c, cap), name, base, module);
        k += 1;
    }
}

/// The module each live binder among the first `n` op codes lives in.
pub open spec fn binder_modules(c: Caps, n: int) -> Seq<Seq<char>>
    decreases n,
{
    if n <= 0 {
        seq![]
    } else {
        binder_modules(c, n - 1) + when(spec_has(c, binder_cap(n - 1)), binder_module(n - 1))
    }
}

/// The specifiers an extern build imports, in emission order: the module each
/// line of [`extern_imports`] names.
pub open spec fn spec_imported_modules(c: Caps) -> Seq<Seq<char>> {
    seq!["core.js"@] + when(spec_has(c, EXTRACTED), "sprite.js"@) + when(spec_has(c, EXPRESSIONS), "expr.js"@)
        + when(spec_has(c, TIME_REMAP), "kf.js"@) + when(spec_has(c, TEMPLATES), "tpl.js"@)
        + binder_modules(c, BINDER_COUNT as int)
}

fn push_string_when(r: &mut Vec<String>, b: bool, x: &str)
    ensures
        string_views(final(r)@) == string_views(old(r)@) + when(b, x@),
{
    let ghost o = r@;
    if b {
        r.push(x.to_string());
        assert(string_views(r@) =~= string_views(o) + when(b, x@));
    } else {
        assert(string_views(r@) =~= string_views(o) + when(b, x@));
    }
}

/// Specifiers an extern build imports, in emission order. Reported by the size
/// panel so a reader can see that an animation pulls four files, not a runtime.
pub fn imported_modules(c: Caps) -> (r: Vec<String>)
    ensures
        string_views(r@) == spec_imported_modules(c),
{
    let mut r: Vec<String> = Vec::new();
    push_string_when(&mut r, true, "core.js");
    assert(string_views(r@) =~= seq!["core.js"@]);
    push_string_when(&mut r, has(c, EXTRACTED), "sprite.js");
    push_string_when(&mut r, has(c, EXPRESSIONS), "expr.js");
    push_string_when(&mut r, has(c, TIME_REMAP), "kf.js");
    push_string_when(&mut r, has(c, TEMPLATES), "tpl.js");
    let bs = binders();
    let ghost fixed = string_views(r@);
    let mut k: usize = 0;
    while k < bs.len()
        invariant
            bs@.len() == BINDER_COUNT,
            forall|i: int| 0 <= i < BINDER_COUNT ==> (#[trigger] bs@[i]).0 == binder_cap(i)
                && bs@[i].1@ == binder_name(i) && bs@[i].2@ == binder_module(i),
            k <= bs@.len(),
            string_views(r@) == fixed + binder_modules(c, k as int),
        decreases bs@.len() - k,
    {
        let (cap, _, module) = bs[k];
        push_string_when(&mut r, has(c, cap), module);
        k += 1;
    }
    r
}

/// One import line per module, each naming the matching list of names.
pub open spec fn import_lines(names: Seq<Seq<char>>, base: Seq<char>, mods: Seq<Seq<char>>) -> Seq<char>
    decreases mods.len(),
{
    if mods.len() == 0 || names.len() == 0 {
        seq![]
    } else {
        import_lines(names.drop_last(), base, mods.drop_last()) + import_line(names.last(), base, mods.last())
    }
}

/// What each line of [`extern_imports`] imports, in emission order.
pub open spec fn import_names(c: Caps, helpers: Seq<Seq<char>>) -> Seq<Seq<char>> {
    seq!["mount"@] + when(spec_has(c, EXTRACTED), "fromSprite"@)
        + when(spec_has(c, EXPRESSIONS), joined(seq!["makeExpr"@] + helpers, ", "@))
        + when(spec_has(c, TIME_REMAP), "resolve"@) + when(spec_has(c, TEMPLATES), "expand"@)
        + binder_names(c, BINDER_COUNT as int)
}

proof fn lemma_import_lines_append(n1: Seq<Seq<char>>, m1: Seq<Seq<char>>, n2: Seq<Seq<char>>, m2: Seq<Seq<char>>, base: Seq<char>)
    requires
        n1.len() == m1.len(),
        n2.len() == m2.len(),
    ensures
        import_lines(n1 + n2, base, m1 + m2) == import_lines(n1, base, m1) + import_lines(n2, base, m2),
    decreases n2.len(),
{
    if n2.len() == 0 {
        assert(n1 + n2 =~= n1);
        assert(m1 + m2 =~= m1);
    } else {
        lemma_import_lines_append(n1, m1, n2.drop_last(), m2.drop_last(), base);
        assert((n1 + n2).drop_last() =~= n1 + n2.drop_last());
        assert((m1 + m2).drop_last() =~= m1 + m2.drop_last());
    }
}

proof fn lemma_import_line_when(b: bool, names: Seq<char>, base: Seq<char>, module: Seq<char>)
    ensures
        import_lines(when(b, names), base, when(b, module)) == line_when(b, import_line(names, base, module)),
{
    if b {
        assert(seq![names].drop_last() =~= Seq::<Seq<char>>::empty());
        assert(seq![module].drop_last() =~= Seq::<Seq<char>>::empty());
        assert(import_lines(Seq::<Seq<char>>::empty(), base, Seq::<Seq<char>>::empty()) == Seq::<char>::empty());
        assert(Seq::<char>::empty() + import_line(names, base, module) =~= import_line(names, base, module));
    }
}

proof fn lemma_binder_lines(c: Caps, base: Seq<char>, n: int)
    ensures
        binder_names(c, n).len() == binder_modules(c, n).len(),
        import_lines(binder_names(c, n), base, binder_modules(c, n)) == binder_imports(c, base, n),
    decreases n,
{
    if n > 0 {
        lemma_binder_lines(c, base, n - 1);
        let b = spec_has(c, binder_cap(n - 1));
        lemma_import_lines_append(
            binder_names(c, n - 1),
            binder_modules(c, n - 1),
            when(b, binder_name(n - 1)),
            when(b, binder_module(n - 1)),
            base,
        );
        lemma_import_line_when(b, binder_name(n - 1), base, binder_module(n - 1));
    }
}

/// The imports of an extern build are one line per module of
/// [`imported_modules`], in the same order: the size panel reports exactly
/// the files the module pulls.
pub proof fn lemma_imports_name_the_reported_modules(c: Caps, base: Seq<char>, helpers: Seq<Seq<char>>)
    ensures
        import_names(c, helpers).len() == spec_imported_modules(c).len(),
        spec_extern_imports(c, base, helpers) == import_lines(import_names(c, helpers), base, spec_imported_modules(c)),
{
    let n0 = seq!["mount"@];
    let m0 = seq!["core.js"@];
    let b1 = spec_has(c, EXTRACTED);
    let b2 = spec_has(c, EXPRESSIONS);
    let b3 = spec_has(c, TIME_REMAP);
    let b4 = spec_has(c, TEMPLATES);
    let x2 = joined(seq!["makeExpr"@] + helpers, ", "@);
    let n1 = n0 + when(b1, "fromSprite"@);
    let m1 = m0 + when(b1, "sprite.js"@);
    let n2 = n1 + when(b2, x2);
    let m2 = m1 + when(b2, "expr.js"@);
    let n3 = n2 + when(b3, "resolve"@);
    let m3 = m2 + when(b3, "kf.js"@);
    let n4 = n3 + when(b4, "expand"@);
    let m4 = m3 + when(b4, "tpl.js"@);
    let bn = binder_names(c, BINDER_COUNT as int);
    let bm = binder_modules(c, BINDER_COUNT as int);
    lemma_binder_lines(c, base, BINDER_COUNT as int);
    assert(n0.drop_last() =~= Seq::<Seq<char>>::empty());
    assert(m0.drop_last() =~= Seq::<Seq<char>>::empty());
    assert(import_lines(Seq::<Seq<char>>::empty(), base, Seq::<Seq<char>>::empty()) == Seq::<char>::empty());
    assert(Seq::<char>::empty() + import_line("mount"@, base, "core.js"@) =~= import_line("mount"@, base, "core.js"@));
    assert(import_lines(n0, base, m0) == import_line("mount"@, base, "core.js"@));
    lemma_import_lines_append(n0, m0, when(b1, "fromSprite"@), when(b1, "sprite.js"@), base);
    lemma_import_line_when(b1, "fromSprite"@, base, "sprite.js"@);
    lemma_import_lines_append(n1, m1, when(b2, x2), when(b2, "expr.js"@), base);
    lemma_import_line_when(b2, x2, base, "expr.js"@);
    lemma_import_lines_append(n2, m2, when(b3, "resolve"@), when(b3, "kf.js"@), base);
    lemma_import_line_when(b3, "resolve"@, base, "kf.js"@);
    lemma_import_lines_append(n3, m3, when(b4, "expand"@), when(b4, "tpl.js"@), base);
    lemma_import_line_when(b4, "expand"@, base, "tpl.js"@);
    lemma_import_lines_append(n4, m4, bn, bm, base);
    assert(import_names(c, helpers) == n4 + bn);
    assert(spec_imported_modules(c) == m4 + bm);
}

// ---------------------------------------------------------------------------
// JS string literals
// ---------------------------------------------------------------------------

/// The lowercase hexadecimal digit for a value below sixteen.
pub open spec fn hex_digit(d: int) -> char {
    if d < 10 {
        crate::text::digit_char(d as nat)
    } else if d == 10 { 'a' }
    else if d == 11 { 'b' }
    else if d == 12 { 'c' }
    else if d == 13 { 'd' }
    else if d == 14 { 'e' }
    else { 'f' }
}

/// How one character is written inside a single-quoted JS string literal.
pub open spec fn js_escape(c: char) -> Seq<char> {
    if c == '\'' {
        seq!['\\', '\'']
    } else if c == '\\' {
        seq!['\\', '\\']
    } else if c == '\n' {
        seq!['\\', 'n']
    } else if c == '\r' {
        seq!['\\', 'r']
    } else if c == '\u{2028}' {
        seq!['\\', 'u', '2', '0', '2', '8']
    } else if c == '\u{2029}' {
        seq!['\\', 'u', '2', '0', '2', '9']
    } else if (c as int) < 0x20 {
        seq!['\\', 'u', '0', '0', hex_digit((c as int) / 16), hex_digit((c as int) % 16)]
    } else {
        seq![c]
    }
}

/// Every character of `s` escaped.
pub open spec fn js_escaped(s: Seq<char>) -> Seq<char>
    decreases s.len(),
{
    if s.len() == 0 {
        seq![]
    } else {
        js_escaped(s.drop_last()) + js_escape(s.last())
    }
}

/// A character written as itself inside a single-quoted literal.
pub open spec fn plain_char(c: char) -> bool {
    c != '\'' && c != '\\' && (c as int) >= 0x20 && c != '\u{2028}' && c != '\u{2029}'
}

/// A line terminator, which a JS string literal cannot hold raw.
pub open spec fn line_terminator(c: char) -> bool {
    c == '\n' || c == '\r' || c == '\u{2028}' || c == '\u{2029}'
}

proof fn lemma_escaped_plain(s: Seq<char>)
    requires
        forall|i: int| 0 <= i < s.len() ==> plain_char(#[trigger] s[i]),
    ensures
        js_escaped(s) == s,
    decreases s.len(),
{
    if s.len() > 0 {
        assert forall|i: int| 0 <= i < s.drop_last().len() implies plain_char(#[trigger] s.drop_last()[i]) by {
            assert(s.drop_last()[i] == s[i]);
        }
        lemma_escaped_plain(s.drop_last());
        assert(plain_char(s[s.len() - 1]));
        assert(s.drop_last() + seq![s.last()] =~= s);
    }
}

/// Text with no quote, backslash, control character or line separator needs
/// no escaping: its literal is the text between single quotes. Generated
/// markup only uses double quotes, so it is always this case.
pub proof fn lemma_plain_text_is_quoted_as_is(s: Seq<char>)
    requires
        forall|i: int| 0 <= i < s.len() ==> plain_char(#[trigger] s[i]),
    ensures
        spec_js_string(s) == seq!['\''] + s + seq!['\''],
{
    lemma_escaped_plain(s);
}

proof fn lemma_escaped_one_line(s: Seq<char>)
    ensures
        forall|i: int| 0 <= i < js_escaped(s).len() ==> !line_terminator(#[trigger] js_escaped(s)[i]),
    decreases s.len(),
{
    if s.len() > 0 {
        lemma_escaped_one_line(s.drop_last());
        let p = js_escaped(s.drop_last());
        let e = js_escape(s.last());
        let c = s.last();
        assert(forall|i: int| 0 <= i < e.len() ==> !line_terminator(#[trigger] e[i])) by {
            assert(!line_terminator(hex_digit((c as int) / 16)));
            assert(!line_terminator(hex_digit((c as int) % 16)));
        }
        assert forall|i: int| 0 <= i < js_escaped(s).len() implies !line_terminator(#[trigger] js_escaped(s)[i]) by {
            if i < p.len() {
                assert(js_escaped(s)[i] == p[i]);
            } else {
                assert(js_escaped(s)[i] == e[i - p.len()]);
            }
        }
    }
}

/// A literal always stays on one line: every line terminator in the text is
/// escaped, so the literal holds none raw.
pub proof fn lemma_js_string_is_one_line(s: Seq<char>)
    ensures
        forall|i: int| 0 <= i < spec_js_string(s).len() ==> !line_terminator(#[trigger] spec_js_string(s)[i]),
{
    lemma_escaped_one_line(s);
    let e = js_escaped(s);
    assert forall|i: int| 0 <= i < spec_js_string(s).len() implies !line_terminator(#[trigger] spec_js_string(s)[i]) by {
        if 0 < i < spec_js_string(s).len() - 1 {
            assert(spec_js_string(s)[i] == e[i - 1]);
        }
    }
}

/// `s` as a single-quoted JS string literal.
pub open spec fn spec_js_string(s: Seq<char>) -> Seq<char> {
    seq!['\''] + js_escaped(s) + seq!['\'']
}

fn hex(d: u32) -> (r: char)
    requires
        d < 16,
    ensures
        r == hex_digit(d as int),
{
    if d == 0 { '0' }
    else if d == 1 { '1' }
    else if d == 2 { '2' }
    else if d == 3 { '3' }
    else if d == 4 { '4' }
    else if d == 5 { '5' }
    else if d == 6 { '6' }
    else if d == 7 { '7' }
    else if d == 8 { '8' }
    else if d == 9 { '9' }
    else if d == 10 { 'a' }
    else if d == 11 { 'b' }
    else if d == 12 { 'c' }
    else if d == 13 { 'd' }
    else if d == 14 { 'e' }
    else { 'f' }
}

fn push_escaped(out: &mut String, c: char)
    ensures
        final(out)@ == old(out)@ + js_escape(c),
{
    let ghost o = out@;
    if c == '\'' {
        push_char(out, '\\');
        push_char(out, '\'');
    } else if c == '\\' {
        push_char(out, '\\');
        push_char(out, '\\');
    } else if c == '\n' {
        push_char(out, '\\');
        push_char(out, 'n');
    } else if c == '\r' {
        push_char(out, '\\');
        push_char(out, 'r');
    } else if c == '\u{2028}' {
        push_char(out, '\\');
        push_char(out, 'u');
        push_char(out, '2');
        push_char(out, '0');
        push_char(out, '2');
        push_char(out, '8');
    } else if c == '\u{2029}' {
        push_char(out, '\\');
        push_char(out, 'u');
        push_char(out, '2');
        push_char(out, '0');
        push_char(out, '2');
        push_char(out, '9');
    } else {
        let v = c as u32;
        if v < 0x20 {
            push_char(out, '\\');
            push_char(out, 'u');
            push_char(out, '0');
            push_char(out, '0');
            push_char(out, hex(v / 16));
            push_char(out, hex(v % 16));
        } else {
            push_char(out, c);
        }
    }
    assert(out@ =~= o + js_escape(c));
}

/// Single-quoted JS string literal. Generated markup only ever uses double
/// quotes for attributes, so the common case needs no escaping at all.
pub fn js_string(s: &str) -> (r: String)
    ensures
        r@ == spec_js_string(s@),
{
    let cs = crate::text::chars_of(s);
    let mut out = String::new();
    push_char(&mut out, '\'');
    let mut i: usize = 0;
    while i < cs.len()
        invariant
            cs@ == s@,
            i <= cs@.len(),
            out@ == seq!['\''] + js_escaped(cs@.take(i as int)),
        decreases cs@.len() - i,
    {
        assert(cs@.take(i + 1).drop_last() =~= cs@.take(i as int));
        push_escaped(&mut out, cs[i]);
        i += 1;
    }
    assert(cs@.take(cs@.len() as int) =~= cs@);
    push_char(&mut out, '\'');
    out
}

// ---------------------------------------------------------------------------
// Module text around the runtime
// ---------------------------------------------------------------------------

/// Human-readable capability list: the names in bit order, or `none`.
pub open spec fn spec_caps_list(c: Caps) -> Seq<char> {
    if spec_names_of(c).len() == 0 {
        "none"@
    } else {
        joined(spec_names_of(c), " | "@)
    }
}

/// Human-readable capability list, so a review diff shows when a change made
/// an animation stop needing (or start needing) a runtime feature.
pub fn caps_list(c: Caps) -> (r: String)
    ensures
        r@ == spec_caps_list(c),
{
    let names = names_of(c);
    let mut out = String::new();
    if names.len() == 0 {
        push_str(&mut out, "none");
    } else {
        push_joined(&mut out, names.as_slice(), " | ");
    }
    out
}

/// Where a module's markup comes from.
pub enum MarkupMode {
    /// The whole document is carried in the module.
    Inline,
    /// The document lives in an external sprite under this symbol id; the
    /// module carries only the `<svg>` shell.
    Extracted(String),
}

/// The symbol a module sources its markup from, so a consumer can tell which
/// sprite entry it needs without parsing the module. Empty in inline mode.
pub open spec fn spec_sprite_export(m: &MarkupMode) -> Seq<char> {
    match m {
        MarkupMode::Inline => seq![],
        MarkupMode::Extracted(id) => "export const spriteSymbol = "@ + spec_js_string(id@) + ";\n"@,
    }
}

/// The export naming the sprite symbol, in extracted mode.
pub fn sprite_export(m: &MarkupMode) -> (r: String)
    ensures
        r@ == spec_sprite_export(m),
{
    match m {
        MarkupMode::Inline => {
            let r = String::new();
            assert(r@ =~= Seq::<char>::empty());
            r
        },
        MarkupMode::Extracted(id) => {
            let mut out = String::new();
            push_str(&mut out, "export const spriteSymbol = ");
            let q = js_string(id.as_str());
            push_str(&mut out, q.as_str());
            push_str(&mut out, ";\n");
            out
        },
    }
}

/// The hooks a module hands the runtime's `init`, in order.
pub open spec fn extension_parts(c: Caps, templated: bool, pool: bool, scripted: bool, m: &MarkupMode) -> Seq<Seq<char>> {
    (match m {
        MarkupMode::Extracted(id) => seq!["s:fromSprite("@ + spec_js_string(id@) + ")"@],
        MarkupMode::Inline => seq![],
    }) + when(templated, "t:s=>expand(s,TPL)"@) + when(pool, "p:SP"@) + when(spec_has(c, TIME_REMAP), "r:resolve"@)
        + when(scripted, "x:v=>makeExpr(E,v)"@)
}

/// The extension object appended to `init`'s arguments: `,{…}` with the
/// hooks comma-separated, or nothing when there is none.
pub open spec fn spec_extensions(c: Caps, templated: bool, pool: bool, scripted: bool, m: &MarkupMode) -> Seq<char> {
    let parts = extension_parts(c, templated, pool, scripted, m);
    if parts.len() == 0 {
        seq![]
    } else {
        ",{"@ + joined(parts, ","@) + "}"@
    }
}

/// The hooks `init` needs beyond the data: sprite sourcing, template
/// expansion, the string pool, time remapping and the expression engine.
///
/// Template expansion is gated on the templates themselves, not on the
/// capability: `TPL` is only declared when there is something to put in it,
/// and the two drifting apart is a module that throws at `init`.
pub fn extensions(c: Caps, tpl: &[String], pool: bool, exprs: Option<&crate::backend::layers::Exprs>, m: &MarkupMode) -> (r: String)
    requires
        tpl@.len() > 0 ==> spec_has(c, TEMPLATES),
    ensures
        r@ == spec_extensions(c, tpl@.len() > 0, pool, exprs is Some, m),
{
    let ghost want = extension_parts(c, tpl@.len() > 0, pool, exprs is Some, m);
    let mut parts: Vec<String> = Vec::new();
    if let MarkupMode::Extracted(id) = m {
        let mut p = String::new();
        push_str(&mut p, "s:fromSprite(");
        let q = js_string(id.as_str());
        push_str(&mut p, q.as_str());
        push_str(&mut p, ")");
        parts.push(p);
    }
    let ghost p0 = string_views(parts@);
    if tpl.len() > 0 {
        parts.push(String::from_str("t:s=>expand(s,TPL)"));
    }
    let ghost p1 = string_views(parts@);
    if pool {
        parts.push(String::from_str("p:SP"));
    }
    let ghost p2 = string_views(parts@);
    if has(c, TIME_REMAP) {
        parts.push(String::from_str("r:resolve"));
    }
    let ghost p3 = string_views(parts@);
    if exprs.is_some() {
        parts.push(String::from_str("x:v=>makeExpr(E,v)"));
    }
    assert(p1 =~= p0 + when(tpl@.len() > 0, "t:s=>expand(s,TPL)"@));
    assert(p2 =~= p1 + when(pool, "p:SP"@));
    assert(p3 =~= p2 + when(spec_has(c, TIME_REMAP), "r:resolve"@));
    assert(string_views(parts@) =~= p3 + when(exprs is Some, "x:v=>makeExpr(E,v)"@));
    assert(string_views(parts@) =~= want);
    let mut out = String::new();
    if parts.len() > 0 {
        push_str(&mut out, ",{");
        push_joined_strings(&mut out, parts.as_slice(), ",");
        push_str(&mut out, "}");
    } else {
        assert(out@ =~= Seq::<char>::empty());
    }
    out
}

} // verus!
