//! The runtime's own JS sources are not part of this crate; these tests run the
//! bundler over a small stand-in runtime with the same module registry and the
//! dependency shapes the assertions are about.

use ulottie_compiler::backend::emit::{
    all_declarations, build_driver, bundle, caps_of, driver_source, helpers_of, module_names, modules,
    retained_symbols, roots, runtime_pretty, runtime_size, runtime_size_with, runtime_source, shaken, MarkupMode,
    Mod,
};
use ulottie_compiler::backend::layers::Exprs;
use ulottie_compiler::backend::skia::skia_declarations;
use ulottie_compiler::caps;
use std::collections::BTreeSet;

const EXPR_HELPERS: &[&str] = &[
    "lyAt", "lyRel", "lyParent", "lyPos", "lyAnchor", "lyScale", "lyRot", "lyOpacity", "lyPath",
    "lyPoints", "lyClosed", "lyEffect", "toComp", "fromCompToSurface",
];

fn source(name: &str) -> String {
    match name {
        "num.js" => "// number formatting\nexport function r(v) {\n  return v;\n}\nexport function r2(v) {\n  return v;\n}\nexport function r5(v) {\n  return v;\n}\n".to_string(),
        "spatial.js" => "export function spatial(k) {\n  return k;\n}\n".to_string(),
        "path.js" => "export function pathD(p) {\n  return p;\n}\n".to_string(),
        "trim.js" => "import { pathD } from './path.js';\nexport function trimApply(p) {\n  return pathD(p);\n}\n".to_string(),
        "expr.js" => "export function makeExpr(E, v) {\n  return E;\n}\nexport function lyAt(l, i) {\n  return l;\n}\nexport { makeExpr as engine };\n".to_string(),
        "ops/txt.js" => "import { r2, r5 } from '../num.js';\nexport function bTranslate(el) {\n  return r2(el) + r5(el);\n}\n".to_string(),
        "ops/grad.js" => "import { r } from '../num.js';\nexport function bGradient(el) {\n  return r(el);\n}\n".to_string(),
        "ops/shape.js" => "export function bShape(el, t) {\n  return t ? trimApply(el) : pathD(el);\n}\n".to_string(),
        "ops/display.js" => "export function oDisplay(el) {\n  return put(el);\n}\n".to_string(),
        "ops/rect.js" => "export function oRect(el) {\n  return put(el);\n}\n".to_string(),
        "set.js" => "export function put(el, v) {\n  el.v = v;\n}\n".to_string(),
        "kf.js" => "export const kzero = () => 0;\nexport function trim(v) {\n  return v;\n}\n".to_string(),
        "core.js" => "// the entry point\nexport function mount(M, D, B) {\n  return B;\n}\n".to_string(),
        other => format!("// {other}\n"),
    }
}

fn runtime() -> Vec<Mod> {
    modules(module_names().iter().map(|n| source(n)).collect()).unwrap()
}

#[test]
fn bundling_drops_module_syntax() {
    let out = bundle(&runtime(), caps::ALL, EXPR_HELPERS);
    assert!(!out.contains("import "), "bundle still has an import");
    assert!(!out.contains("export "), "bundle still has an export");
}

#[test]
fn a_scene_only_carries_what_it_reaches() {
    let rt = runtime();
    let translate_only = retained_symbols(&rt, caps::TRANSLATE, &[]);
    assert!(translate_only.contains(&"bTranslate".to_string()));
    assert!(!translate_only.contains(&"bGradient".to_string()));
    assert!(!translate_only.contains(&"trimApply".to_string()));
    assert!(!translate_only.contains(&"spatial".to_string()));
    assert!(!translate_only.contains(&"r".to_string()));

    let trimmed = retained_symbols(&rt, caps::SHAPE | caps::TRIM, &[]);
    assert!(trimmed.contains(&"trimApply".to_string()));
    assert!(trimmed.contains(&"pathD".to_string()));
}

#[test]
fn the_rn_names_do_not_collide_with_web_declarations() {
    let web: Vec<String> = all_declarations(&runtime()).into_iter().map(|d| d.name).collect();
    for name in ["put", "oDisplay", "oRect", "trim", "kzero"] {
        assert!(web.contains(&name.to_string()), "override `{name}` has no web original");
    }
    for name in ["rput", "rnProp", "rnMatrix", "mountRn"] {
        assert!(!web.contains(&name.to_string()), "`{name}` collides with a web name");
    }
}

#[test]
fn a_trim_edge_is_cut_without_the_trim_capability() {
    let rt = runtime();
    let shape_only = retained_symbols(&rt, caps::SHAPE, &[]);
    assert_eq!(shape_only, ["pathD", "bShape", "mount"]);
}

#[test]
fn roots_follow_the_capabilities() {
    assert_eq!(roots(caps::NONE, &[]), ["mount"]);
    assert_eq!(
        roots(caps::EXPRESSIONS | caps::TIME_REMAP | caps::FILL | caps::TRANSFORM, &["lyAt"]),
        ["mount", "makeExpr", "lyAt", "resolve", "bTransform", "bFill"]
    );
}

#[test]
fn the_pretty_runtime_is_the_capability_bundle() {
    let rt = runtime();
    let pretty = runtime_pretty(&rt, caps::TRANSLATE);
    assert_eq!(
        pretty,
        "function r2(v) {\n  return v;\n}\nfunction r5(v) {\n  return v;\n}\nfunction bTranslate(el) {\n  return r2(el) + r5(el);\n}\n// the entry point\nfunction mount(M, D, B) {\n  return B;\n}\n"
    );
    assert_eq!(bundle(&rt, caps::TRANSLATE, &[]), pretty);
}

#[test]
fn minified_runtimes_are_smaller_and_keep_the_entry_points() {
    let rt = runtime();
    let src = runtime_source(&rt, caps::TRANSLATE);
    assert!(!src.is_empty());
    assert!(src.len() < runtime_pretty(&rt, caps::TRANSLATE).len());
    assert_eq!(runtime_size(&rt, caps::TRANSLATE), src.len());
    assert!(runtime_size_with(&rt, caps::TRANSLATE, &["lyAt"]) >= runtime_size(&rt, caps::TRANSLATE));
    let driver = driver_source(&rt);
    assert!(driver.ends_with("const B=[bTransform,bTranslate,bOpacity,bDisplay,bShape,bRect,bEllipse,bFill,bStroke,bGradient,bLayerTx,bLayerOpacity];\n"));
    let built = build_driver(&rt);
    assert!(!built.is_empty());
    assert!(built.contains("mount"));
}

#[test]
fn shaking_from_roots_keeps_what_they_reach_in_order() {
    let rt = runtime();
    let out = shaken(&rt, &["trimApply"]);
    assert_eq!(out, "export function pathD(p) {\n  return p;\n}\nexport function trimApply(p) {\n  return pathD(p);\n}\n"
        .replace("export ", ""));
    assert_eq!(shaken(&rt, &[]), "");
}

#[test]
fn helpers_and_delivery_caps() {
    let e = Exprs { src: String::new(), helpers: vec!["lyAt", "toComp"], bodies: vec![] };
    assert_eq!(helpers_of(Some(&e)), ["lyAt", "toComp"]);
    assert!(helpers_of(None).is_empty());
    assert_eq!(caps_of(caps::FILL, &MarkupMode::Inline), caps::FILL);
    assert_eq!(caps_of(caps::FILL, &MarkupMode::Extracted("s".to_string())), caps::FILL | caps::EXTRACTED);
}

#[test]
fn the_driver_bundles_and_minifies() {
    let d = build_driver(&runtime());
    assert!(!d.is_empty());
    assert!(d.contains("mount"));
}

fn skia_runtime() -> Vec<Mod> {
    let mut src = String::new();
    for name in ["put", "oDisplay", "oRect", "trim", "kzero"] {
        src.push_str(&format!("export function {name}(el) {{\n  return rput(el);\n}}\n"));
    }
    for name in [
        "rput", "skSet", "skMatrix", "skNums", "skGeom", "skPaints", "skGrad", "skOwn", "skFxPaint", "skGradRec",
        "skFx", "skPrepare", "skDraw", "skShape", "skGeomDraw", "mountRn", "mountSkia",
    ] {
        src.push_str(&format!("export function {name}(el) {{\n  return el;\n}}\n"));
    }
    vec![Mod { name: "skia/draw.js", src }]
}

#[test]
fn the_skia_names_do_not_collide_with_web_declarations() {
    let rt = runtime();
    let web: BTreeSet<String> = all_declarations(&rt).into_iter().map(|d| d.name).collect();
    let mut names = BTreeSet::new();
    for d in skia_declarations(&rt, &skia_runtime()) {
        assert!(names.insert(d.name.clone()), "duplicate declaration `{}`", d.name);
    }
    for name in ["put", "oDisplay", "oRect", "trim", "kzero"] {
        assert!(web.contains(name), "override `{name}` has no web original");
    }
    for name in [
        "rput", "skSet", "skMatrix", "skNums", "skGeom", "skPaints", "skGrad", "skOwn", "skFxPaint", "skGradRec",
        "skFx", "skPrepare", "skDraw", "skShape", "skGeomDraw", "mountRn", "mountSkia",
    ] {
        assert!(!web.contains(name), "`{name}` collides with a web name");
        assert!(names.contains(name), "`{name}` is not declared");
    }
}
