use ulottie_compiler::backend::shake::{declarations, shake};
use ulottie_compiler::caps;

const SRC: &str = "\
// header
export function a(x) {
  return b(x);
}

/** doc for b */
function b(x) {
  return x + 1;
}

export function unused() {
  return b(0);
}
";

#[test]
fn declarations_split_on_column_zero() {
    let d = declarations(SRC);
    assert_eq!(
        d.iter().map(|x| x.name.as_str()).collect::<Vec<_>>(),
        ["a", "b", "unused"]
    );
    assert!(d[0].text.contains("return b(x);"));
    // The `export` keyword is dropped; the body is intact.
    assert!(d[0].text.starts_with("// header\nfunction a(x) {"));
}

#[test]
fn unreachable_declarations_are_dropped() {
    let kept = shake(declarations(SRC), &["a"], caps::NONE);
    assert_eq!(
        kept.iter().map(|x| x.name.as_str()).collect::<Vec<_>>(),
        ["a", "b"]
    );
}

#[test]
fn a_comment_mentioning_a_symbol_does_not_keep_it_alive() {
    let src = "\
export function a() {\n  // calls b() one day\n  return 1;\n}\nfunction b() { return 2; }\n";
    let kept = shake(declarations(src), &["a"], caps::NONE);
    assert_eq!(
        kept.iter().map(|x| x.name.as_str()).collect::<Vec<_>>(),
        ["a"]
    );
}

#[test]
fn gated_edges_are_cut_when_the_capability_is_absent() {
    let src = "\
export function keyframed() {\n  return EASE(1);\n}\nfunction EASE(x) { return x; }\n";
    let without = shake(declarations(src), &["keyframed"], caps::NONE);
    assert_eq!(without.len(), 1, "EASE must be cut without the easing cap");
    let with = shake(declarations(src), &["keyframed"], caps::EASING);
    assert_eq!(with.len(), 2, "EASE must survive when easing is used");
}

#[test]
fn a_header_comment_is_attached_to_the_first_declaration() {
    let d = declarations("// one\n/* two */\nimport { x } from './x.js';\nconst k = 1;\nexport { k };\n");
    assert_eq!(d.len(), 1);
    assert_eq!(d[0].name, "k");
    assert_eq!(d[0].text, "// one\n/* two */\nconst k = 1;\n");
}

#[test]
fn a_property_access_is_not_a_reference() {
    let src = "function a(ext) {\n  return ext.r + 1;\n}\nfunction r() {}\n";
    let kept = shake(declarations(src), &["a"], caps::NONE);
    assert_eq!(kept.len(), 1);
}

#[test]
fn a_root_that_names_nothing_keeps_nothing() {
    let kept = shake(declarations(SRC), &["nope"], caps::ALL);
    assert!(kept.is_empty());
}

#[test]
fn each_declaration_carries_the_comment_block_that_precedes_it() {
    let d = declarations(SRC);
    assert_eq!(d[0].text, "// header\nfunction a(x) {\n  return b(x);\n}\n\n");
    assert!(d[1].text.starts_with("/** doc for b */\nfunction b(x) {"));
    assert_eq!(d[2].text, "function unused() {\n  return b(0);\n}\n");
}

#[test]
fn a_comment_inside_a_body_stays_there_and_a_trailing_one_is_dropped() {
    let src = "function a() {\n  // step\n\n  return 1;\n}\n// the end\n";
    let d = declarations(src);
    assert_eq!(d.len(), 1);
    assert_eq!(d[0].text, "function a() {\n  // step\n\n  return 1;\n}\n");
}

#[test]
fn more_roots_or_capabilities_never_keep_less() {
    let src = "\
function a() {\n  return EASE(1);\n}\nfunction EASE(x) { return x; }\nfunction b() {\n  return 2;\n}\n";
    let names = |ds: &Vec<ulottie_compiler::backend::shake::Decl>| ds.iter().map(|d| d.name.clone()).collect::<Vec<_>>();
    let small = names(&shake(declarations(src), &["a"], caps::NONE));
    let more_roots = names(&shake(declarations(src), &["a", "b"], caps::NONE));
    let more_caps = names(&shake(declarations(src), &["a"], caps::EASING));
    assert_eq!(small, ["a"]);
    assert_eq!(more_roots, ["a", "b"]);
    assert_eq!(more_caps, ["a", "EASE"]);
    for n in &small {
        assert!(more_roots.contains(n) && more_caps.contains(n));
    }
}

#[test]
fn what_is_kept_is_the_closure_of_the_roots_and_nothing_more() {
    let src = "function a() {\n  return b();\n}\nfunction b() {\n  return c();\n}\nfunction c() {\n  return 1;\n}\nfunction d() {\n  return a();\n}\n";
    let names = |roots: &[&str]| {
        shake(declarations(src), roots, caps::NONE).iter().map(|x| x.name.clone()).collect::<Vec<_>>()
    };
    // `a` pulls in `b`, which pulls in `c`; nothing references `d`.
    assert_eq!(names(&["a"]), ["a", "b", "c"]);
    // Roots that name nothing add nothing.
    assert_eq!(names(&["b", "missing"]), ["b", "c"]);
    // More roots keep more.
    assert_eq!(names(&["d"]), ["a", "b", "c", "d"]);
}
