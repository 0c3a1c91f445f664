use ulottie_compiler::backend::emit::{caps_list, js_string};
use ulottie_compiler::backend::rn::assemble::rn_module;
use ulottie_compiler::backend::rn::tree::tree_js;
use ulottie_compiler::backend::rn::{assign_slots, parse_markup};
use ulottie_compiler::backend::shake::Decl;
use ulottie_compiler::caps;

const HEAD: &str = "// Generated by ulottie \u{2014} reanimated-aot target (react-native-svg + react-native-reanimated).\n\
// Deliberately unminified: Metro's reanimated plugin reads the 'worklet' directives\n\
// before its own minifier runs; a minifier here could strip them.\n";

fn descriptor(markup: &str, bound: &Vec<usize>) -> String {
    let mut root = parse_markup(markup).unwrap();
    let mut next = 0;
    assign_slots(&mut root, true, &mut next);
    let mut out = String::new();
    tree_js(&root, true, bound, 0, &mut out, &vec![]).unwrap();
    out
}

#[test]
fn a_static_module_is_the_tree_and_an_inert_init() {
    let markup = r#"<svg width="100%" viewBox="0 0 12 8"><rect width="2"/></svg>"#;
    let (src, count) =
        rn_module(markup, &vec![], 0, true, &[], "", "", &[], "30", "0", "60", &vec![]).unwrap();
    assert_eq!(count, 1);
    let expected = format!(
        "{HEAD}// caps: none\n\n\
         // Fully static after compilation: the tree descriptor is the whole picture.\n\
         // `init` returns an inert instance so consumers keep one code path.\n\n\
         export const tree =\n{};\n\n\
         export const meta = {{ fr: 30, ip: 0, op: 60, width: 12, height: 8 }};\n\
         export const init = () => {{ 'worklet'; return {{ els: [], dirty: [], apply: function () {{ 'worklet'; }}, fr: 30, ip: 0, op: 60 }}; }};\n",
        descriptor(markup, &vec![])
    );
    assert_eq!(src, expected);
}

#[test]
fn a_numeric_root_size_wins_over_the_view_box_and_none_gives_zero() {
    let (src, _) = rn_module(
        r#"<svg width="64" viewBox="0 0 12 8"/>"#,
        &vec![],
        0,
        true,
        &[],
        "",
        "",
        &[],
        "25",
        "0",
        "1",
        &vec![],
    )
    .unwrap();
    assert!(src.contains("export const meta = { fr: 25, ip: 0, op: 1, width: 64, height: 8 };\n"));
    let (src, count) =
        rn_module("<svg/>", &vec![], 0, true, &[], "", "", &[], "25", "0", "1", &vec![]).unwrap();
    assert_eq!(count, 0);
    assert!(src.contains("width: 0, height: 0 };\n"));
}

#[test]
fn an_animated_module_carries_the_runtime_and_mounts_its_slots() {
    let markup = r#"<svg viewBox="0 0 4 4"><g><rect width="2"/></g></svg>"#;
    let kept = vec![Decl {
        name: "mountRn".to_string(),
        text: "function mountRn(d) {\n  return d;\n}\n".to_string(),
        refs: vec![],
    }];
    let program = "function P0() { 'worklet'; return 0; }\nfunction A0() { 'worklet'; }\n";
    let strings = vec!["a'b".to_string()];
    let c = caps::TIME_REMAP;
    let (src, count) =
        rn_module(markup, &vec![1], c, false, &kept, program, "{}", &strings, "30", "0", "90", &vec![]).unwrap();
    assert_eq!(count, 2);
    let expected = format!(
        "{HEAD}// caps: {}\n\n\
         // runtime symbols: mountRn\n\
         function mountRn(d) {{ 'worklet';\n  return d;\n}}\n\
         {program}\n\
         const D = {{}};\n\
         const SP = [{}];\n\n\
         export const tree =\n{};\n\n\
         export const meta = {{ fr: 30, ip: 0, op: 90, width: 4, height: 4 }};\n\
         export const init = () => {{ 'worklet'; return mountRn(D, P0, A0, 2, {{ p: SP, r: resolve }}); }};\n",
        caps_list(c),
        js_string("a'b"),
        descriptor(markup, &vec![1])
    );
    assert_eq!(src, expected);
}

#[test]
fn without_strings_or_remapping_the_mount_takes_no_options() {
    let (src, _) =
        rn_module("<svg><rect/></svg>", &vec![0], 0, false, &[], "", "{}", &[], "1", "0", "2", &vec![]).unwrap();
    assert!(src.ends_with("return mountRn(D, P0, A0, 1); };\n"));
    assert!(!src.contains("const SP"));
}

#[test]
fn a_root_other_than_svg_is_refused() {
    assert_eq!(
        rn_module("<g/>", &vec![], 0, true, &[], "", "", &[], "1", "0", "2", &vec![]).unwrap_err(),
        "the document root is <g>"
    );
}

#[test]
fn a_binding_past_the_last_slot_is_refused() {
    assert_eq!(
        rn_module("<svg><rect/></svg>", &vec![0, 3], 0, false, &[], "", "{}", &[], "1", "0", "2", &vec![])
            .unwrap_err(),
        "binding addresses element 3 but the tree has 1"
    );
}

#[test]
fn markup_errors_come_through_unchanged() {
    assert_eq!(
        rn_module("x", &vec![], 0, true, &[], "", "", &[], "1", "0", "2", &vec![]).unwrap_err(),
        "expected '<' at byte 0"
    );
}
