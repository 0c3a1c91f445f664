use ulottie_compiler::backend::emit::{
    binder_table, caps_list, extensions, extern_imports, imported_modules, js_string, module_names,
    modules, sprite_export, MarkupMode,
};
use ulottie_compiler::backend::layers::Exprs;
use ulottie_compiler::caps;

#[test]
fn extern_imports_name_each_binder_module() {
    let imports = extern_imports(caps::TRANSLATE | caps::FILL, "./runtime", &[]);
    assert_eq!(
        imports,
        "import { mount } from './runtime/core.js';\n\
         import { bTranslate } from './runtime/ops/txt.js';\n\
         import { bFill } from './runtime/ops/fill.js';\n"
    );
}

#[test]
fn binder_table_leaves_holes_for_absent_ops() {
    assert_eq!(binder_table(caps::TRANSLATE), "const B=[,bTranslate];\n");
    assert_eq!(
        binder_table(caps::TRANSFORM | caps::OPACITY),
        "const B=[bTransform,,bOpacity];\n"
    );
}

#[test]
fn markup_needs_no_escaping_in_the_common_case() {
    assert_eq!(js_string(r#"<svg a="1"/>"#), r#"'<svg a="1"/>'"#);
    assert_eq!(js_string("id--u"), "'id--u'");
}

#[test]
fn js_string_escapes_quotes_backslashes_and_controls() {
    assert_eq!(js_string("it's"), "'it\\'s'");
    assert_eq!(js_string("a\\b"), "'a\\\\b'");
    assert_eq!(js_string("a\nb\rc"), "'a\\nb\\rc'");
    assert_eq!(js_string("\u{1}\u{1f}"), "'\\u0001\\u001f'");
    assert_eq!(js_string("\u{2028}\u{2029}"), "'\\u2028\\u2029'");
}

#[test]
fn an_empty_binder_table_has_one_hole() {
    assert_eq!(binder_table(caps::NONE), "const B=[];\n");
    assert_eq!(binder_table(caps::LAYER_OP), "const B=[,,,,,,,,,,,bLayerOpacity];\n");
}

#[test]
fn extern_imports_bring_the_engine_and_its_helpers() {
    let imports = extern_imports(
        caps::EXPRESSIONS | caps::TIME_REMAP | caps::TEMPLATES | caps::EXTRACTED,
        ".",
        &["lyAt", "clamp"],
    );
    assert_eq!(
        imports,
        "import { mount } from './core.js';\n\
         import { fromSprite } from './sprite.js';\n\
         import { makeExpr, lyAt, clamp } from './expr.js';\n\
         import { resolve } from './kf.js';\n\
         import { expand } from './tpl.js';\n"
    );
}

#[test]
fn imported_modules_are_the_specifiers_of_the_import_lines() {
    for c in [
        caps::NONE,
        caps::TRANSLATE | caps::FILL,
        caps::LAYER_TX | caps::LAYER_OP | caps::EXPRESSIONS,
        caps::ALL,
    ] {
        let from_lines: Vec<String> = extern_imports(c, ".", &[])
            .lines()
            .filter_map(|l| l.split_once("from './").map(|(_, r)| r))
            .filter_map(|r| r.split_once('\'').map(|(m, _)| m.to_string()))
            .collect();
        assert_eq!(imported_modules(c), from_lines);
    }
    assert_eq!(
        imported_modules(caps::TRANSLATE | caps::FILL),
        ["core.js", "ops/txt.js", "ops/fill.js"]
    );
}

#[test]
fn caps_are_listed_by_name_in_bit_order() {
    assert_eq!(caps_list(caps::NONE), "none");
    assert_eq!(caps_list(caps::FILL | caps::TRANSLATE), "TRANSLATE | FILL");
    assert_eq!(caps_list(caps::FX), "FX");
}

#[test]
fn the_sprite_symbol_is_exported_only_when_extracted() {
    assert_eq!(sprite_export(&MarkupMode::Inline), "");
    assert_eq!(
        sprite_export(&MarkupMode::Extracted("anim-1".to_string())),
        "export const spriteSymbol = 'anim-1';\n"
    );
}

#[test]
fn modules_pair_every_source_with_its_specifier() {
    let names = module_names();
    assert_eq!(names.len(), 33);
    assert_eq!(names[0], "num.js");
    assert_eq!(names[32], "core.js");
    assert!(modules(vec![String::new(); 3]).is_none());
    let ms = modules((0..33).map(|i| format!("// {i}\n")).collect()).unwrap();
    assert_eq!(ms[21].name, "ops/tx.js");
    assert_eq!(ms[21].src, "// 21\n");
}

#[test]
fn extensions_list_each_hook_in_order() {
    assert_eq!(extensions(0, &[], false, None, &MarkupMode::Inline), "");
    assert_eq!(extensions(caps::TIME_REMAP, &[], true, None, &MarkupMode::Inline), ",{p:SP,r:resolve}");
    let e = Exprs { src: String::new(), helpers: vec![], bodies: vec![] };
    assert_eq!(
        extensions(
            caps::TEMPLATES,
            &["<g/>".to_string()],
            false,
            Some(&e),
            &MarkupMode::Extracted("a'b".to_string())
        ),
        ",{s:fromSprite('a\\'b'),t:s=>expand(s,TPL),x:v=>makeExpr(E,v)}"
    );
}

#[test]
fn template_expansion_follows_the_templates_not_the_capability() {
    assert_eq!(extensions(caps::TEMPLATES, &[], false, None, &MarkupMode::Inline), "");
}

#[test]
fn a_literal_never_holds_a_raw_line_terminator() {
    let lit = js_string("a\u{2028}b\nc\rd\u{2029}");
    assert_eq!(lit, "'a\\u2028b\\nc\\rd\\u2029'");
    assert!(!lit.contains(['\n', '\r', '\u{2028}', '\u{2029}']));
}
