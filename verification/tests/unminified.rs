use ulottie_compiler::backend::emit::unminified::{readable, RuntimeMode};
use ulottie_compiler::backend::emit::{
    binder_table, caps_list, caps_of, extensions, extern_imports, js_string, sprite_export, MarkupMode, Mod,
};
use ulottie_compiler::backend::pretty::{markup, Json};
use ulottie_compiler::caps;

const CARRIED: &str = r#"<svg a="1"><g/></svg>"#;

fn lines_of_markup(m: &str) -> String {
    markup(m, js_string).trim_end().to_string()
}

#[test]
fn a_static_unminified_module_has_no_runtime_and_exports_the_player() {
    let player = "export const init=(c)=>{c.innerHTML=M};\n";
    let src = readable(
        &[],
        0,
        true,
        RuntimeMode::Extern,
        None,
        &MarkupMode::Inline,
        CARRIED,
        &Json::Scalar("null".to_string()),
        &[],
        &[],
        player,
    );
    let expected = format!(
        "// Generated by ulottie \u{2014} unminified for review; not what ships.\n\
         // Object keys are sorted here for stable diffs; emitted order differs.\n\
         // mode: extern\n\
         // caps: none\n\n\
         // Fully static after compilation: no runtime, no data table, no frame loop.\n\
         const M =\n{};\n\n\
         export const markup = M;\n{player}",
        lines_of_markup(CARRIED)
    );
    assert_eq!(src, expected);
}

#[test]
fn an_animated_unminified_module_imports_its_runtime_and_lists_its_strings() {
    let strings = vec!["s".to_string()];
    let src = readable(
        &[],
        0,
        false,
        RuntimeMode::Extern,
        None,
        &MarkupMode::Inline,
        CARRIED,
        &Json::Number("1".to_string()),
        &[],
        &strings,
        "",
    );
    let expected = format!(
        "// Generated by ulottie \u{2014} unminified for review; not what ships.\n\
         // Object keys are sorted here for stable diffs; emitted order differs.\n\
         // mode: extern\n\
         // caps: none\n\n\
         {}{}\n\
         const M =\n{};\n\n\
         const D = 1;\n\n\
         const SP = [\n  's',\n];\n\n\
         export const markup = M;\n\
         export const init = (c, o) => mount(M, D, B, c, o{});\n",
        extern_imports(0, "./runtime", &[]),
        binder_table(0),
        lines_of_markup(CARRIED),
        extensions(0, &[], true, None, &MarkupMode::Inline)
    );
    assert_eq!(src, expected);
}

#[test]
fn an_extracted_embedded_unminified_module_says_where_the_document_lives() {
    let m = MarkupMode::Extracted("doc".to_string());
    let mods: Vec<Mod> = vec![];
    let c = caps::INSTANCES;
    let src = readable(
        &mods,
        c,
        false,
        RuntimeMode::Embedded,
        None,
        &m,
        "<svg/>",
        &Json::Number("0".to_string()),
        &[],
        &[],
        "",
    );
    assert!(src.starts_with(&format!(
        "// Generated by ulottie \u{2014} unminified for review; not what ships.\n\
         // Object keys are sorted here for stable diffs; emitted order differs.\n\
         // mode: embedded, precomps instanced, markup extracted\n\
         // caps: {}\n\n\
         // runtime symbols: \n",
        caps_list(caps_of(c, &m))
    )));
    assert!(src.contains(
        "// The document lives in an external sprite as `<symbol id=\"doc\">`; the\n\
         // module carries only the shell and clones the symbol's children into it.\n\
         const M =\n"
    ));
    assert!(src.contains(&format!(
        "export const markup = M;\n\
         // `markup` is only the shell in this mode. Server-rendering the\n\
         // animation means emitting the sprite's symbol body inside it \u{2014}\n\
         // `compile_document()` returns that assembled document directly.\n{}",
        sprite_export(&m)
    )));
}
