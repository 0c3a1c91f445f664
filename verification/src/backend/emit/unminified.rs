//! The web module printed unminified, for reading: one element per line, one binding per
//! line.
use vstd::prelude::*;
use crate::backend::emit::{
    binder_table, bundle, caps_list, caps_of, extensions, extern_imports, helpers_of, js_string, kept_decls,
    retained_symbols, spec_binder_table, spec_bundle, spec_caps_list, spec_extensions, spec_extern_imports,
    spec_js_string, spec_sprite_export, sprite_export, MarkupMode, Mod,
};
use crate::backend::layers::{trim_end, Exprs};
use crate::backend::pretty::{json, json_view, layout, markup, quoted_by, quoted_text, spec_split_tags, Json};
use crate::backend::shake::DeclV;
use crate::caps::{has, spec_has, Caps, EXTRACTED, INSTANCES, TEMPLATES};
use crate::text::{chars_of, joined, push_joined_strings, push_str, str_views, string_of, string_views};

verus! {

/// How a module reaches its runtime.
#[derive(Clone, Copy, PartialEq, Eq, Structural, Debug)]
pub enum RuntimeMode {
    /// Imported from the runtime's own files.
    Extern,
    /// Shaken and carried inside the module.
    Embedded,
}

/// A scene's capabilities with what the delivery mode adds.
pub open spec fn caps_with(c: Caps, m: &MarkupMode) -> Caps {
    match m {
        MarkupMode::Inline => c,
        MarkupMode::Extracted(_) => c | EXTRACTED,
    }
}

/// What the mode line adds about instancing and extraction.
pub open spec fn mode_note(instanced: bool, m: &MarkupMode) -> Seq<char> {
    match m {
        MarkupMode::Extracted(_) => if instanced {
            ", precomps instanced, markup extracted"@
        } else {
            ", markup extracted"@
        },
        MarkupMode::Inline => if instanced {
            ", precomps instanced"@
        } else {
            seq![]
        },
    }
}

/// The comment block the unminified module opens with.
pub open spec fn unminified_header(c: Caps, mode: RuntimeMode, m: &MarkupMode) -> Seq<char> {
    "// Generated by ulottie \u{2014} unminified for review; not what ships.\n"@
        + "// Object keys are sorted here for stable diffs; emitted order differs.\n"@ + "// mode: "@ + (match mode {
        RuntimeMode::Extern => "extern"@,
        RuntimeMode::Embedded => "embedded"@,
    }) + mode_note(spec_has(c, INSTANCES), m) + "\n"@ + "// caps: "@ + spec_caps_list(caps_with(c, m)) + "\n\n"@
}

/// The runtime section: imports from the runtime files, or the shaken runtime
/// carried inline under the list of its symbols; then the binder table.
pub open spec fn unminified_runtime(mods: Seq<Mod>, c: Caps, mode: RuntimeMode, m: &MarkupMode, helpers: Seq<Seq<char>>) -> Seq<
    char,
> {
    match mode {
        RuntimeMode::Extern => spec_extern_imports(caps_with(c, m), "./runtime"@, helpers) + spec_binder_table(c)
            + "\n"@,
        RuntimeMode::Embedded => "// runtime symbols: "@ + joined(
            kept_decls(mods, caps_with(c, m), helpers).map_values(|d: DeclV| d.name),
            ", "@,
        ) + "\n"@ + spec_bundle(mods, caps_with(c, m), helpers) + spec_binder_table(c) + "\n"@,
    }
}

/// Each string quoted on a line of its own, with a trailing comma.
pub open spec fn listed(xs: Seq<Seq<char>>) -> Seq<char>
    decreases xs.len(),
{
    if xs.len() == 0 {
        seq![]
    } else {
        listed(xs.drop_last()) + "  "@ + spec_js_string(xs.last()) + ",\n"@
    }
}

/// A named array of strings, when there are any.
pub open spec fn string_table(name: Seq<char>, xs: Seq<Seq<char>>) -> Seq<char> {
    if xs.len() == 0 {
        seq![]
    } else {
        "const "@ + name + " = [\n"@ + listed(xs) + "];\n\n"@
    }
}

/// The markup as a string concatenation, one element per line.
pub open spec fn markup_js(carried: Seq<char>) -> Seq<char> {
    let tags = spec_split_tags(carried);
    trim_end(quoted_text(tags, tags.map_values(|t: Seq<char>| spec_js_string(t)), tags.len() as int))
}

/// Everything before the markup: the header, the runtime section or the
/// static note, and the note on an extracted document.
pub open spec fn unminified_top(
    mods: Seq<Mod>,
    c: Caps,
    is_static: bool,
    mode: RuntimeMode,
    exprs: Option<&Exprs>,
    m: &MarkupMode,
) -> Seq<char> {
    let helpers = match exprs {
        Some(e) => str_views(e.helpers@),
        None => seq![],
    };
    unminified_header(c, mode, m) + (if is_static {
        "// Fully static after compilation: no runtime, no data table, no frame loop.\n"@
    } else {
        unminified_runtime(mods, c, mode, m, helpers)
    }) + (match m {
        MarkupMode::Extracted(id) => "// The document lives in an external sprite as `<symbol id=\""@ + id@
            + "\">`; the\n"@ + "// module carries only the shell and clones the symbol's children into it.\n"@,
        MarkupMode::Inline => seq![],
    })
}

/// The markup, the data and the string tables.
pub open spec fn unminified_data(
    is_static: bool,
    carried: Seq<char>,
    data: Seq<char>,
    tpl: Seq<Seq<char>>,
    strings: Seq<Seq<char>>,
) -> Seq<char> {
    "const M =\n"@ + markup_js(carried) + ";\n\n"@ + (if is_static {
        seq![]
    } else {
        "const D = "@ + data + ";\n\n"@
    }) + string_table("TPL"@, tpl) + string_table("SP"@, strings)
}

/// The expression bodies and the exports.
pub open spec fn unminified_exports(
    c: Caps,
    is_static: bool,
    exprs: Option<&Exprs>,
    m: &MarkupMode,
    templated: bool,
    pool: bool,
    player: Seq<char>,
) -> Seq<char> {
    (match exprs {
        Some(e) => e.src@ + "\n"@,
        None => seq![],
    }) + "export const markup = M;\n"@ + (match m {
        MarkupMode::Extracted(_) => "// `markup` is only the shell in this mode. Server-rendering the\n"@
            + "// animation means emitting the sprite's symbol body inside it \u{2014}\n"@
            + "// `compile_document()` returns that assembled document directly.\n"@,
        MarkupMode::Inline => seq![],
    }) + spec_sprite_export(m) + (if is_static {
        player
    } else {
        "export const init = (c, o) => mount(M, D, B, c, o"@ + spec_extensions(c, templated, pool, exprs is Some, m)
            + ");\n"@
    })
}

/// The unminified module. `carried` is the markup the module carries, `data` the
/// scene data laid out, `player` the inert player a static scene exports in
/// place of `init`.
pub open spec fn spec_readable(
    mods: Seq<Mod>,
    c: Caps,
    is_static: bool,
    mode: RuntimeMode,
    exprs: Option<&Exprs>,
    m: &MarkupMode,
    carried: Seq<char>,
    data: Seq<char>,
    tpl: Seq<Seq<char>>,
    strings: Seq<Seq<char>>,
    player: Seq<char>,
) -> Seq<char> {
    unminified_top(mods, c, is_static, mode, exprs, m) + unminified_data(is_static, carried, data, tpl, strings)
        + unminified_exports(c, is_static, exprs, m, tpl.len() > 0, strings.len() > 0, player)
}

fn trimmed_end(s: &str) -> (r: String)
    ensures
        r@ == trim_end(s@),
{
    let t = chars_of(s);
    let mut n: usize = t.len();
    assert(t@.take(n as int) =~= t@);
    while n > 0 && crate::text::is_whitespace(t[n - 1])
        invariant
            n <= t@.len(),
            trim_end(t@) == trim_end(t@.take(n as int)),
        decreases n,
    {
        assert(t@.take(n as int).drop_last() =~= t@.take(n - 1));
        n -= 1;
    }
    let out = crate::text::slice_chars(t.as_slice(), 0, n);
    assert(out@ =~= t@.take(n as int));
    string_of(out.as_slice())
}

fn markup_text(carried: &str) -> (r: String)
    ensures
        r@ == markup_js(carried@),
{
    let q = markup(carried, js_string);
    proof {
        let tags = spec_split_tags(carried@);
        let want = tags.map_values(|t: Seq<char>| spec_js_string(t));
        let qs = choose|qs: Seq<Seq<char>>| #[trigger] quoted_by(js_string, tags, qs)
            && q@ == quoted_text(tags, qs, tags.len() as int);
        assert forall|i: int| 0 <= i < tags.len() implies qs[i] == want[i] by {
            assert(crate::backend::pretty::quotes_tag(js_string, tags[i], qs[i]));
        }
        assert(qs =~= want);
    }
    trimmed_end(q.as_str())
}

fn push_listed(out: &mut String, name: &str, xs: &[String])
    ensures
        final(out)@ == old(out)@ + string_table(name@, string_views(xs@)),
{
    let ghost o = out@;
    if xs.len() == 0 {
        assert(string_views(xs@).len() == 0);
        return;
    }
    push_str(out, "const ");
    push_str(out, name);
    push_str(out, " = [\n");
    let ghost start = out@;
    let mut i: usize = 0;
    while i < xs.len()
        invariant
            i <= xs@.len(),
            out@ == start + listed(string_views(xs@).take(i as int)),
        decreases xs@.len() - i,
    {
        push_str(out, "  ");
        let q = js_string(xs[i].as_str());
        push_str(out, q.as_str());
        push_str(out, ",\n");
        assert(string_views(xs@).take(i + 1).drop_last() =~= string_views(xs@).take(i as int));
        i += 1;
    }
    assert(string_views(xs@).take(i as int) =~= string_views(xs@));
    push_str(out, "];\n\n");
}

#[verifier::rlimit(80)]
fn unminified_top_text(
    mods: &[Mod],
    caps: Caps,
    is_static: bool,
    mode: RuntimeMode,
    exprs: Option<&Exprs>,
    markup_mode: &MarkupMode,
) -> (r: String)
    ensures
        r@ == unminified_top(mods@, caps, is_static, mode, exprs, markup_mode),
{
    let c2 = caps_of(caps, markup_mode);
    let mut src = String::new();
    push_str(&mut src, "// Generated by ulottie \u{2014} unminified for review; not what ships.\n");
    push_str(&mut src, "// Object keys are sorted here for stable diffs; emitted order differs.\n");
    push_str(&mut src, "// mode: ");
    match mode {
        RuntimeMode::Extern => push_str(&mut src, "extern"),
        RuntimeMode::Embedded => push_str(&mut src, "embedded"),
    }
    let inst = has(caps, INSTANCES);
    match markup_mode {
        MarkupMode::Extracted(_) => if inst {
            push_str(&mut src, ", precomps instanced, markup extracted");
        } else {
            push_str(&mut src, ", markup extracted");
        },
        MarkupMode::Inline => if inst {
            push_str(&mut src, ", precomps instanced");
        },
    }
    push_str(&mut src, "\n");
    push_str(&mut src, "// caps: ");
    let cl = caps_list(c2);
    push_str(&mut src, cl.as_str());
    push_str(&mut src, "\n\n");
    let ghost head = src@;
    assert(head =~= unminified_header(caps, mode, markup_mode));
    let helpers = helpers_of(exprs);
    if is_static {
        push_str(&mut src, "// Fully static after compilation: no runtime, no data table, no frame loop.\n");
    } else {
        let ghost before = src@;
        match mode {
            RuntimeMode::Extern => {
                let im = extern_imports(c2, "./runtime", helpers.as_slice());
                push_str(&mut src, im.as_str());
            },
            RuntimeMode::Embedded => {
                push_str(&mut src, "// runtime symbols: ");
                let names = retained_symbols(mods, c2, helpers.as_slice());
                push_joined_strings(&mut src, names.as_slice(), ", ");
                push_str(&mut src, "\n");
                let b = bundle(mods, c2, helpers.as_slice());
                push_str(&mut src, b.as_str());
            },
        }
        let bt = binder_table(caps);
        push_str(&mut src, bt.as_str());
        push_str(&mut src, "\n");
        assert(src@ =~= before + unminified_runtime(mods@, caps, mode, markup_mode, str_views(helpers@)));
    }
    if let MarkupMode::Extracted(id) = markup_mode {
        push_str(&mut src, "// The document lives in an external sprite as `<symbol id=\"");
        push_str(&mut src, id.as_str());
        push_str(&mut src, "\">`; the\n");
        push_str(&mut src, "// module carries only the shell and clones the symbol's children into it.\n");
    }
    assert(src@ =~= unminified_top(mods@, caps, is_static, mode, exprs, markup_mode));
    src
}

fn push_unminified_data(
    src: &mut String,
    is_static: bool,
    carried: &str,
    data: &Json,
    tpl: &[String],
    strings: &[String],
)
    requires
        crate::backend::emit::byte_len(crate::backend::pretty::compact(json_view(*data))) <= usize::MAX,
        2 * crate::backend::pretty::json_size(json_view(*data)) <= usize::MAX,
    ensures
        final(src)@ == old(src)@ + unminified_data(
            is_static,
            carried@,
            layout(json_view(*data), 0),
            string_views(tpl@),
            string_views(strings@),
        ),
{
    let ghost o = src@;
    push_str(src, "const M =\n");
    let mk = markup_text(carried);
    push_str(src, mk.as_str());
    push_str(src, ";\n\n");
    let ghost a = src@;
    if !is_static {
        push_str(src, "const D = ");
        let d = json(data, 0);
        push_str(src, d.as_str());
        push_str(src, ";\n\n");
    }
    let ghost b = src@;
    assert(b =~= a + (if is_static {
        seq![]
    } else {
        "const D = "@ + layout(json_view(*data), 0) + ";\n\n"@
    }));
    push_listed(src, "TPL", tpl);
    push_listed(src, "SP", strings);
    assert(src@ =~= o + unminified_data(
        is_static,
        carried@,
        layout(json_view(*data), 0),
        string_views(tpl@),
        string_views(strings@),
    ));
}

fn init_text(
    caps: Caps,
    is_static: bool,
    exprs: Option<&Exprs>,
    markup_mode: &MarkupMode,
    tpl: &[String],
    strings: &[String],
    player: &str,
) -> (r: String)
    requires
        tpl@.len() > 0 ==> spec_has(caps, TEMPLATES),
    ensures
        r@ == (if is_static {
            player@
        } else {
            "export const init = (c, o) => mount(M, D, B, c, o"@ + spec_extensions(
                caps,
                tpl@.len() > 0,
                strings@.len() > 0,
                exprs is Some,
                markup_mode,
            ) + ");\n"@
        }),
{
    let mut out = String::new();
    if is_static {
        push_str(&mut out, player);
    } else {
        push_str(&mut out, "export const init = (c, o) => mount(M, D, B, c, o");
        let ext = extensions(caps, tpl, strings.len() > 0, exprs, markup_mode);
        push_str(&mut out, ext.as_str());
        push_str(&mut out, ");\n");
    }
    out
}

#[verifier::rlimit(80)]
fn push_unminified_exports(
    src: &mut String,
    caps: Caps,
    is_static: bool,
    exprs: Option<&Exprs>,
    markup_mode: &MarkupMode,
    tpl: &[String],
    strings: &[String],
    player: &str,
)
    requires
        tpl@.len() > 0 ==> spec_has(caps, TEMPLATES),
    ensures
        final(src)@ == old(src)@ + unminified_exports(
            caps,
            is_static,
            exprs,
            markup_mode,
            tpl@.len() > 0,
            strings@.len() > 0,
            player@,
        ),
{
    let ghost o = src@;
    if let Some(e) = exprs {
        push_str(src, e.src.as_str());
        push_str(src, "\n");
    }
    let ghost a = src@;
    assert(a =~= o + match exprs {
        Some(e) => e.src@ + "\n"@,
        None => seq![],
    });
    push_str(src, "export const markup = M;\n");
    let ghost b = src@;
    if let MarkupMode::Extracted(_) = markup_mode {
        push_str(src, "// `markup` is only the shell in this mode. Server-rendering the\n");
        push_str(src, "// animation means emitting the sprite's symbol body inside it \u{2014}\n");
        push_str(src, "// `compile_document()` returns that assembled document directly.\n");
    }
    let ghost c = src@;
    assert(c =~= b + match markup_mode {
        MarkupMode::Extracted(_) => "// `markup` is only the shell in this mode. Server-rendering the\n"@
            + "// animation means emitting the sprite's symbol body inside it \u{2014}\n"@
            + "// `compile_document()` returns that assembled document directly.\n"@,
        MarkupMode::Inline => seq![],
    });
    let se = sprite_export(markup_mode);
    push_str(src, se.as_str());
    let it = init_text(caps, is_static, exprs, markup_mode, tpl, strings, player);
    push_str(src, it.as_str());
    assert(src@ =~= o + unminified_exports(
        caps,
        is_static,
        exprs,
        markup_mode,
        tpl@.len() > 0,
        strings@.len() > 0,
        player@,
    ));
}

/// Print the web module unminified, as the emitter would ship it but with one
/// element per line and the data laid out: only whitespace and key order
/// differ from what ships. `carried` is the markup the module carries (the
/// shell when extracted), `data` the scene data, `player` the inert player a
/// static scene exports, and `mods` the runtime sources.
pub fn readable(
    mods: &[Mod],
    caps: Caps,
    is_static: bool,
    mode: RuntimeMode,
    exprs: Option<&Exprs>,
    markup_mode: &MarkupMode,
    carried: &str,
    data: &Json,
    tpl: &[String],
    strings: &[String],
    player: &str,
) -> (r: String)
    requires
        tpl@.len() > 0 ==> spec_has(caps, TEMPLATES),
        crate::backend::emit::byte_len(crate::backend::pretty::compact(json_view(*data))) <= usize::MAX,
        2 * crate::backend::pretty::json_size(json_view(*data)) <= usize::MAX,
    ensures
        r@ == spec_readable(
            mods@,
            caps,
            is_static,
            mode,
            exprs,
            markup_mode,
            carried@,
            layout(json_view(*data), 0),
            string_views(tpl@),
            string_views(strings@),
            player@,
        ),
{
    let mut src = unminified_top_text(mods, caps, is_static, mode, exprs, markup_mode);
    push_unminified_data(&mut src, is_static, carried, data, tpl, strings);
    push_unminified_exports(&mut src, caps, is_static, exprs, markup_mode, tpl, strings, player);
    src
}

} // verus!
