//! The reanimated module: the tree descriptor, the design size, and the
//! runtime section around them.
use vstd::prelude::*;
use crate::backend::emit::{caps_list, js_string, spec_caps_list, spec_js_string};
use crate::backend::rn::tree::{tree_js, tree_text};
use crate::backend::rn::{
    assign_slots, attr_views, flatten_nested_svgs, lower_invert_filters, lowered, node_view, overruns,
    parse_markup, size, slot_tree, spec_flatten_nested_svgs, spec_parse_markup, spec_workletize, workletize,
    NodeV,
};
use crate::backend::shake::{decl_views, Decl, DeclV};
use crate::backend::skia::{is_float, parses_as_float};
use crate::caps::{has, spec_has, Caps, TIME_REMAP};
use crate::text::{
    chars_of, decimal, decimal_string, joined, push_joined_strings, push_str, split_chars, split_on, str_eq,
    string_of, string_views,
};

verus! {

/// The tree the module describes: the markup parsed, its root checked to be
/// `<svg>`, slots stamped in document order, invert filters lowered and nested
/// svgs flattened; with the number of slots handed out.
pub open spec fn rn_tree(m: Seq<char>) -> Result<(NodeV, int), Seq<char>> {
    match spec_parse_markup(m) {
        Err(e) => Err(e),
        Ok(n) => if n.tag != "svg"@ {
            Err("the document root is <"@ + n.tag + ">"@)
        } else {
            let (s, count) = slot_tree(n, true, 0);
            let (l, e1) = lowered(s);
            match e1 {
                Some(e) => Err(e),
                None => {
                    let (f, e2) = spec_flatten_nested_svgs(l);
                    match e2 {
                        Some(e) => Err(e),
                        None => Ok((f, count)),
                    }
                },
            }
        },
    }
}

/// The value of the first attribute called `name`.
pub open spec fn attr_of(attrs: Seq<(Seq<char>, Seq<char>)>, name: Seq<char>) -> Option<Seq<char>>
    decreases attrs.len(),
{
    if attrs.len() == 0 {
        None
    } else if attrs[0].0 == name {
        Some(attrs[0].1)
    } else {
        attr_of(attrs.drop_first(), name)
    }
}

/// `v` where it is a number.
pub open spec fn numeric(v: Option<Seq<char>>) -> Option<Seq<char>> {
    match v {
        Some(t) => if parses_as_float(t) {
            Some(t)
        } else {
            None
        },
        None => None,
    }
}

/// A design dimension for `meta`: the root's own attribute `name` when it is a
/// number, else entry `k` of its space-separated `viewBox` when that is one,
/// else `0`. A width such as `100%` is no number a script can hold.
pub open spec fn design_size(attrs: Seq<(Seq<char>, Seq<char>)>, name: Seq<char>, k: int) -> Seq<char> {
    match numeric(attr_of(attrs, name)) {
        Some(v) => v,
        None => {
            let view = split_on(
                match attr_of(attrs, "viewBox"@) {
                    Some(v) => v,
                    None => seq![],
                },
                ' ',
            );
            match numeric(if 0 <= k < view.len() { Some(view[k]) } else { None }) {
                Some(v) => v,
                None => "0"@,
            }
        },
    }
}

/// The largest slot in `s`, or -1 when there is none.
pub open spec fn largest(s: Seq<usize>) -> int
    decreases s.len(),
{
    if s.len() == 0 {
        -1
    } else {
        let m = largest(s.drop_last());
        if s.last() as int > m {
            s.last() as int
        } else {
            m
        }
    }
}

/// The comment block every module opens with.
pub open spec fn rn_header(c: Caps) -> Seq<char> {
    "// Generated by ulottie \u{2014} reanimated-aot target (react-native-svg + react-native-reanimated).\n"@
        + "// Deliberately unminified: Metro's reanimated plugin reads the 'worklet' directives\n"@
        + "// before its own minifier runs; a minifier here could strip them.\n"@ + "// caps: "@
        + spec_caps_list(c) + "\n\n"@
}

/// The note a static module carries in place of a runtime.
pub open spec fn static_note() -> Seq<char> {
    "// Fully static after compilation: the tree descriptor is the whole picture.\n"@
        + "// `init` returns an inert instance so consumers keep one code path.\n\n"@
}

/// The names of the declarations.
pub open spec fn decl_names(kept: Seq<DeclV>) -> Seq<Seq<char>> {
    kept.map_values(|d: DeclV| d.name)
}

/// Each declaration's text, its `function` marked as a worklet.
pub open spec fn worklets(kept: Seq<DeclV>) -> Seq<char>
    decreases kept.len(),
{
    if kept.len() == 0 {
        seq![]
    } else {
        worklets(kept.drop_last()) + spec_workletize(kept.last().name, kept.last().text)
    }
}

/// The scene's strings as a script array, when there are any.
pub open spec fn sp_line(strings: Seq<Seq<char>>) -> Seq<char> {
    if strings.len() == 0 {
        seq![]
    } else {
        "const SP = ["@ + joined(strings.map_values(|s: Seq<char>| spec_js_string(s)), ", "@) + "];\n"@
    }
}

/// The runtime section of an animated module: the names of the kept
/// declarations, their worklet texts, the document program, the scene data
/// and its strings.
pub open spec fn rn_runtime(kept: Seq<DeclV>, program: Seq<char>, data: Seq<char>, strings: Seq<Seq<char>>) -> Seq<
    char,
> {
    "// runtime symbols: "@ + joined(decl_names(kept), ", "@) + "\n"@ + worklets(kept) + program + "\n"@
        + "const D = "@ + data + ";\n"@ + sp_line(strings) + "\n"@
}

/// The `meta` export.
pub open spec fn meta_line(fr: Seq<char>, ip: Seq<char>, op: Seq<char>, w: Seq<char>, h: Seq<char>) -> Seq<char> {
    "export const meta = { fr: "@ + fr + ", ip: "@ + ip + ", op: "@ + op + ", width: "@ + w + ", height: "@ + h
        + " };\n"@
}

/// The extra mount options: the string pool and the time-remap resolver.
pub open spec fn init_extras(c: Caps, strings: bool) -> Seq<char> {
    let r = spec_has(c, TIME_REMAP);
    if !strings && !r {
        seq![]
    } else {
        ", { "@ + (if strings && r {
            "p: SP, r: resolve"@
        } else if strings {
            "p: SP"@
        } else {
            "r: resolve"@
        }) + " }"@
    }
}

/// The `init` export: an inert instance for a static module, else a mount of
/// the data over `count` slots.
pub open spec fn init_line(
    is_static: bool,
    c: Caps,
    strings: bool,
    count: int,
    fr: Seq<char>,
    ip: Seq<char>,
    op: Seq<char>,
) -> Seq<char> {
    if is_static {
        "export const init = () => { 'worklet'; return { els: [], dirty: [], apply: function () { 'worklet'; }, fr: "@
            + fr + ", ip: "@ + ip + ", op: "@ + op + " }; };\n"@
    } else {
        "export const init = () => { 'worklet'; return mountRn(D, P0, A0, "@ + decimal(count as nat)
            + init_extras(c, strings) + "); };\n"@
    }
}

/// The module's text around a tree `f` printed as `t` with `count` slots.
pub open spec fn rn_text(
    attrs: Seq<(Seq<char>, Seq<char>)>,
    count: int,
    t: Seq<char>,
    c: Caps,
    is_static: bool,
    kept: Seq<DeclV>,
    program: Seq<char>,
    data: Seq<char>,
    strings: Seq<Seq<char>>,
    fr: Seq<char>,
    ip: Seq<char>,
    op: Seq<char>,
) -> Seq<char> {
    rn_header(c) + (if is_static {
        static_note()
    } else {
        rn_runtime(kept, program, data, strings)
    }) + "export const tree =\n"@ + t + ";\n\n"@ + meta_line(
        fr,
        ip,
        op,
        design_size(attrs, "width"@, 2),
        design_size(attrs, "height"@, 3),
    ) + init_line(is_static, c, strings.len() > 0, count, fr, ip, op)
}

/// The module and its slot count, or the first thing wrong: the markup, its
/// root, the lowering and flattening, the tree's printing, and last a binding
/// that addresses a slot the tree does not have.
pub open spec fn spec_rn_module(
    m: Seq<char>,
    bound: Seq<usize>,
    c: Caps,
    is_static: bool,
    kept: Seq<DeclV>,
    program: Seq<char>,
    data: Seq<char>,
    strings: Seq<Seq<char>>,
    fr: Seq<char>,
    ip: Seq<char>,
    op: Seq<char>,
    canon: Seq<Seq<char>>,
) -> Result<(Seq<char>, int), Seq<char>> {
    match rn_tree(m) {
        Err(e) => Err(e),
        Ok((f, count)) => match tree_text(f, true, bound, 0, canon) {
            Err(e) => Err(e),
            Ok(t) => if largest(bound) >= count {
                Err("binding addresses element "@ + decimal(largest(bound) as nat) + " but the tree has "@ + decimal(
                    count as nat,
                ))
            } else {
                Ok((rn_text(f.attrs, count, t, c, is_static, kept, program, data, strings, fr, ip, op), count))
            },
        },
    }
}

fn attr_index(attrs: &Vec<(String, String)>, name: &str) -> (r: Option<usize>)
    ensures
        match attr_of(attr_views(attrs@), name@) {
            Some(v) => r matches Some(i) && i < attrs@.len() && attrs@[i as int].1@ == v,
            None => r is None,
        },
{
    let ghost a = attr_views(attrs@);
    let mut i: usize = 0;
    assert(a.skip(0) =~= a);
    while i < attrs.len()
        invariant
            i <= attrs@.len(),
            a == attr_views(attrs@),
            attr_of(a, name@) == attr_of(a.skip(i as int), name@),
        decreases attrs@.len() - i,
    {
        assert(a.skip(i as int)[0] == a[i as int]);
        if str_eq(attrs[i].0.as_str(), name) {
            return Some(i);
        }
        assert(a.skip(i as int).drop_first() =~= a.skip(i + 1));
        i += 1;
    }
    assert(a.skip(i as int).len() == 0);
    None
}

fn design_size_of(attrs: &Vec<(String, String)>, name: &str, k: usize) -> (r: String)
    ensures
        r@ == design_size(attr_views(attrs@), name@, k as int),
{
    if let Some(i) = attr_index(attrs, name) {
        if is_float(attrs[i].1.as_str()) {
            let v = chars_of(attrs[i].1.as_str());
            return string_of(v.as_slice());
        }
    }
    let vb: Vec<char> = match attr_index(attrs, "viewBox") {
        Some(i) => chars_of(attrs[i].1.as_str()),
        None => Vec::new(),
    };
    let view = split_chars(vb.as_slice(), ' ');
    proof {
        assert(view@.map_values(|v: Vec<char>| v@).len() == view@.len());
    }
    if k < view.len() {
        let s = string_of(view[k].as_slice());
        assert(s@ == view@.map_values(|v: Vec<char>| v@)[k as int]);
        if is_float(s.as_str()) {
            return s;
        }
    }
    let mut z = String::new();
    push_str(&mut z, "0");
    z
}

fn largest_slot(bound: &Vec<usize>) -> (r: Option<usize>)
    ensures
        largest(bound@) == match r {
            Some(m) => m as int,
            None => -1,
        },
{
    let mut best: Option<usize> = None;
    let mut i: usize = 0;
    assert(bound@.take(0).len() == 0);
    while i < bound.len()
        invariant
            i <= bound@.len(),
            largest(bound@.take(i as int)) == match best {
                Some(m) => m as int,
                None => -1,
            },
        decreases bound@.len() - i,
    {
        let x = bound[i];
        assert(bound@.take(i + 1).drop_last() =~= bound@.take(i as int));
        assert(bound@.take(i + 1).last() == x);
        best = match best {
            Some(m) => if x > m {
                Some(x)
            } else {
                Some(m)
            },
            None => Some(x),
        };
        i += 1;
    }
    assert(bound@.take(i as int) =~= bound@);
    best
}

fn push_runtime(out: &mut String, kept: &[Decl], program: &str, data_json: &str, strings: &[String])
    ensures
        final(out)@ == old(out)@ + rn_runtime(decl_views(kept@), program@, data_json@, string_views(strings@)),
{
    let ghost o = out@;
    let ghost kv = decl_views(kept@);
    let mut names: Vec<String> = Vec::new();
    let mut body = String::new();
    let mut i: usize = 0;
    while i < kept.len()
        invariant
            i <= kept@.len(),
            kv == decl_views(kept@),
            string_views(names@) == decl_names(kv.take(i as int)),
            body@ == worklets(kv.take(i as int)),
        decreases kept@.len() - i,
    {
        let nm = chars_of(kept[i].name.as_str());
        let ghost on = names@;
        let sn = string_of(nm.as_slice());
        assert(sn@ == kv[i as int].name);
        names.push(sn);
        assert(string_views(names@) =~= string_views(on).push(kv[i as int].name));
        assert(decl_names(kv.take(i + 1)) =~= decl_names(kv.take(i as int)).push(kv[i as int].name));
        let w = workletize(kept[i].name.as_str(), kept[i].text.as_str());
        push_str(&mut body, w.as_str());
        assert(kv.take(i + 1).drop_last() =~= kv.take(i as int));
        assert(kv.take(i + 1).last() == kv[i as int]);
        assert(string_views(names@) =~= decl_names(kv.take(i + 1)));
        i += 1;
    }
    assert(kv.take(i as int) =~= kv);
    let mut quoted: Vec<String> = Vec::new();
    let mut j: usize = 0;
    while j < strings.len()
        invariant
            j <= strings@.len(),
            string_views(quoted@) == string_views(strings@).take(j as int).map_values(
                |s: Seq<char>| spec_js_string(s),
            ),
        decreases strings@.len() - j,
    {
        let q = js_string(strings[j].as_str());
        let ghost oq = quoted@;
        quoted.push(q);
        assert(string_views(quoted@) =~= string_views(oq).push(spec_js_string(strings@[j as int]@)));
        assert(string_views(strings@).take(j + 1) =~= string_views(strings@).take(j as int).push(strings@[j as int]@));
        assert(string_views(quoted@) =~= string_views(strings@).take(j + 1).map_values(
            |s: Seq<char>| spec_js_string(s),
        ));
        j += 1;
    }
    assert(string_views(strings@).take(j as int) =~= string_views(strings@));
    push_str(out, "// runtime symbols: ");
    push_joined_strings(out, names.as_slice(), ", ");
    push_str(out, "\n");
    push_str(out, body.as_str());
    push_str(out, program);
    push_str(out, "\n");
    push_str(out, "const D = ");
    push_str(out, data_json);
    push_str(out, ";\n");
    let ghost mid = out@;
    if strings.len() > 0 {
        push_str(out, "const SP = [");
        push_joined_strings(out, quoted.as_slice(), ", ");
        push_str(out, "];\n");
    }
    assert(out@ =~= mid + sp_line(string_views(strings@)));
    push_str(out, "\n");
    assert(out@ =~= o + rn_runtime(kv, program@, data_json@, string_views(strings@)));
}

fn push_init(out: &mut String, is_static: bool, c: Caps, strings: bool, count: usize, fr: &str, ip: &str, op: &str)
    ensures
        final(out)@ == old(out)@ + init_line(is_static, c, strings, count as int, fr@, ip@, op@),
{
    let ghost o = out@;
    if is_static {
        push_str(
            out,
            "export const init = () => { 'worklet'; return { els: [], dirty: [], apply: function () { 'worklet'; }, fr: ",
        );
        push_str(out, fr);
        push_str(out, ", ip: ");
        push_str(out, ip);
        push_str(out, ", op: ");
        push_str(out, op);
        push_str(out, " }; };\n");
    } else {
        push_str(out, "export const init = () => { 'worklet'; return mountRn(D, P0, A0, ");
        let d = decimal_string(count as u64);
        push_str(out, d.as_str());
        let ghost mid = out@;
        let r = has(c, TIME_REMAP);
        if strings || r {
            push_str(out, ", { ");
            if strings && r {
                push_str(out, "p: SP, r: resolve");
            } else if strings {
                push_str(out, "p: SP");
            } else {
                push_str(out, "r: resolve");
            }
            push_str(out, " }");
        }
        assert(out@ =~= mid + init_extras(c, strings));
        push_str(out, "); };\n");
    }
    assert(out@ =~= o + init_line(is_static, c, strings, count as int, fr@, ip@, op@));
}

fn module_text(
    attrs: &Vec<(String, String)>,
    count: usize,
    tree: &str,
    caps: Caps,
    is_static: bool,
    kept: &[Decl],
    program: &str,
    data_json: &str,
    strings: &[String],
    fr: &str,
    ip: &str,
    op: &str,
) -> (r: String)
    ensures
        r@ == rn_text(
            attr_views(attrs@),
            count as int,
            tree@,
            caps,
            is_static,
            decl_views(kept@),
            program@,
            data_json@,
            string_views(strings@),
            fr@,
            ip@,
            op@,
        ),
{
    let width = design_size_of(attrs, "width", 2);
    let height = design_size_of(attrs, "height", 3);
    let mut src = String::new();
    push_str(
        &mut src,
        "// Generated by ulottie \u{2014} reanimated-aot target (react-native-svg + react-native-reanimated).\n",
    );
    push_str(&mut src, "// Deliberately unminified: Metro's reanimated plugin reads the 'worklet' directives\n");
    push_str(&mut src, "// before its own minifier runs; a minifier here could strip them.\n");
    push_str(&mut src, "// caps: ");
    let cl = caps_list(caps);
    push_str(&mut src, cl.as_str());
    push_str(&mut src, "\n\n");
    let ghost head = src@;
    if is_static {
        push_str(&mut src, "// Fully static after compilation: the tree descriptor is the whole picture.\n");
        push_str(&mut src, "// `init` returns an inert instance so consumers keep one code path.\n\n");
        assert(src@ =~= head + static_note());
    } else {
        push_runtime(&mut src, kept, program, data_json, strings);
    }
    push_str(&mut src, "export const tree =\n");
    push_str(&mut src, tree);
    push_str(&mut src, ";\n\n");
    push_str(&mut src, "export const meta = { fr: ");
    push_str(&mut src, fr);
    push_str(&mut src, ", ip: ");
    push_str(&mut src, ip);
    push_str(&mut src, ", op: ");
    push_str(&mut src, op);
    push_str(&mut src, ", width: ");
    push_str(&mut src, width.as_str());
    push_str(&mut src, ", height: ");
    push_str(&mut src, height.as_str());
    push_str(&mut src, " };\n");
    push_init(&mut src, is_static, caps, strings.len() > 0, count, fr, ip, op);
    proof {
        assert(src@ =~= rn_text(
            attr_views(attrs@),
            count as int,
            tree@,
            caps,
            is_static,
            decl_views(kept@),
            program@,
            data_json@,
            string_views(strings@),
            fr@,
            ip@,
            op@,
        ));
    }
    src
}

/// Assemble the reanimated module for baked markup: the tree descriptor, the
/// design size, and for an animated scene the runtime section built from the
/// kept declarations, the document program and the serialized scene data.
/// Returns the module and how many slots the tree has.
///
/// The sizes of the trees involved fit in `usize`: a tree held in memory has
/// fewer nodes than addresses.
pub fn rn_module(
    markup: &str,
    bound: &Vec<usize>,
    caps: Caps,
    is_static: bool,
    kept: &[Decl],
    program: &str,
    data_json: &str,
    strings: &[String],
    fr: &str,
    ip: &str,
    op: &str,
    canonical: &Vec<String>,
) -> (r: Result<(String, usize), String>)
    requires
        markup@.len() < usize::MAX,
        !overruns(markup@),
        spec_parse_markup(markup@) matches Ok(n) ==> slot_tree(n, true, 0).1 <= usize::MAX,
        rn_tree(markup@) matches Ok((f, _)) ==> size(f) <= usize::MAX,
    ensures
        match spec_rn_module(
            markup@,
            bound@,
            caps,
            is_static,
            decl_views(kept@),
            program@,
            data_json@,
            string_views(strings@),
            fr@,
            ip@,
            op@,
            string_views(canonical@),
        ) {
            Ok((t, n)) => r matches Ok((x, k)) && x@ == t && k == n,
            Err(m) => r matches Err(x) && x@ == m,
        },
{
    let mut root = match parse_markup(markup) {
        Ok(n) => n,
        Err(m) => {
            return Err(m);
        },
    };
    if !str_eq(root.tag.as_str(), "svg") {
        let mut m = String::new();
        push_str(&mut m, "the document root is <");
        push_str(&mut m, root.tag.as_str());
        push_str(&mut m, ">");
        return Err(m);
    }
    let mut count: usize = 0;
    assign_slots(&mut root, true, &mut count);
    match lower_invert_filters(&mut root) {
        Ok(()) => {},
        Err(m) => {
            return Err(m);
        },
    }
    match flatten_nested_svgs(&mut root) {
        Ok(()) => {},
        Err(m) => {
            return Err(m);
        },
    }
    let mut tree = String::new();
    match tree_js(&root, true, bound, 0, &mut tree, canonical) {
        Ok(()) => {},
        Err(m) => {
            return Err(m);
        },
    }
    if let Some(max) = largest_slot(bound) {
        if max >= count {
            let mut m = String::new();
            push_str(&mut m, "binding addresses element ");
            let a = decimal_string(max as u64);
            push_str(&mut m, a.as_str());
            push_str(&mut m, " but the tree has ");
            let b = decimal_string(count as u64);
            push_str(&mut m, b.as_str());
            return Err(m);
        }
    }
    let src = module_text(&root.attrs, count, tree.as_str(), caps, is_static, kept, program, data_json, strings, fr, ip, op);
    Ok((src, count))
}

} // verus!
