//! The tree descriptor the react-native-svg module mounts: one object per
//! element, with its component, its slot when a binding writes to it, and its
//! baked first-frame props.

use vstd::prelude::*;
use crate::backend::emit::{js_string, spec_js_string};
use crate::backend::pretty::pad;
use crate::backend::rn::{
    about, camel, component, kids_size, node_view, node_views, numeric_prop, size, spec_camel, spec_component,
    spec_numeric_prop, spec_transform_array, transform_array, Node, NodeV, read_as_double,
    lemma_numeric_props_are_the_doubles,
};
use crate::text::{
    chars_at, chars_of, decimal, decimal_string, has_at, joined, push_char, push_chars, push_joined_strings,
    push_str, split_chars, split_on, starts_with, str_eq, string_of, string_views,
};

verus! {

broadcast use vstd::seq_lib::group_seq_properties;

// ---------------------------------------------------------------------------
// Static props
// ---------------------------------------------------------------------------

/// The web target's per-mount id marker, `--u`.
pub open spec fn marker() -> Seq<char> {
    seq!['-', '-', 'u']
}

/// A value with every id marker taken out, left to right: react-native-svg
/// scopes ids per `<Svg>` root, so the marker is resolved away.
pub open spec fn unmarked(s: Seq<char>) -> Seq<char>
    decreases s.len(),
{
    if s.len() == 0 {
        seq![]
    } else if starts_with(s, marker()) {
        unmarked(s.skip(3))
    } else {
        seq![s[0]] + unmarked(s.skip(1))
    }
}

/// The props a `style` attribute's declarations give, after `ps`, or the
/// first declaration this target cannot carry.
pub open spec fn style_props(decls: Seq<Seq<char>>, i: int, ps: Seq<Seq<char>>) -> Result<Seq<Seq<char>>, Seq<char>>
    decreases decls.len() - i,
{
    if i < 0 || i >= decls.len() {
        Ok(ps)
    } else {
        let d = decls[i];
        if d.len() == 0 || d == "overflow:hidden"@ {
            style_props(decls, i + 1, ps)
        } else if d == "display:none"@ {
            style_props(decls, i + 1, ps.push("display: 'none'"@))
        } else {
            Err("unsupported style `"@ + d
                + "` in the reanimated-aot target (blend modes and filters are refused up front)"@)
        }
    }
}

/// The props one attribute adds after `ps`. Namespace declarations are
/// dropped, any other namespaced attribute is refused, and a numeric prop
/// stays a bare number only when its value is in `canon`: a finite number's
/// own shortest spelling.
pub open spec fn attr_props(
    tag: Seq<char>,
    a: (Seq<char>, Seq<char>),
    canon: Seq<Seq<char>>,
    ps: Seq<Seq<char>>,
) -> Result<Seq<Seq<char>>, Seq<char>> {
    let (name, value) = a;
    if name == "xmlns"@ || starts_with(name, "xmlns:"@) {
        Ok(ps)
    } else if name.contains(':') {
        Err("namespaced attribute `"@ + name + "` in <"@ + tag + ">"@)
    } else if name == "style"@ {
        style_props(split_on(value, ';'), 0, ps)
    } else if name == "transform"@ || name == "gradientTransform"@ {
        match spec_transform_array(value) {
            Ok(t) => Ok(ps.push(spec_camel(name) + ": "@ + t)),
            Err(m) => Err(m),
        }
    } else {
        let v = unmarked(value);
        let prop = spec_camel(name);
        if spec_numeric_prop(prop) && canon.contains(v) {
            Ok(ps.push(prop + ": "@ + v))
        } else {
            Ok(ps.push(prop + ": "@ + spec_js_string(v)))
        }
    }
}

/// A plain attribute whose react-native-svg prop is read as a raw `Double`
/// (an opacity or the stroke's dash offset) is baked as a bare number when its
/// value is a number's own spelling, and as a quoted string otherwise; every
/// other plain attribute is always a quoted string.
pub proof fn lemma_doubles_are_baked_bare(
    tag: Seq<char>,
    name: Seq<char>,
    value: Seq<char>,
    canon: Seq<Seq<char>>,
    ps: Seq<Seq<char>>,
)
    requires
        !(name == "xmlns"@ || starts_with(name, "xmlns:"@)),
        !name.contains(':'),
        name != "style"@,
        name != "transform"@,
        name != "gradientTransform"@,
    ensures
        attr_props(tag, (name, value), canon, ps) == Ok::<Seq<Seq<char>>, Seq<char>>(ps.push(spec_camel(name) + ": "@ + (
            if read_as_double(spec_camel(name)) && canon.contains(unmarked(value)) {
                unmarked(value)
            } else {
                spec_js_string(unmarked(value))
            }
        ))),
{
    lemma_numeric_props_are_the_doubles(spec_camel(name));
}

/// The props of the first `k` attributes.
pub open spec fn props_upto(tag: Seq<char>, attrs: Seq<(Seq<char>, Seq<char>)>, k: int, canon: Seq<Seq<char>>) -> Result<
    Seq<Seq<char>>,
    Seq<char>,
>
    decreases k,
{
    if k <= 0 || k > attrs.len() {
        Ok(seq![])
    } else {
        match props_upto(tag, attrs, k - 1, canon) {
            Ok(ps) => attr_props(tag, attrs[k - 1], canon, ps),
            Err(m) => Err(m),
        }
    }
}

proof fn lemma_props_err_sticks(
    tag: Seq<char>,
    attrs: Seq<(Seq<char>, Seq<char>)>,
    k: int,
    n: int,
    canon: Seq<Seq<char>>,
)
    requires
        0 <= k <= n <= attrs.len(),
        props_upto(tag, attrs, k, canon) is Err,
    ensures
        props_upto(tag, attrs, n, canon) == props_upto(tag, attrs, k, canon),
    decreases n - k,
{
    if k < n {
        lemma_props_err_sticks(tag, attrs, k, n - 1, canon);
    }
}

/// One element's baked props, as JS object entries.
pub open spec fn spec_static_props(n: NodeV, canon: Seq<Seq<char>>) -> Result<Seq<Seq<char>>, Seq<char>> {
    props_upto(n.tag, n.attrs, n.attrs.len() as int, canon)
}

/// A value with every id marker taken out.
pub fn unmark(v: &str) -> (r: String)
    ensures
        r@ == unmarked(v@),
{
    let s = chars_of(v);
    let m: Vec<char> = vec!['-', '-', 'u'];
    let mut out = String::new();
    let mut i: usize = 0;
    assert(s@.skip(0) =~= s@);
    while i < s.len()
        invariant
            i <= s@.len(),
            s@ == v@,
            m@ == marker(),
            out@ + unmarked(s@.skip(i as int)) == unmarked(v@),
        decreases s@.len() - i,
    {
        let ghost rest = s@.skip(i as int);
        if chars_at(s.as_slice(), i, m.as_slice()) {
            assert(starts_with(rest, marker())) by {
                assert(rest.subrange(0, 3) =~= s@.subrange(i as int, i + 3));
            }
            assert(rest.skip(3) =~= s@.skip(i + 3));
            i += 3;
        } else {
            assert(!starts_with(rest, marker())) by {
                if starts_with(rest, marker()) {
                    assert(rest.subrange(0, 3) =~= s@.subrange(i as int, i + 3));
                }
            }
            let ghost o = out@;
            push_char(&mut out, s[i]);
            assert(rest[0] == s@[i as int]);
            assert(rest.skip(1) =~= s@.skip(i + 1));
            assert(o + unmarked(rest) == o + (seq![s@[i as int]] + unmarked(s@.skip(i + 1))));
            assert(out@ + unmarked(s@.skip(i + 1)) =~= o + (seq![s@[i as int]] + unmarked(s@.skip(i + 1))));
            i += 1;
        }
    }
    assert(s@.skip(s@.len() as int) =~= Seq::<char>::empty());
    out
}

/// Whether `v` is one of `list`.
fn listed(list: &Vec<String>, v: &str) -> (r: bool)
    ensures
        r == string_views(list@).contains(v@),
{
    let mut i: usize = 0;
    while i < list.len()
        invariant
            i <= list@.len(),
            forall|k: int| 0 <= k < i ==> list@[k]@ != v@,
        decreases list@.len() - i,
    {
        if str_eq(list[i].as_str(), v) {
            assert(string_views(list@)[i as int] == v@);
            return true;
        }
        i += 1;
    }
    assert forall|k: int| 0 <= k < string_views(list@).len() implies string_views(list@)[k] != v@ by {
        assert(list@[k]@ != v@);
    }
    false
}

/// `a`, `": "`, `b`.
fn entry(a: &str, b: &str) -> (r: String)
    ensures
        r@ == a@ + ": "@ + b@,
{
    let mut e = String::new();
    push_str(&mut e, a);
    push_str(&mut e, ": ");
    push_str(&mut e, b);
    e
}

/// The props a `style` attribute's declarations add to `ps`.
fn style_entries(value: &str, ps: &mut Vec<String>) -> (r: Result<(), String>)
    ensures
        match style_props(split_on(value@, ';'), 0, string_views(old(ps)@)) {
            Ok(x) => r is Ok && string_views(final(ps)@) == x,
            Err(m) => r matches Err(e) && e@ == m,
        },
{
    let decls = split_chars(chars_of(value).as_slice(), ';');
    let ghost dv = decls@.map_values(|v: Vec<char>| v@);
    let ghost start = string_views(ps@);
    let mut i: usize = 0;
    proof {
        reveal_strlit("overflow:hidden");
        reveal_strlit("display:none");
    }
    while i < decls.len()
        invariant
            i <= decls@.len(),
            dv == decls@.map_values(|v: Vec<char>| v@),
            dv == split_on(value@, ';'),
            start == string_views(old(ps)@),
            style_props(dv, 0, start) == style_props(dv, i as int, string_views(ps@)),
        decreases decls@.len() - i,
    {
        let d = decls[i].as_slice();
        assert(dv[i as int] == d@);
        if d.len() == 0 || crate::text::chars_eq(d, chars_of("overflow:hidden").as_slice()) {
        } else if crate::text::chars_eq(d, chars_of("display:none").as_slice()) {
            let ghost o = string_views(ps@);
            ps.push("display: 'none'".to_string());
            assert(string_views(ps@) =~= o.push("display: 'none'"@));
        } else {
            let mut m = String::new();
            push_str(&mut m, "unsupported style `");
            push_chars(&mut m, d);
            push_str(&mut m, "` in the reanimated-aot target (blend modes and filters are refused up front)");
            return Err(m);
        }
        i += 1;
    }
    Ok(())
}

/// One element's baked props, as JS object entries: everything the runtime
/// may later overwrite is still emitted, so the tree renders exactly the first
/// frame before any binding runs.
///
/// `canonical` lists the values that are a finite number's own shortest
/// spelling; a numeric prop with such a value is written as a bare number,
/// anything else (`50%`, `1e3`) stays a string for the component to parse.
pub fn static_props(node: &Node, canonical: &Vec<String>) -> (r: Result<Vec<String>, String>)
    ensures
        match spec_static_props(node_view(*node), string_views(canonical@)) {
            Ok(ps) => r matches Ok(x) && string_views(x@) == ps,
            Err(m) => r matches Err(x) && x@ == m,
        },
{
    let ghost nv = node_view(*node);
    let ghost canon = string_views(canonical@);
    let mut ps: Vec<String> = Vec::new();
    let mut k: usize = 0;
    proof {
        reveal_strlit("xmlns");
        reveal_strlit("xmlns:");
        reveal_strlit("style");
        reveal_strlit("transform");
        reveal_strlit("gradientTransform");
    }
    assert(nv.attrs.len() == node.attrs@.len());
    assert(string_views(ps@) =~= Seq::<Seq<char>>::empty());
    while k < node.attrs.len()
        invariant
            k <= node.attrs@.len(),
            nv == node_view(*node),
            canon == string_views(canonical@),
            nv.attrs.len() == node.attrs@.len(),
            props_upto(nv.tag, nv.attrs, k as int, canon) == Ok::<Seq<Seq<char>>, Seq<char>>(string_views(ps@)),
        decreases node.attrs@.len() - k,
    {
        let name = node.attrs[k].0.as_str();
        let value = node.attrs[k].1.as_str();
        assert(nv.attrs[k as int] == (name@, value@));
        let ghost ps0 = string_views(ps@);
        let nc = chars_of(name);
        let xml = str_eq(name, "xmlns") || chars_at(nc.as_slice(), 0, chars_of("xmlns:").as_slice());
        if xml {
        } else {
            let mut colon = false;
            let mut c: usize = 0;
            while c < nc.len()
                invariant
                    c <= nc@.len(),
                    nc@ == name@,
                    colon == exists|q: int| 0 <= q < c && nc@[q] == ':',
                decreases nc@.len() - c,
            {
                if nc[c] == ':' {
                    colon = true;
                }
                c += 1;
            }
            if colon {
                let mut m = String::new();
                push_str(&mut m, "namespaced attribute `");
                push_str(&mut m, name);
                push_str(&mut m, "` in <");
                push_str(&mut m, node.tag.as_str());
                push_str(&mut m, ">");
                proof {
                    assert(name@.contains(':'));
                    assert(props_upto(nv.tag, nv.attrs, k + 1, canon) == Err::<Seq<Seq<char>>, Seq<char>>(m@));
                    lemma_props_err_sticks(nv.tag, nv.attrs, k + 1, nv.attrs.len() as int, canon);
                }
                return Err(m);
            }
            if str_eq(name, "style") {
                match style_entries(value, &mut ps) {
                    Ok(()) => {},
                    Err(m) => {
                        proof {
                            assert(props_upto(nv.tag, nv.attrs, k + 1, canon) == Err::<Seq<Seq<char>>, Seq<char>>(m@));
                            lemma_props_err_sticks(nv.tag, nv.attrs, k + 1, nv.attrs.len() as int, canon);
                        }
                        return Err(m);
                    },
                }
            } else if str_eq(name, "transform") || str_eq(name, "gradientTransform") {
                match transform_array(value) {
                    Ok(t) => {
                        let p = camel(name);
                        ps.push(entry(p.as_str(), t.as_str()));
                        assert(string_views(ps@) =~= ps0.push(spec_camel(name@) + ": "@ + t@));
                    },
                    Err(m) => {
                        proof {
                            assert(props_upto(nv.tag, nv.attrs, k + 1, canon) == Err::<Seq<Seq<char>>, Seq<char>>(m@));
                            lemma_props_err_sticks(nv.tag, nv.attrs, k + 1, nv.attrs.len() as int, canon);
                        }
                        return Err(m);
                    },
                }
            } else {
                let v = unmark(value);
                let prop = camel(name);
                let num = numeric_prop(prop.as_str()) && listed(canonical, v.as_str());
                if num {
                    ps.push(entry(prop.as_str(), v.as_str()));
                } else {
                    let q = js_string(v.as_str());
                    ps.push(entry(prop.as_str(), q.as_str()));
                }
                assert(string_views(ps@) =~= ps0.push(string_views(ps@).last()));
            }
        }
        k += 1;
    }
    Ok(ps)
}

// ---------------------------------------------------------------------------
// The descriptor
// ---------------------------------------------------------------------------

/// Where a binding writes to an element, its slot: never on the root.
pub open spec fn slot_text(n: NodeV, root: bool, bound: Seq<usize>) -> Seq<char> {
    if !root && n.slot is Some && bound.contains(n.slot->0) {
        ", slot: "@ + decimal(n.slot->0 as nat)
    } else {
        seq![]
    }
}

/// An element's descriptor up to its children: its component, its slot and
/// its baked props.
pub open spec fn head_text(n: NodeV, root: bool, bound: Seq<usize>, indent: nat, canon: Seq<Seq<char>>) -> Result<
    Seq<char>,
    Seq<char>,
> {
    match spec_component(n.tag) {
        None => Err(about("the reanimated-aot target has no react-native-svg component for <", n.tag, ">")),
        Some(c) => match spec_static_props(n, canon) {
            Err(m) => Err(m),
            Ok(ps) => Ok(pad(indent) + "{ type: '"@ + c + "'"@ + slot_text(n, root, bound) + ", staticProps: { "@
                + joined(ps, ", "@) + " }"@),
        },
    }
}

/// One element's descriptor at `indent`, children nested a level deeper.
pub open spec fn tree_text(n: NodeV, root: bool, bound: Seq<usize>, indent: nat, canon: Seq<Seq<char>>) -> Result<
    Seq<char>,
    Seq<char>,
>
    decreases n, 0int,
{
    match head_text(n, root, bound, indent, canon) {
        Err(m) => Err(m),
        Ok(h) => if n.children.len() == 0 {
            Ok(h + " }"@)
        } else {
            match kids_text(n.children, n.children.len() as int, bound, indent + 1, canon) {
                Err(m) => Err(m),
                Ok(k) => Ok(h + ", children: [\n"@ + k + pad(indent) + "] }"@),
            }
        },
    }
}

/// The first `k` children's descriptors, one per line.
pub open spec fn kids_text(cs: Seq<NodeV>, k: int, bound: Seq<usize>, indent: nat, canon: Seq<Seq<char>>) -> Result<
    Seq<char>,
    Seq<char>,
>
    decreases cs, k,
{
    if k <= 0 || k > cs.len() {
        Ok(seq![])
    } else {
        match kids_text(cs, k - 1, bound, indent, canon) {
            Err(m) => Err(m),
            Ok(t) => match tree_text(cs[k - 1], false, bound, indent, canon) {
                Err(m) => Err(m),
                Ok(c) => Ok(t + c + if k < cs.len() {
                    ",\n"@
                } else {
                    "\n"@
                }),
            },
        }
    }
}

proof fn lemma_kids_err_sticks(cs: Seq<NodeV>, k: int, n: int, bound: Seq<usize>, indent: nat, canon: Seq<Seq<char>>)
    requires
        0 <= k <= n <= cs.len(),
        kids_text(cs, k, bound, indent, canon) is Err,
    ensures
        kids_text(cs, n, bound, indent, canon) == kids_text(cs, k, bound, indent, canon),
    decreases n - k,
{
    if k < n {
        lemma_kids_err_sticks(cs, k, n - 1, bound, indent, canon);
    }
}

proof fn lemma_kid_size(cs: Seq<NodeV>, k: int, i: int)
    requires
        0 <= i < k <= cs.len(),
    ensures
        size(cs[i]) <= kids_size(cs, k),
    decreases k,
{
    if i < k - 1 {
        lemma_kid_size(cs, k - 1, i);
    }
}

fn push_indent(out: &mut String, n: usize)
    ensures
        final(out)@ == old(out)@ + pad(n as nat),
{
    let ghost o = out@;
    let mut i: usize = 0;
    while i < n
        invariant
            i <= n,
            out@ == o + pad(i as nat),
        decreases n - i,
    {
        push_str(out, "  ");
        assert(pad((i + 1) as nat) =~= pad(i as nat) + "  "@) by {
            reveal_strlit("  ");
        }
        i += 1;
    }
}

/// Whether slot `s` is one a binding writes.
fn bound_has(bound: &Vec<usize>, s: usize) -> (r: bool)
    ensures
        r == bound@.contains(s),
{
    let mut i: usize = 0;
    while i < bound.len()
        invariant
            i <= bound@.len(),
            forall|k: int| 0 <= k < i ==> bound@[k] != s,
        decreases bound@.len() - i,
    {
        if bound[i] == s {
            return true;
        }
        i += 1;
    }
    false
}

/// Write an element's descriptor up to its children.
fn tree_head(
    node: &Node,
    root: bool,
    bound: &Vec<usize>,
    indent: usize,
    out: &mut String,
    canonical: &Vec<String>,
) -> (r: Result<(), String>)
    ensures
        match head_text(node_view(*node), root, bound@, indent as nat, string_views(canonical@)) {
            Ok(t) => r is Ok && final(out)@ == old(out)@ + t,
            Err(m) => r matches Err(x) && x@ == m,
        },
{
    let ghost nv = node_view(*node);
    let ghost o = out@;
    let c = match component(node.tag.as_str()) {
        Ok(c) => c,
        Err(m) => {
            return Err(m);
        },
    };
    let ps = match static_props(node, canonical) {
        Ok(ps) => ps,
        Err(m) => {
            return Err(m);
        },
    };
    push_indent(out, indent);
    push_str(out, "{ type: '");
    push_str(out, c);
    push_str(out, "'");
    let ghost before_slot = out@;
    if !root {
        if let Some(s) = node.slot {
            if bound_has(bound, s) {
                push_str(out, ", slot: ");
                let d = decimal_string(s as u64);
                push_str(out, d.as_str());
            }
        }
    }
    assert(out@ =~= before_slot + slot_text(nv, root, bound@));
    push_str(out, ", staticProps: { ");
    push_joined_strings(out, ps.as_slice(), ", ");
    push_str(out, " }");
    proof {
        assert(out@ =~= o + (pad(indent as nat) + "{ type: '"@ + c@ + "'"@ + slot_text(nv, root, bound@)
            + ", staticProps: { "@ + joined(string_views(ps@), ", "@) + " }"@));
    }
    Ok(())
}

/// Print the tree descriptor from the slots stamped on the tree: the
/// component of each element, its slot where `bound` lists one a binding
/// writes (never on the root), and its baked props.
#[verifier::rlimit(40)]
pub fn tree_js(
    node: &Node,
    root: bool,
    bound: &Vec<usize>,
    indent: usize,
    out: &mut String,
    canonical: &Vec<String>,
) -> (r: Result<(), String>)
    requires
        indent + size(node_view(*node)) <= usize::MAX,
    ensures
        match tree_text(node_view(*node), root, bound@, indent as nat, string_views(canonical@)) {
            Ok(t) => r is Ok && final(out)@ == old(out)@ + t,
            Err(m) => r matches Err(x) && x@ == m,
        },
    decreases size(node_view(*node)),
{
    let ghost nv = node_view(*node);
    let ghost canon = string_views(canonical@);
    let ghost o = out@;
    match tree_head(node, root, bound, indent, out, canonical) {
        Ok(()) => {},
        Err(m) => {
            return Err(m);
        },
    }
    let ghost h = out@.skip(o.len() as int);
    if node.children.len() == 0 {
        push_str(out, " }");
        proof {
            assert(nv.children.len() == 0);
            assert(out@ =~= o + (h + " }"@));
        }
        return Ok(());
    }
    push_str(out, ", children: [\n");
    let ghost h2 = out@;
    let ghost cs = nv.children;
    assert(cs == node_views(node.children@)) by {
        assert(cs =~= node_views(node.children@));
    }
    proof {
        assert(h =~= head_text(nv, root, bound@, indent as nat, canon)->Ok_0);
        assert(nv.children.len() > 0);
        assert(h2.skip(o.len() as int) =~= h + ", children: [\n"@);
        match kids_text(cs, cs.len() as int, bound@, (indent + 1) as nat, canon) {
            Ok(k) => {
                assert(h + ", children: [\n"@ + k + pad(indent as nat) + "] }"@ =~= h2.skip(o.len() as int) + k + (pad(
                    indent as nat,
                ) + "] }"@));
            },
            Err(m) => {},
        }
        assert(out@.skip(h2.len() as int) =~= Seq::<char>::empty());
        assert(h2.subrange(0, o.len() as int) =~= o);
    }
    let n = node.children.len();
    let mut i: usize = 0;
    while i < n
        invariant
            n == node.children@.len(),
            cs == node_views(node.children@),
            cs.len() == n,
            i <= n,
            nv == node_view(*node),
            canon == string_views(canonical@),
            indent + size(nv) <= usize::MAX,
            size(nv) == 1 + kids_size(cs, cs.len() as int),
            h2.len() >= o.len(),
            h2.subrange(0, o.len() as int) == o,
            tree_text(nv, root, bound@, indent as nat, canon) == match kids_text(
                cs,
                cs.len() as int,
                bound@,
                (indent + 1) as nat,
                canon,
            ) {
                Err(m) => Err(m),
                Ok(k) => Ok(h2.skip(o.len() as int) + k + (pad(indent as nat) + "] }"@)),
            },
            kids_text(cs, i as int, bound@, (indent + 1) as nat, canon) == Ok::<Seq<char>, Seq<char>>(out@.skip(
                h2.len() as int,
            )),
            out@.len() >= h2.len(),
            out@.subrange(0, h2.len() as int) == h2,
        decreases n - i,
    {
        assert(cs[i as int] == node_view(node.children@[i as int]));
        proof {
            lemma_kid_size(cs, cs.len() as int, i as int);
        }
        let ghost before = out@;
        match tree_js(&node.children[i], false, bound, indent + 1, out, canonical) {
            Ok(()) => {},
            Err(m) => {
                proof {
                    assert(kids_text(cs, i as int + 1, bound@, (indent + 1) as nat, canon) == Err::<Seq<char>, Seq<char>>(m@));
                    lemma_kids_err_sticks(cs, i as int + 1, n as int, bound@, (indent + 1) as nat, canon);
                }
                return Err(m);
            },
        }
        let ghost mid = out@;
        if i + 1 < n {
            push_str(out, ",\n");
        } else {
            push_str(out, "\n");
        }
        proof {
            let child = tree_text(cs[i as int], false, bound@, (indent + 1) as nat, canon)->Ok_0;
            let sep = if i + 1 < n { ",\n"@ } else { "\n"@ };
            assert(mid == before + child);
            assert(out@ == mid + sep);
            assert(kids_text(cs, i as int + 1, bound@, (indent + 1) as nat, canon) == Ok::<Seq<char>, Seq<char>>(
                before.skip(h2.len() as int) + child + sep,
            ));
            assert(out@.skip(h2.len() as int) =~= before.skip(h2.len() as int) + child + sep);
            assert(out@.subrange(0, h2.len() as int) =~= before.subrange(0, h2.len() as int));
        }
        i += 1;
    }
    let ghost kids = out@;
    push_indent(out, indent);
    push_str(out, "] }");
    proof {
        assert(kids.skip(h2.len() as int) == kids_text(cs, cs.len() as int, bound@, (indent + 1) as nat, canon)->Ok_0);
        assert(kids =~= h2 + kids.skip(h2.len() as int));
        assert(h2 =~= o + h2.skip(o.len() as int));
        assert(out@ =~= o + (h2.skip(o.len() as int) + kids.skip(h2.len() as int) + (pad(indent as nat) + "] }"@)));
    }
    Ok(())
}

} // verus!
