//! The `reanimated-aot` target: a React Native module for react-native-svg +
//! react-native-reanimated.
//!
//! Same wire, different write point. The payload, the program pair and every
//! DOM-free math module are the web runtime's, byte for byte — what changes is
//! where a frame's values land. Every element is a plain prop-store handle, and
//! the markup is replaced by a static element-tree descriptor emitted at
//! compile time from the baked scene, so nothing parses XML at runtime.
//!
//! The swap happens at declaration granularity: the RN modules redeclare
//! exactly the names that touch the DOM, and the shaker then works on the
//! substituted set with the same bare-name reachability it uses for the web.
//!
//! Every function that can run per frame on the UI thread gets `'worklet'` as
//! its first statement, injected here rather than written into the shared
//! sources.

pub mod assemble;
pub mod tree;

use vstd::prelude::*;
use crate::backend::emit::{mod_decls, Mod};
use crate::backend::shake::{decl_views, declarations, spec_declarations, Decl, DeclV};
use crate::caps::{
    Caps, DASH, DISPLAY, EASING, ELLIPSE, FILL, GEOM_ELLIPSE, GEOM_RECT, GEOM_STAR, HOLD, KEYFRAMES, OPACITY,
    PATH_D, PATH_KF, RECT, SHAPE, SHAPE_MULTI, SPATIAL, STROKE, TIMELINE, TIME_REMAP, TRANSFORM,
    TRANSFORM_SKEW, TRANSLATE, TRIM, TRIM_CHAIN,
};
use crate::expr::syntax::{byte_offset, lemma_utf8_len_nonneg, utf8_len};
use crate::text::{
    wide_decimal_string, chars_at, chars_eq, chars_of, decimal, decimal_string, has_at, push_char, push_chars, push_str,
    slice_chars, str_eq, string_of,
};

verus! {

broadcast use vstd::seq_lib::group_seq_properties;

/// The capabilities this target implements. Everything else is refused before
/// emission — gradient/ramp rebinding, filters, expressions, templates and
/// instancing have no RN counterpart yet.
pub open spec fn spec_supported() -> Caps {
    TRANSFORM | TRANSLATE | OPACITY | DISPLAY | SHAPE | RECT | ELLIPSE | FILL | STROKE | KEYFRAMES | EASING
        | SPATIAL | PATH_KF | HOLD | GEOM_RECT | GEOM_ELLIPSE | GEOM_STAR | PATH_D | TRIM | TIMELINE
        | TIME_REMAP | SHAPE_MULTI | TRIM_CHAIN | DASH | TRANSFORM_SKEW
}

/// The capabilities this target implements.
pub fn supported() -> (r: Caps)
    ensures
        r == spec_supported(),
{
    TRANSFORM | TRANSLATE | OPACITY | DISPLAY | SHAPE | RECT | ELLIPSE | FILL | STROKE | KEYFRAMES | EASING
        | SPATIAL | PATH_KF | HOLD | GEOM_RECT | GEOM_ELLIPSE | GEOM_STAR | PATH_D | TRIM | TIMELINE
        | TIME_REMAP | SHAPE_MULTI | TRIM_CHAIN | DASH | TRANSFORM_SKEW
}

/// The features of an ordinary keyframed animation: transforms, opacity and
/// visibility, rectangle, ellipse and path shapes with fill and stroke, and
/// keyframes with any timing — eased, held, spatial or path-shaped.
pub open spec fn keyframed_features() -> Caps {
    TRANSFORM | TRANSLATE | OPACITY | DISPLAY | SHAPE | RECT | ELLIPSE | FILL | STROKE | KEYFRAMES | EASING
        | SPATIAL | HOLD | PATH_KF
}

/// This target drives every ordinary keyframed animation, whatever timing its
/// keyframes use: a scene made only of those features has nothing the target
/// must refuse.
pub proof fn lemma_keyframed_scenes_are_supported(c: Caps)
    requires
        c & !keyframed_features() == 0,
    ensures
        c & !spec_supported() == 0,
{
    assert(keyframed_features() == 0x1f1ffu64) by (bit_vector);
    assert(spec_supported() == 0xffff1ffu64) by (bit_vector);
    assert(c & !0x1f1ffu64 == 0 ==> c & !0xffff1ffu64 == 0) by (bit_vector);
}

// ---------------------------------------------------------------------------
// Runtime assembly: web declarations with the DOM write points substituted.
// ---------------------------------------------------------------------------

/// The index of the first declaration at or after `i` named `name`.
pub open spec fn named_from(ds: Seq<DeclV>, name: Seq<char>, i: int) -> Option<int>
    decreases ds.len() - i,
{
    if i < 0 || i >= ds.len() {
        None
    } else if ds[i].name == name {
        Some(i)
    } else {
        named_from(ds, name, i + 1)
    }
}

/// The index of the first declaration named `name`, if there is one.
pub open spec fn first_named(ds: Seq<DeclV>, name: Seq<char>) -> Option<int> {
    named_from(ds, name, 0)
}

/// One override step: replace the first declaration of the same name, or
/// set the new one aside.
pub open spec fn substitute(acc: (Seq<DeclV>, Seq<DeclV>), d: DeclV) -> (Seq<DeclV>, Seq<DeclV>) {
    match first_named(acc.0, d.name) {
        Some(i) => (acc.0.update(i, d), acc.1),
        None => (acc.0, acc.1.push(d)),
    }
}

/// Every override applied in order, starting from the web declarations.
pub open spec fn substituted(web: Seq<DeclV>, overrides: Seq<DeclV>) -> (Seq<DeclV>, Seq<DeclV>)
    decreases overrides.len(),
{
    if overrides.len() == 0 {
        (web, seq![])
    } else {
        substitute(substituted(web, overrides.drop_last()), overrides.last())
    }
}

/// The web declarations with each same-named override swapped in place, and
/// the overrides with no web counterpart appended.
pub open spec fn spec_declarations_with(web: Seq<Mod>, mods: Seq<Mod>) -> Seq<DeclV> {
    let (decls, extra) = substituted(mod_decls(web), mod_decls(mods));
    decls + extra
}

fn first_named_exec(ds: &Vec<Decl>, name: &str) -> (r: Option<usize>)
    ensures
        r matches Some(k) ==> first_named(decl_views(ds@), name@) == Some(k as int) && k < ds@.len(),
        r is None ==> first_named(decl_views(ds@), name@) is None,
{
    let ghost dv = decl_views(ds@);
    let mut i: usize = 0;
    while i < ds.len()
        invariant
            dv == decl_views(ds@),
            i <= ds@.len(),
            named_from(dv, name@, 0) == named_from(dv, name@, i as int),
        decreases ds@.len() - i,
    {
        if str_eq(ds[i].name.as_str(), name) {
            return Some(i);
        }
        i += 1;
    }
    None
}

/// The web runtime's declarations with the override modules substituted:
/// each override that has a web declaration of the same name replaces it in
/// place, keeping dependency order; the rest are appended.
pub fn declarations_with(web: &[Mod], mods: &[Mod]) -> (r: Vec<Decl>)
    ensures
        decl_views(r@) == spec_declarations_with(web@, mods@),
{
    let mut decls = crate::backend::emit::all_declarations(web);
    let over = crate::backend::emit::all_declarations(mods);
    let ghost ov = decl_views(over@);
    let mut extra: Vec<Decl> = Vec::new();
    let mut i: usize = 0;
    let ghost w = mod_decls(web@);
    while i < over.len()
        invariant
            ov == decl_views(over@),
            ov == mod_decls(mods@),
            w == mod_decls(web@),
            i <= over@.len(),
            substituted(w, ov.take(i as int)) == (decl_views(decls@), decl_views(extra@)),
        decreases over@.len() - i,
    {
        assert(ov.take(i + 1).drop_last() =~= ov.take(i as int));
        assert(ov.take(i + 1).last() == over@[i as int]@);
        let d = over[i].duplicate();
        let ghost prev = substituted(w, ov.take(i as int));
        assert(ov[i as int] == over@[i as int]@);
        assert(substituted(w, ov.take(i + 1)) == substitute(prev, ov[i as int]));
        let nm = over[i].name.as_str();
        let found = first_named_exec(&decls, nm);
        match found {
            Some(k) => {
                let ghost o = decl_views(decls@);
                decls.set(k, d);
                assert(decl_views(decls@) =~= o.update(k as int, over@[i as int]@));
                assert(first_named(prev.0, ov[i as int].name) == Some(k as int));
                assert(substitute(prev, ov[i as int]).0 == prev.0.update(k as int, ov[i as int]));
            },
            None => {
                let ghost o = decl_views(extra@);
                extra.push(d);
                assert(decl_views(extra@) =~= o.push(over@[i as int]@));
            },
        }
        assert(substituted(w, ov.take(i + 1)).0 =~= decl_views(decls@));
        assert(substituted(w, ov.take(i + 1)).1 =~= decl_views(extra@));
        i += 1;
    }
    assert(ov.take(over@.len() as int) =~= ov);
    let ghost a = decl_views(decls@);
    let ghost b = decl_views(extra@);
    decls.append(&mut extra);
    assert(decl_views(decls@) =~= a + b);
    decls
}

/// `text` with `'worklet';` inserted after the first `{` that follows the
/// line declaring `function name`, when there is such a line.
pub open spec fn spec_workletize(name: Seq<char>, text: Seq<char>) -> Seq<char> {
    match worklet_brace(name, text) {
        Some(b) => text.take(b) + seq!['{', ' '] + "'worklet';"@ + text.skip(b + 1),
        None => text,
    }
}

/// Whether a line starting at `at` declares `function name` — the name
/// followed by `(` or a space.
pub open spec fn declares_function(text: Seq<char>, at: int, name: Seq<char>) -> bool {
    let needle = "function "@ + name;
    &&& has_at(text, at, needle)
    &&& at + needle.len() < text.len()
    &&& (text[at + needle.len()] == '(' || text[at + needle.len()] == ' ')
}

/// Whether `at` starts a line of `text`.
pub open spec fn line_start(text: Seq<char>, at: int) -> bool {
    0 <= at < text.len() && (at == 0 || text[at - 1] == '\n')
}

/// The first `{` at or after `from`.
pub open spec fn brace_from(text: Seq<char>, from: int) -> Option<int>
    decreases text.len() - from,
{
    if from < 0 || from >= text.len() {
        None
    } else if text[from] == '{' {
        Some(from)
    } else {
        brace_from(text, from + 1)
    }
}

/// The first `{` after the earliest line, at or after `at`, that declares
/// `function name` and has a `{` after it.
pub open spec fn worklet_at(name: Seq<char>, text: Seq<char>, at: int) -> Option<int>
    decreases text.len() - at,
{
    if at < 0 || at >= text.len() {
        None
    } else if line_start(text, at) && declares_function(text, at, name) && brace_from(text, at) is Some {
        brace_from(text, at)
    } else {
        worklet_at(name, text, at + 1)
    }
}

/// The first `{` after the earliest line that declares `function name` and
/// has a `{` after it.
pub open spec fn worklet_brace(name: Seq<char>, text: Seq<char>) -> Option<int> {
    worklet_at(name, text, 0)
}

fn find_brace(t: &[char], from: usize) -> (r: Option<usize>)
    ensures
        match brace_from(t@, from as int) {
            Some(b) => r == Some(b as usize) && from <= b < t@.len(),
            None => r is None,
        },
{
    let mut i = from;
    while i < t.len()
        invariant
            from <= i,
            brace_from(t@, from as int) == brace_from(t@, i as int),
        decreases t@.len() - i,
    {
        if t[i] == '{' {
            return Some(i);
        }
        i += 1;
    }
    None
}

proof fn lemma_brace_from_later(t: Seq<char>, a: int, b: int)
    requires
        0 <= a <= b,
        brace_from(t, a) is None,
    ensures
        brace_from(t, b) is None,
    decreases b - a,
{
    if a < b && a < t.len() {
        lemma_brace_from_later(t, a + 1, b);
    }
}

/// Insert `'worklet';` as the first statement of a top-level `function NAME`
/// declaration. Anything else (consts, classes) passes through.
///
/// The declaration text starts with its comments, so the scan looks for the
/// `function NAME` line itself (always at column 0) and takes the first `{`
/// after it — no runtime source puts a brace in a parameter list.
pub fn workletize(name: &str, text: &str) -> (r: String)
    ensures
        r@ == spec_workletize(name@, text@),
{
    let t = chars_of(text);
    let mut needle: Vec<char> = chars_of("function ");
    let mut nc = chars_of(name);
    needle.append(&mut nc);
    assert(needle@ =~= "function "@ + name@);
    let mut at: usize = 0;
    while at < t.len()
        invariant
            t@ == text@,
            needle@ == "function "@ + name@,
            at <= t@.len(),
            at == 0 || at == t@.len() || t@[at - 1] == '\n',
            worklet_at(name@, t@, 0) == worklet_at(name@, t@, at as int),
        decreases t@.len() - at,
    {
        let n = needle.len();
        let hit = chars_at(t.as_slice(), at, needle.as_slice()) && at + n < t.len() && (t[at + n] == '('
            || t[at + n] == ' ');
        assert(hit == declares_function(t@, at as int, name@));
        assert(line_start(t@, at as int));
        if hit {
            if let Some(b) = find_brace(t.as_slice(), at) {
                let mut out = String::new();
                let head = slice_chars(t.as_slice(), 0, b);
                push_chars(&mut out, head.as_slice());
                push_char(&mut out, '{');
                push_char(&mut out, ' ');
                push_str(&mut out, "'worklet';");
                let tail = slice_chars(t.as_slice(), b + 1, t.len());
                push_chars(&mut out, tail.as_slice());
                assert(head@ == t@.take(b as int));
                assert(tail@ == t@.skip(b + 1));
                return out;
            }
        }
        // On to the next line.
        let start = at;
        at += 1;
        while at < t.len() && t[at - 1] != '\n'
            invariant
                start < at <= t@.len(),
                worklet_at(name@, t@, 0) == worklet_at(name@, t@, at as int),
            decreases t@.len() - at,
        {
            assert(!line_start(t@, at as int));
            at += 1;
        }
        if at < t.len() {
        }
    }
    string_of(t.as_slice())
}

// ---------------------------------------------------------------------------
// Markup → element tree.
// ---------------------------------------------------------------------------

/// One element of baked markup.
#[derive(Debug)]
pub struct Node {
    pub tag: String,
    pub attrs: Vec<(String, String)>,
    pub children: Vec<Node>,
    /// Document-order index (root excluded) — the same numbering the web
    /// runtime's `querySelectorAll('*')` gives, assigned by [`assign_slots`]
    /// before any restructuring so bindings keep addressing the right element.
    pub slot: Option<usize>,
}

/// The mathematical content of a [`Node`].
#[verifier::ext_equal]
pub struct NodeV {
    pub tag: Seq<char>,
    pub attrs: Seq<(Seq<char>, Seq<char>)>,
    pub children: Seq<NodeV>,
    pub slot: Option<usize>,
}

/// The views of attribute pairs.
pub open spec fn attr_views(a: Seq<(String, String)>) -> Seq<(Seq<char>, Seq<char>)> {
    a.map_values(|p: (String, String)| (p.0@, p.1@))
}

/// The content of a node, all the way down.
pub open spec fn node_view(n: Node) -> NodeV
    decreases n,
{
    NodeV {
        tag: n.tag@,
        attrs: attr_views(n.attrs@),
        children: Seq::new(
            n.children@.len(),
            |i: int| if 0 <= i < n.children@.len() { node_view(n.children@[i]) } else { leaf(seq![]) },
        ),
        slot: n.slot,
    }
}

/// A node with nothing in it.
pub open spec fn leaf(tag: Seq<char>) -> NodeV {
    NodeV { tag, attrs: seq![], children: seq![], slot: None }
}

/// The views of a list of nodes.
pub open spec fn node_views(v: Seq<Node>) -> Seq<NodeV> {
    v.map_values(|n: Node| node_view(n))
}

/// `u8::is_ascii_whitespace`: space, tab, line feed, form feed, carriage return.
pub open spec fn markup_space(c: char) -> bool {
    c == ' ' || c == '\t' || c == '\n' || c == '\x0C' || c == '\r'
}

/// The kinds of run the parser skips over.
pub enum Run {
    /// ASCII letters and digits: a tag name.
    Alnum,
    /// Markup whitespace.
    Space,
    /// Anything but `=` and whitespace: an attribute name.
    Name,
    /// Anything but `"`: an attribute value.
    Value,
    /// Anything but `>`: a close tag's name.
    Close,
}

/// Whether `c` continues a run of kind `k`.
pub open spec fn in_run(k: Run, c: char) -> bool {
    match k {
        Run::Alnum => crate::text::ascii_alnum(c),
        Run::Space => markup_space(c),
        Run::Name => c != '=' && !markup_space(c),
        Run::Value => c != '"',
        Run::Close => c != '>',
    }
}

/// Where the run of kind `k` starting at `i` ends.
pub open spec fn run_end(s: Seq<char>, i: int, k: Run) -> int
    decreases s.len() - i,
{
    if i < 0 || i >= s.len() || !in_run(k, s[i]) {
        i
    } else {
        run_end(s, i + 1, k)
    }
}

proof fn lemma_run_end(s: Seq<char>, i: int, k: Run)
    requires
        0 <= i <= s.len(),
    ensures
        i <= run_end(s, i, k) <= s.len(),
        forall|j: int| i <= j < run_end(s, i, k) ==> in_run(k, #[trigger] s[j]),
        run_end(s, i, k) < s.len() ==> !in_run(k, s[run_end(s, i, k)]),
    decreases s.len() - i,
{
    if i < s.len() && in_run(k, s[i]) {
        lemma_run_end(s, i + 1, k);
    }
}

/// `head`, the tag name, `tail`: how every message names the element.
pub open spec fn about(head: &str, tag: Seq<char>, tail: &str) -> Seq<char> {
    head@ + tag + tail@
}

/// Where character `i` of `s` begins in its UTF-8 form, which is how the
/// messages give positions.
pub open spec fn byte_at(s: Seq<char>, i: int) -> nat {
    if 0 <= i <= s.len() {
        utf8_len(s.subrange(0, i)) as nat
    } else {
        0
    }
}

/// An element starting at `i`: the node and where it ends, or what is wrong.
pub open spec fn parse_el(s: Seq<char>, i: int) -> Result<(NodeV, int), Seq<char>>
    decreases s.len() - i, 2int,
{
    if !(0 <= i < s.len() && s[i] == '<') {
        Err("expected '<' at byte "@ + decimal(byte_at(s, i)))
    } else {
        let e = run_end(s, i + 1, Run::Alnum);
        if e <= i + 1 || e > s.len() {
            Err("empty tag name at byte "@ + decimal(byte_at(s, i + 1)))
        } else {
            parse_attrs(s, e, s.subrange(i + 1, e), seq![])
        }
    }
}

/// The attributes of an element from `j` to the end of its start tag, and
/// everything after.
pub open spec fn parse_attrs(s: Seq<char>, j: int, tag: Seq<char>, attrs: Seq<(Seq<char>, Seq<char>)>) -> Result<(NodeV, int), Seq<char>>
    decreases s.len() - j, 1int,
{
    let k = run_end(s, j, Run::Space);
    if j < 0 || k < j || k > s.len() {
        Err(about("unterminated element <", tag, ">"))
    } else if k >= s.len() {
        Err(about("unterminated element <", tag, ">"))
    } else if s[k] == '/' {
        if k + 1 < s.len() && s[k + 1] == '>' {
            Ok((NodeV { tag, attrs, children: seq![], slot: None }, k + 2))
        } else {
            Err(about("expected '/>' in <", tag, ">"))
        }
    } else if s[k] == '>' {
        parse_children(s, k + 1, tag, attrs, seq![])
    } else {
        let ne = run_end(s, k, Run::Name);
        let name = s.subrange(k, ne);
        if !(k <= ne && ne + 1 < s.len() && s[ne] == '=' && s[ne + 1] == '"') {
            Err("attribute `"@ + s.subrange(k, if k <= ne <= s.len() { ne } else { k }) + about(
                "` in <",
                tag,
                "> is not double-quoted",
            ))
        } else {
            let vs = ne + 2;
            let ve = run_end(s, vs, Run::Value);
            if ve < vs || ve >= s.len() {
                Err(about("unterminated attribute in <", tag, ">"))
            } else {
                parse_attrs(s, ve + 1, tag, attrs.push((name, s.subrange(vs, ve))))
            }
        }
    }
}

/// The children of an element from `k` to the end of its close tag.
pub open spec fn parse_children(
    s: Seq<char>,
    k: int,
    tag: Seq<char>,
    attrs: Seq<(Seq<char>, Seq<char>)>,
    kids: Seq<NodeV>,
) -> Result<(NodeV, int), Seq<char>>
    decreases s.len() - k, 3int,
{
    if k < 0 || k >= s.len() {
        Err(about("unterminated element <", tag, ">"))
    } else if s[k] == '<' && k + 1 < s.len() && s[k + 1] == '/' {
        let ce = run_end(s, k + 2, Run::Close);
        if !(k + 2 <= ce <= s.len()) || s.subrange(k + 2, ce) != tag {
            Err(about("mismatched close tag for <", tag, ">"))
        } else {
            Ok((NodeV { tag, attrs, children: kids, slot: None }, ce + 1))
        }
    } else if s[k] == '<' {
        match parse_el(s, k) {
            Err(m) => Err(m),
            Ok((c, k2)) => if k2 <= k {
                Err(about("unterminated element <", tag, ">"))
            } else if k2 >= s.len() {
                Err(about("unterminated element <", tag, ">"))
            } else {
                parse_children(s, k2, tag, attrs, kids.push(c))
            },
        }
    } else {
        Err(about("unexpected text content inside <", tag, ">"))
    }
}

/// Whether every character of `s` from `i` on is markup whitespace.
pub open spec fn blank_from(s: Seq<char>, i: int) -> bool {
    forall|j: int| i <= j < s.len() ==> markup_space(#[trigger] s[j])
}

/// The root element of baked markup, or what is wrong with it.
pub open spec fn spec_parse_markup(s: Seq<char>) -> Result<NodeV, Seq<char>> {
    match parse_el(s, 0) {
        Err(m) => Err(m),
        Ok((n, e)) => if blank_from(s, e) {
            Ok(n)
        } else {
            Err("trailing content after the root element"@)
        },
    }
}

/// Whether the root element's close tag runs to the very end without its `>`
/// — the one shape on which the scan would step past the end of the text.
pub open spec fn overruns(s: Seq<char>) -> bool {
    parse_el(s, 0) matches Ok((_, e)) && e > s.len()
}

proof fn lemma_parse_ends(s: Seq<char>, i: int)
    ensures
        parse_el(s, i) matches Ok((_, e)) ==> i < e <= s.len() + 1,
    decreases s.len() - i, 2int,
{
    if 0 <= i < s.len() && s[i] == '<' {
        let e = run_end(s, i + 1, Run::Alnum);
        lemma_run_end(s, i + 1, Run::Alnum);
        if i + 1 < e <= s.len() {
            lemma_attrs_ends(s, e, s.subrange(i + 1, e), seq![]);
        }
    }
}

proof fn lemma_attrs_ends(s: Seq<char>, j: int, tag: Seq<char>, attrs: Seq<(Seq<char>, Seq<char>)>)
    requires
        0 <= j,
    ensures
        parse_attrs(s, j, tag, attrs) matches Ok((_, e)) ==> j < e <= s.len() + 1,
    decreases s.len() - j, 1int,
{
    if j <= s.len() {
        lemma_run_end(s, j, Run::Space);
        let k = run_end(s, j, Run::Space);
        if k < s.len() && s[k] == '>' {
            lemma_children_ends(s, k + 1, tag, attrs, seq![]);
        } else if k < s.len() && s[k] != '/' {
            lemma_run_end(s, k, Run::Name);
            let ne = run_end(s, k, Run::Name);
            if k <= ne && ne + 1 < s.len() {
                lemma_run_end(s, ne + 2, Run::Value);
                let ve = run_end(s, ne + 2, Run::Value);
                if ne + 2 <= ve < s.len() {
                    lemma_attrs_ends(s, ve + 1, tag, attrs.push((s.subrange(k, ne), s.subrange(ne + 2, ve))));
                }
            }
        }
    }
}

proof fn lemma_children_ends(
    s: Seq<char>,
    k: int,
    tag: Seq<char>,
    attrs: Seq<(Seq<char>, Seq<char>)>,
    kids: Seq<NodeV>,
)
    requires
        0 <= k,
    ensures
        parse_children(s, k, tag, attrs, kids) matches Ok((_, e)) ==> k < e <= s.len() + 1,
    decreases s.len() - k, 3int,
{
    if k < s.len() {
        if s[k] == '<' && k + 1 < s.len() && s[k + 1] == '/' {
            lemma_run_end(s, k + 2, Run::Close);
        } else if s[k] == '<' {
            lemma_parse_ends(s, k);
            if let Ok((c, k2)) = parse_el(s, k) {
                if k < k2 < s.len() {
                    lemma_children_ends(s, k2, tag, attrs, kids.push(c));
                }
            }
        }
    }
}

fn run_to(s: &[char], i: usize, k: Run) -> (r: usize)
    requires
        i <= s@.len(),
    ensures
        r == run_end(s@, i as int, k),
        i <= r <= s@.len(),
{
    proof {
        lemma_run_end(s@, i as int, k);
    }
    let mut j = i;
    while j < s.len()
        invariant
            i <= j <= s@.len(),
            run_end(s@, i as int, k) == run_end(s@, j as int, k),
        decreases s@.len() - j,
    {
        let c = s[j];
        let more = match k {
            Run::Alnum => ('a' <= c && c <= 'z') || ('A' <= c && c <= 'Z') || ('0' <= c && c <= '9'),
            Run::Space => c == ' ' || c == '\t' || c == '\n' || c == '\x0C' || c == '\r',
            Run::Name => !(c == '=' || c == ' ' || c == '\t' || c == '\n' || c == '\x0C' || c == '\r'),
            Run::Value => c != '"',
            Run::Close => c != '>',
        };
        if !more {
            return j;
        }
        j += 1;
    }
    j
}

fn message_with_tag(head: &str, tag: &[char], tail: &str) -> (r: String)
    ensures
        r@ == about(head, tag@, tail),
{
    let mut m = String::new();
    push_str(&mut m, head);
    push_chars(&mut m, tag);
    push_str(&mut m, tail);
    m
}

fn unterminated(tag: &[char]) -> (r: String)
    ensures
        r@ == about("unterminated element <", tag@, ">"),
{
    message_with_tag("unterminated element <", tag, ">")
}

/// The result a parse promises, in terms of its spec.
pub open spec fn parsed_as(r: Result<(Node, usize), String>, want: Result<(NodeV, int), Seq<char>>) -> bool {
    match want {
        Ok((n, e)) => r matches Ok((x, e2)) && node_view(x) == n && e2 == e,
        Err(m) => r matches Err(x) && x@ == m,
    }
}

fn parse_element(s: &[char], i: usize) -> (r: Result<(Node, usize), String>)
    requires
        s@.len() < usize::MAX,
        i <= s@.len(),
    ensures
        parsed_as(r, parse_el(s@, i as int)),
    decreases s@.len() - i, 1int,
{
    if !(i < s.len() && s[i] == '<') {
        let mut m = String::new();
        push_str(&mut m, "expected '<' at byte ");
        let d = wide_decimal_string(byte_offset(s, i));
        proof { lemma_utf8_len_nonneg(s@.subrange(0, i as int)); }
        push_str(&mut m, d.as_str());
        return Err(m);
    }
    let e = run_to(s, i + 1, Run::Alnum);
    if e <= i + 1 {
        let mut m = String::new();
        push_str(&mut m, "empty tag name at byte ");
        let d = wide_decimal_string(byte_offset(s, i + 1));
        proof { lemma_utf8_len_nonneg(s@.subrange(0, i + 1)); }
        push_str(&mut m, d.as_str());
        return Err(m);
    }
    let tag = slice_chars(s, i + 1, e);
    let mut attrs: Vec<(String, String)> = Vec::new();
    assert(attr_views(attrs@) =~= Seq::<(Seq<char>, Seq<char>)>::empty());
    let mut j = e;
    loop
        invariant
            s@.len() < usize::MAX,
            i < j <= s@.len(),
            tag@ == s@.subrange(i + 1, e as int),
            i + 1 < e <= s@.len(),
            parse_el(s@, i as int) == parse_attrs(s@, j as int, tag@, attr_views(attrs@)),
        decreases s@.len() - j,
    {
        let k = run_to(s, j, Run::Space);
        if k >= s.len() {
            return Err(unterminated(tag.as_slice()));
        }
        if s[k] == '/' {
            if k + 1 < s.len() && s[k + 1] == '>' {
                let n = Node { tag: string_of(tag.as_slice()), attrs, children: Vec::new(), slot: None };
                assert(node_view(n).children =~= Seq::<NodeV>::empty());
                return Ok((n, k + 2));
            }
            return Err(message_with_tag("expected '/>' in <", tag.as_slice(), ">"));
        }
        if s[k] == '>' {
            return parse_kids(s, i, k + 1, tag, attrs);
        }
        let ne = run_to(s, k, Run::Name);
        if !(ne + 1 < s.len() && s[ne] == '=' && s[ne + 1] == '"') {
            let mut m = String::new();
            push_str(&mut m, "attribute `");
            let nm = slice_chars(s, k, ne);
            push_chars(&mut m, nm.as_slice());
            let rest = message_with_tag("` in <", tag.as_slice(), "> is not double-quoted");
            push_str(&mut m, rest.as_str());
            return Err(m);
        }
        let vs = ne + 2;
        let ve = run_to(s, vs, Run::Value);
        if ve >= s.len() {
            return Err(message_with_tag("unterminated attribute in <", tag.as_slice(), ">"));
        }
        let name = string_of(slice_chars(s, k, ne).as_slice());
        let value = string_of(slice_chars(s, vs, ve).as_slice());
        let ghost before = attr_views(attrs@);
        attrs.push((name, value));
        assert(attr_views(attrs@) =~= before.push((s@.subrange(k as int, ne as int), s@.subrange(vs as int, ve as int))));
        j = ve + 1;
    }
}

fn parse_kids(s: &[char], i: usize, k0: usize, tag: Vec<char>, attrs: Vec<(String, String)>) -> (r: Result<(Node, usize), String>)
    requires
        s@.len() < usize::MAX,
        i < k0 <= s@.len(),
        parse_el(s@, i as int) == parse_children(s@, k0 as int, tag@, attr_views(attrs@), seq![]),
    ensures
        parsed_as(r, parse_el(s@, i as int)),
    decreases s@.len() - i, 0int,
{
    let mut kids: Vec<Node> = Vec::new();
    assert(node_views(kids@) =~= Seq::<NodeV>::empty());
    let mut k = k0;
    loop
        invariant
            s@.len() < usize::MAX,
            i < k <= s@.len(),
            parse_el(s@, i as int) == parse_children(s@, k as int, tag@, attr_views(attrs@), node_views(kids@)),
        decreases s@.len() - k,
    {
        if k >= s.len() {
            return Err(unterminated(tag.as_slice()));
        }
        if s[k] == '<' && k + 1 < s.len() && s[k + 1] == '/' {
            let ce = run_to(s, k + 2, Run::Close);
            let close = slice_chars(s, k + 2, ce);
            if !chars_eq(close.as_slice(), tag.as_slice()) {
                return Err(message_with_tag("mismatched close tag for <", tag.as_slice(), ">"));
            }
            let n = Node { tag: string_of(tag.as_slice()), attrs, children: kids, slot: None };
            assert(node_view(n).children =~= node_views(n.children@));
            return Ok((n, ce + 1));
        }
        if s[k] != '<' {
            return Err(message_with_tag("unexpected text content inside <", tag.as_slice(), ">"));
        }
        proof {
            lemma_parse_ends(s@, k as int);
        }
        match parse_element(s, k) {
            Err(m) => {
                return Err(m);
            },
            Ok((c, k2)) => {
                if k2 >= s.len() {
                    return Err(unterminated(tag.as_slice()));
                }
                let ghost before = node_views(kids@);
                kids.push(c);
                assert(node_views(kids@) =~= before.push(node_view(c)));
                k = k2;
            },
        }
    }
}

/// Parse the compiler's own baked markup. This is not an XML parser:
/// generated markup has no text nodes, no comments, no entities, no escaped
/// quotes and double-quoted attributes only, so anything else is a compiler
/// bug and fails loudly.
pub fn parse_markup(src: &str) -> (r: Result<Node, String>)
    requires
        src@.len() < usize::MAX,
        !overruns(src@),
    ensures
        match spec_parse_markup(src@) {
            Ok(n) => r matches Ok(x) && node_view(x) == n,
            Err(m) => r matches Err(x) && x@ == m,
        },
{
    let s = chars_of(src);
    match parse_element(s.as_slice(), 0) {
        Err(m) => Err(m),
        Ok((n, e)) => {
            let mut j = e;
            while j < s.len()
                invariant
                    s@ == src@,
                    e <= j,
                    parse_el(src@, 0) == Ok::<(NodeV, int), Seq<char>>((node_view(n), e as int)),
                    forall|x: int| e <= x < j ==> markup_space(#[trigger] s@[x]),
                decreases s@.len() - j,
            {
                let c = s[j];
                if !(c == ' ' || c == '\t' || c == '\n' || c == '\x0C' || c == '\r') {
                    let mut m = String::new();
                    push_str(&mut m, "trailing content after the root element");
                    assert(!markup_space(s@[j as int]));
                    assert(!blank_from(src@, e as int));
                    return Err(m);
                }
                j += 1;
            }
            Ok(n)
        },
    }
}

// ---------------------------------------------------------------------------
// Attribute and tag vocabulary
// ---------------------------------------------------------------------------

/// The react-native-svg component for an SVG tag, if it has one.
pub open spec fn spec_component(tag: Seq<char>) -> Option<Seq<char>> {
    if tag == "svg"@ { Some("Svg"@) }
    else if tag == "g"@ { Some("G"@) }
    else if tag == "path"@ { Some("Path"@) }
    else if tag == "rect"@ { Some("Rect"@) }
    else if tag == "ellipse"@ { Some("Ellipse"@) }
    else if tag == "circle"@ { Some("Circle"@) }
    else if tag == "line"@ { Some("Line"@) }
    else if tag == "defs"@ { Some("Defs"@) }
    else if tag == "use"@ { Some("Use"@) }
    else if tag == "mask"@ { Some("Mask"@) }
    else if tag == "clipPath"@ { Some("ClipPath"@) }
    else if tag == "linearGradient"@ { Some("LinearGradient"@) }
    else if tag == "radialGradient"@ { Some("RadialGradient"@) }
    else if tag == "stop"@ { Some("Stop"@) }
    else if tag == "filter"@ { Some("Filter"@) }
    else if tag == "feColorMatrix"@ { Some("FeColorMatrix"@) }
    else { None }
}

/// The react-native-svg component for one SVG tag. Refusing an unmapped tag
/// here is the tree-level twin of the capability whitelist: nothing renders as
/// silently-missing markup.
pub fn component(tag: &str) -> (r: Result<&'static str, String>)
    ensures
        match spec_component(tag@) {
            Some(c) => r matches Ok(x) && x@ == c,
            None => r matches Err(m) && m@ == about(
                "the reanimated-aot target has no react-native-svg component for <",
                tag@,
                ">",
            ),
        },
{
    if str_eq(tag, "svg") { return Ok("Svg"); }
    if str_eq(tag, "g") { return Ok("G"); }
    if str_eq(tag, "path") { return Ok("Path"); }
    if str_eq(tag, "rect") { return Ok("Rect"); }
    if str_eq(tag, "ellipse") { return Ok("Ellipse"); }
    if str_eq(tag, "circle") { return Ok("Circle"); }
    if str_eq(tag, "line") { return Ok("Line"); }
    if str_eq(tag, "defs") { return Ok("Defs"); }
    if str_eq(tag, "use") { return Ok("Use"); }
    if str_eq(tag, "mask") { return Ok("Mask"); }
    if str_eq(tag, "clipPath") { return Ok("ClipPath"); }
    if str_eq(tag, "linearGradient") { return Ok("LinearGradient"); }
    if str_eq(tag, "radialGradient") { return Ok("RadialGradient"); }
    if str_eq(tag, "stop") { return Ok("Stop"); }
    if str_eq(tag, "filter") { return Ok("Filter"); }
    if str_eq(tag, "feColorMatrix") { return Ok("FeColorMatrix"); }
    let tc = chars_of(tag);
    Err(message_with_tag("the reanimated-aot target has no react-native-svg component for <", tc.as_slice(), ">"))
}

/// The name written so far, and whether the next character starts a word.
pub open spec fn camel_scan(s: Seq<char>) -> (Seq<char>, bool)
    decreases s.len(),
{
    if s.len() == 0 {
        (seq![], false)
    } else {
        let (out, up) = camel_scan(s.drop_last());
        let c = s.last();
        if c == '-' {
            (out, true)
        } else if up {
            (out + crate::text::uppercase(c), false)
        } else {
            (out.push(c), false)
        }
    }
}

/// `fill-opacity` → `fillOpacity`: every `-` dropped and the character after
/// it uppercased.
pub open spec fn spec_camel(s: Seq<char>) -> Seq<char> {
    camel_scan(s).0
}

/// `fill-opacity` → `fillOpacity`, matching react-native-svg prop names (and
/// the runtime's `rnProp`).
pub fn camel(name: &str) -> (r: String)
    ensures
        r@ == spec_camel(name@),
{
    let s = chars_of(name);
    let mut out = String::new();
    let mut up = false;
    let mut i: usize = 0;
    while i < s.len()
        invariant
            s@ == name@,
            i <= s@.len(),
            camel_scan(s@.take(i as int)) == (out@, up),
        decreases s@.len() - i,
    {
        assert(s@.take(i + 1).drop_last() =~= s@.take(i as int));
        let c = s[i];
        if c == '-' {
            up = true;
        } else if up {
            let u = crate::text::to_uppercase(c);
            push_chars(&mut out, u.as_slice());
            up = false;
        } else {
            push_char(&mut out, c);
        }
        i += 1;
    }
    assert(s@.take(s@.len() as int) =~= s@);
    out
}

/// A baked transform as a 6-number matrix array, or why it cannot be one.
pub open spec fn spec_transform_array(v: Seq<char>) -> Result<Seq<char>, Seq<char>> {
    match crate::text::between(v, "matrix("@, ")"@) {
        Some(args) => {
            let p = crate::text::split_on(args, ',');
            if p.len() != 6 {
                Err("matrix() with "@ + decimal(p.len()) + " arguments"@)
            } else {
                Ok("["@ + crate::text::joined(p, ", "@) + "]"@)
            }
        },
        None => match crate::text::between(v, "translate("@, ")"@) {
            Some(args) => {
                let p = crate::text::split_on(args, ',');
                if p.len() != 2 {
                    Err("translate() with "@ + decimal(p.len()) + " arguments"@)
                } else {
                    Ok("[1, 0, 0, 1, "@ + p[0] + ", "@ + p[1] + "]"@)
                }
            },
            None => Err("unsupported transform `"@ + v + "` in the reanimated-aot target"@),
        },
    }
}

fn count_message(head: &str, n: usize) -> (r: String)
    ensures
        r@ == head@ + decimal(n as nat) + " arguments"@,
{
    let mut m = String::new();
    push_str(&mut m, head);
    let d = decimal_string(n as u64);
    push_str(&mut m, d.as_str());
    push_str(&mut m, " arguments");
    m
}

/// A baked transform value as a matrix array. A transform *string* throws on
/// Fabric iOS, so static props emit the 6-number array. The compiler only ever
/// writes these two spellings.
pub fn transform_array(v: &str) -> (r: Result<String, String>)
    ensures
        match spec_transform_array(v@) {
            Ok(t) => r matches Ok(x) && x@ == t,
            Err(m) => r matches Err(x) && x@ == m,
        },
{
    let s = chars_of(v);
    if let Some(args) = crate::text::between_chars(s.as_slice(), "matrix(", ")") {
        let parts = crate::text::split_chars(args.as_slice(), ',');
        if parts.len() != 6 {
            return Err(count_message("matrix() with ", parts.len()));
        }
        let mut out = String::new();
        push_str(&mut out, "[");
        crate::text::push_joined_chars(&mut out, parts.as_slice(), ", ");
        push_str(&mut out, "]");
        return Ok(out);
    }
    if let Some(args) = crate::text::between_chars(s.as_slice(), "translate(", ")") {
        let parts = crate::text::split_chars(args.as_slice(), ',');
        if parts.len() != 2 {
            return Err(count_message("translate() with ", parts.len()));
        }
        let mut out = String::new();
        push_str(&mut out, "[1, 0, 0, 1, ");
        push_chars(&mut out, parts[0].as_slice());
        push_str(&mut out, ", ");
        push_chars(&mut out, parts[1].as_slice());
        push_str(&mut out, "]");
        return Ok(out);
    }
    let mut m = String::new();
    push_str(&mut m, "unsupported transform `");
    push_str(&mut m, v);
    push_str(&mut m, "` in the reanimated-aot target");
    Err(m)
}

/// Whether react-native-svg's native side reads this prop as a raw number.
pub open spec fn spec_numeric_prop(prop: Seq<char>) -> bool {
    prop == "opacity"@ || prop == "fillOpacity"@ || prop == "strokeOpacity"@ || prop == "strokeDashoffset"@
}

/// The props react-native-svg reads as raw `Double`s: the opacity of the
/// element and of each of its paints (fill and stroke), and the stroke's dash
/// offset.
pub open spec fn read_as_double(prop: Seq<char>) -> bool {
    ||| prop == "opacity"@
    ||| exists|paint: Seq<char>| (paint == "fill"@ || paint == "stroke"@) && prop == #[trigger] (paint + "Opacity"@)
    ||| prop == "stroke"@ + "Dashoffset"@
}

/// A prop is baked as a bare number exactly when react-native-svg reads it as
/// a raw `Double`: the opacities of the element, its fill and its stroke, and
/// the stroke's dash offset, the same props the per-frame writes send as
/// numbers.
pub proof fn lemma_numeric_props_are_the_doubles(prop: Seq<char>)
    ensures
        spec_numeric_prop(prop) <==> read_as_double(prop),
{
    reveal_strlit("fill");
    reveal_strlit("stroke");
    reveal_strlit("Opacity");
    reveal_strlit("Dashoffset");
    reveal_strlit("fillOpacity");
    reveal_strlit("strokeOpacity");
    reveal_strlit("strokeDashoffset");
    assert("fill"@ + "Opacity"@ =~= "fillOpacity"@);
    assert("stroke"@ + "Opacity"@ =~= "strokeOpacity"@);
    assert("stroke"@ + "Dashoffset"@ =~= "strokeDashoffset"@);
    if prop == "fillOpacity"@ {
        assert(prop == "fill"@ + "Opacity"@);
    }
    if prop == "strokeOpacity"@ {
        assert(prop == "stroke"@ + "Opacity"@);
    }
}

/// Whether react-native-svg's native side reads this prop as a raw `Double`:
/// a string there throws, so such a prop is emitted as a number when its
/// value is a plain one.
pub fn numeric_prop(prop: &str) -> (r: bool)
    ensures
        r == spec_numeric_prop(prop@),
{
    str_eq(prop, "opacity") || str_eq(prop, "fillOpacity") || str_eq(prop, "strokeOpacity") || str_eq(
        prop,
        "strokeDashoffset",
    )
}

// ---------------------------------------------------------------------------
// Slots
// ---------------------------------------------------------------------------

/// The tree with document-order slots stamped from `next` on (the root keeps
/// its own when `root`), and the counter after it.
pub open spec fn slot_tree(n: NodeV, root: bool, next: int) -> (NodeV, int)
    decreases n, 0int,
{
    let (s, nx) = if root { (n.slot, next) } else { (Some(next as usize), next + 1) };
    let (kids, end) = slot_kids(n.children, nx, n.children.len() as int);
    (NodeV { tag: n.tag, attrs: n.attrs, children: kids, slot: s }, end)
}

/// The first `k` children slotted in order from `next`.
pub open spec fn slot_kids(cs: Seq<NodeV>, next: int, k: int) -> (Seq<NodeV>, int)
    decreases cs, k,
{
    if k <= 0 || k > cs.len() {
        (seq![], next)
    } else {
        let (pre, nx) = slot_kids(cs, next, k - 1);
        let (c, e) = slot_tree(cs[k - 1], false, nx);
        (pre.push(c), e)
    }
}

proof fn lemma_slot_grows(n: NodeV, root: bool, next: int)
    ensures
        slot_tree(n, root, next).1 >= next,
        slot_tree(n, root, next).0.children.len() == n.children.len(),
    decreases n, 0int,
{
    let nx = if root { next } else { next + 1 };
    lemma_slot_kids_grows(n.children, nx, n.children.len() as int);
}

proof fn lemma_slot_kids_grows(cs: Seq<NodeV>, next: int, k: int)
    ensures
        slot_kids(cs, next, k).1 >= next,
        0 <= k <= cs.len() ==> slot_kids(cs, next, k).0.len() == k,
    decreases cs, k,
{
    if 0 < k <= cs.len() {
        lemma_slot_kids_grows(cs, next, k - 1);
        let nx = slot_kids(cs, next, k - 1).1;
        lemma_slot_grows(cs[k - 1], false, nx);
    }
}

/// The elements of a subtree, itself included.
pub open spec fn size(n: NodeV) -> nat
    decreases n, 0int,
{
    1 + kids_size(n.children, n.children.len() as int)
}

/// The elements under the first `k` children.
pub open spec fn kids_size(cs: Seq<NodeV>, k: int) -> nat
    decreases cs, k,
{
    if k <= 0 || k > cs.len() {
        0
    } else {
        kids_size(cs, k - 1) + size(cs[k - 1])
    }
}

/// The slots of a subtree in document order.
pub open spec fn preorder(n: NodeV) -> Seq<Option<usize>>
    decreases n, 0int,
{
    seq![n.slot] + kids_preorder(n.children, n.children.len() as int)
}

/// The slots under the first `k` children, in document order.
pub open spec fn kids_preorder(cs: Seq<NodeV>, k: int) -> Seq<Option<usize>>
    decreases cs, k,
{
    if k <= 0 || k > cs.len() {
        seq![]
    } else {
        kids_preorder(cs, k - 1) + preorder(cs[k - 1])
    }
}

/// `count` consecutive slots from `from`.
pub open spec fn counting(from: int, count: int) -> Seq<Option<usize>> {
    Seq::new(count as nat, |i: int| Some((from + i) as usize))
}

proof fn lemma_kids_preorder_prefix(a: Seq<NodeV>, b: Seq<NodeV>, j: int)
    requires
        0 <= j <= a.len(),
        j <= b.len(),
        a.take(j) == b.take(j),
    ensures
        kids_preorder(a, j) == kids_preorder(b, j),
        kids_size(a, j) == kids_size(b, j),
    decreases j,
{
    if j > 0 {
        assert(a.take(j - 1) =~= a.take(j).take(j - 1));
        assert(b.take(j - 1) =~= b.take(j).take(j - 1));
        lemma_kids_preorder_prefix(a, b, j - 1);
        assert(a[j - 1] == a.take(j)[j - 1]);
        assert(b[j - 1] == b.take(j)[j - 1]);
    }
}

proof fn lemma_slot_tree_counts(n: NodeV, root: bool, next: int)
    ensures
        ({
            let (m, end) = slot_tree(n, root, next);
            if root {
                &&& preorder(m) == seq![n.slot] + counting(next, size(n) - 1)
                &&& end == next + size(n) - 1
            } else {
                &&& preorder(m) == counting(next, size(n) as int)
                &&& end == next + size(n)
            }
        }),
    decreases n, 0int,
{
    let nx = if root { next } else { next + 1 };
    let len = n.children.len() as int;
    lemma_slot_kids_counts(n.children, nx, len);
    lemma_slot_kids_grows(n.children, nx, len);
    let (m, end) = slot_tree(n, root, next);
    let (kids, e) = slot_kids(n.children, nx, len);
    assert(m.children == kids);
    if !root {
        assert(preorder(m) =~= counting(next, size(n) as int));
    } else {
        assert(preorder(m) =~= seq![n.slot] + counting(next, size(n) - 1));
    }
}

proof fn lemma_slot_kids_counts(cs: Seq<NodeV>, next: int, k: int)
    requires
        0 <= k <= cs.len(),
    ensures
        ({
            let (kids, end) = slot_kids(cs, next, k);
            &&& kids_preorder(kids, k) == counting(next, kids_size(cs, k) as int)
            &&& end == next + kids_size(cs, k)
        }),
    decreases cs, k,
{
    if k > 0 {
        let (pre, nx) = slot_kids(cs, next, k - 1);
        lemma_slot_kids_counts(cs, next, k - 1);
        lemma_slot_kids_grows(cs, next, k - 1);
        let (c, e) = slot_tree(cs[k - 1], false, nx);
        lemma_slot_tree_counts(cs[k - 1], false, nx);
        let kids = pre.push(c);
        assert(kids.take(k - 1) =~= pre.take(k - 1));
        lemma_kids_preorder_prefix(kids, pre, k - 1);
        assert(pre.take(k - 1) =~= pre);
        assert(kids_preorder(kids, k) == kids_preorder(pre, k - 1) + preorder(c));
        assert(kids_preorder(kids, k) =~= counting(next, kids_size(cs, k) as int));
    }
}

/// Slots follow document order: below the node (and the node itself unless
/// it is the root), the slots read in document order are consecutive from
/// `next`, one per element, and the counter ends just past them.
pub proof fn lemma_slots_follow_document_order(n: NodeV, root: bool, next: int)
    ensures
        ({
            let (m, end) = slot_tree(n, root, next);
            if root {
                &&& preorder(m) == seq![n.slot] + counting(next, size(n) - 1)
                &&& end == next + size(n) - 1
            } else {
                &&& preorder(m) == counting(next, size(n) as int)
                &&& end == next + size(n)
            }
        }),
{
    lemma_slot_tree_counts(n, root, next);
}

/// Assign document-order slot indices — the same numbering the web runtime's
/// `querySelectorAll('*')` gives: every descendant in document order, the root
/// excluded when `root`. Runs on the tree exactly as baked, before any
/// restructuring, so the indices stay the ones the bindings address.
pub fn assign_slots(node: &mut Node, root: bool, next: &mut usize)
    requires
        slot_tree(node_view(*old(node)), root, *old(next) as int).1 <= usize::MAX,
    ensures
        (node_view(*final(node)), *final(next) as int) == slot_tree(node_view(*old(node)), root, *old(next) as int),
    decreases *old(node),
{
    let ghost n0 = node_view(*node);
    let ghost o = *node;
    let ghost next0 = *next as int;
    proof {
        lemma_slot_kids_grows(n0.children, if root { next0 } else { next0 + 1 }, n0.children.len() as int);
    }
    if !root {
        node.slot = Some(*next);
        *next += 1;
    }
    let ghost nx = if root { next0 } else { next0 + 1 };
    let mut kids: Vec<Node> = Vec::new();
    std::mem::swap(&mut node.children, &mut kids);
    let ghost orig = kids@;
    assert(node_views(orig) =~= n0.children);
    let mut done: Vec<Node> = Vec::new();
    let mut i: usize = 0;
    let total = kids.len();
    proof {
        lemma_slot_kids_grows(n0.children, nx, n0.children.len() as int);
    }
    while i < total
        invariant
            total == orig.len(),
            i <= total,
            kids@ == orig.skip(i as int),
            orig == o.children@,
            o == *old(node),
            node_views(orig) == n0.children,
            (node_views(done@), *next as int) == slot_kids(n0.children, nx, i as int),
            slot_tree(n0, root, next0).1 <= usize::MAX,
            slot_tree(n0, root, next0) == ({
                let (kk, end) = slot_kids(n0.children, nx, n0.children.len() as int);
                (NodeV { tag: n0.tag, attrs: n0.attrs, children: kk, slot: if root { n0.slot } else { Some(next0 as usize) } }, end)
            }),
        decreases total - i,
    {
        let mut c = kids.remove(0);
        assert(c == orig[i as int]);
        proof {
            lemma_slot_kids_prefix(n0.children, nx, i as int + 1, n0.children.len() as int);
            lemma_slot_grows(n0.children[i as int], false, *next as int);
        }
        assert(node_view(c) == n0.children[i as int]);
        assert(decreases_to!(o => o.children));
        assert(decreases_to!(o.children => o.children@));
        assert(decreases_to!(o.children@ => o.children@[i as int]));
        assert(decreases_to!(o => c));
        assign_slots(&mut c, false, next);
        let ghost before = node_views(done@);
        done.push(c);
        assert(node_views(done@) =~= before.push(node_view(c)));
        assert(kids@ =~= orig.skip(i + 1));
        i += 1;
    }
    node.children = done;
    proof {
        lemma_slot_kids_grows(n0.children, nx, n0.children.len() as int);
        assert(node_view(*node).children =~= node_views(node.children@));
    }
}

proof fn lemma_slot_kids_prefix(cs: Seq<NodeV>, next: int, k: int, m: int)
    requires
        0 <= k <= m <= cs.len(),
    ensures
        slot_kids(cs, next, k).1 <= slot_kids(cs, next, m).1,
    decreases m - k,
{
    if k < m {
        lemma_slot_kids_prefix(cs, next, k, m - 1);
        let nx = slot_kids(cs, next, m - 1).1;
        lemma_slot_grows(cs[m - 1], false, nx);
    }
}

// ---------------------------------------------------------------------------
// Lowering the matte-inversion filter
// ---------------------------------------------------------------------------

/// Whether a node carries the attribute `k="v"`.
pub open spec fn has_attr(n: NodeV, k: Seq<char>, v: Seq<char>) -> bool {
    exists|i: int| 0 <= i < n.attrs.len() && (#[trigger] n.attrs[i]).0 == k && n.attrs[i].1 == v
}

/// Whether a transfer function is the inversion table `type="table"
/// tableValues="1 0"`.
pub open spec fn is_invert_table(f: NodeV) -> bool {
    has_attr(f, "type"@, "table"@) && has_attr(f, "tableValues"@, "1 0"@)
}

/// The first function from `k` on that is not the inversion table.
pub open spec fn first_bad(fs: Seq<NodeV>, k: int) -> Option<int>
    decreases fs.len() - k,
{
    if k < 0 || k >= fs.len() {
        None
    } else if !is_invert_table(fs[k]) {
        Some(k)
    } else {
        first_bad(fs, k + 1)
    }
}

/// The tags of the first `k` functions, sorted, each once.
pub open spec fn channel_list(fs: Seq<NodeV>, k: int) -> Seq<Seq<char>>
    decreases k,
{
    if k <= 0 {
        seq![]
    } else {
        crate::text::sorted_insert(channel_list(fs, k - 1), fs[k - 1].tag)
    }
}

/// A name between double quotes.
pub open spec fn quoted(s: Seq<char>) -> Seq<char> {
    seq!['"'] + s + seq!['"']
}

/// A sorted channel set as `{"a", "b"}`.
pub open spec fn channel_set(l: Seq<Seq<char>>) -> Seq<char> {
    seq!['{'] + crate::text::joined(l.map_values(|t: Seq<char>| quoted(t)), ", "@) + seq!['}']
}

/// The colour matrix that keeps RGB and inverts alpha.
pub open spec fn alpha_inversion() -> Seq<char> {
    "1 0 0 0 0 0 1 0 0 0 0 0 1 0 0 0 0 0 -1 1"@
}

/// The colour matrix that inverts RGB and keeps alpha.
pub open spec fn rgb_inversion() -> Seq<char> {
    "-1 0 0 0 1 0 -1 0 0 1 0 0 -1 0 1 0 0 0 1 0"@
}

/// The `<feColorMatrix>` that replaces a transfer, keeping its slot.
pub open spec fn color_matrix(c: NodeV, values: Seq<char>) -> NodeV {
    NodeV { tag: "feColorMatrix"@, attrs: seq![("type"@, "matrix"@), ("values"@, values)], children: seq![], slot: c.slot }
}

/// One child after lowering: a `<feComponentTransfer>` made of inversion
/// tables becomes the equivalent colour matrix; anything else passes.
pub open spec fn converted(c: NodeV) -> Result<NodeV, Seq<char>> {
    if c.tag != "feComponentTransfer"@ {
        Ok(c)
    } else {
        match first_bad(c.children, 0) {
            Some(k) => Err(about("the reanimated-aot target only lowers the invert-table <", c.children[k].tag, ">")),
            None => {
                let l = channel_list(c.children, c.children.len() as int);
                if l == seq!["feFuncA"@] {
                    Ok(color_matrix(c, alpha_inversion()))
                } else if l == seq!["feFuncB"@, "feFuncG"@, "feFuncR"@] {
                    Ok(color_matrix(c, rgb_inversion()))
                } else {
                    Err("unrecognized <feComponentTransfer> channel set "@ + channel_set(l))
                }
            },
        }
    }
}

/// The tree after lowering, and the error that stopped it if one did.
pub open spec fn lowered(n: NodeV) -> (NodeV, Option<Seq<char>>)
    decreases n, 0int,
{
    let (kids, e) = lower_kids(n.children, n.children.len() as int);
    match e {
        Some(m) => (NodeV { children: kids, ..n }, Some(m)),
        None => {
            let (kids2, e2) = convert_kids(kids, kids.len() as int);
            (NodeV { children: kids2, ..n }, e2)
        },
    }
}

/// The children with the first `k` lowered in order, stopping at an error.
pub open spec fn lower_kids(cs: Seq<NodeV>, k: int) -> (Seq<NodeV>, Option<Seq<char>>)
    decreases cs, k,
{
    if k <= 0 || k > cs.len() {
        (cs, None)
    } else {
        let (s, e) = lower_kids(cs, k - 1);
        if e is Some {
            (s, e)
        } else {
            let (c, ce) = lowered(cs[k - 1]);
            (s.update(k - 1, c), ce)
        }
    }
}

/// The children with the first `k` converted in order, stopping at an error.
pub open spec fn convert_kids(cs: Seq<NodeV>, k: int) -> (Seq<NodeV>, Option<Seq<char>>)
    decreases k,
{
    if k <= 0 || k > cs.len() {
        (cs, None)
    } else {
        let (s, e) = convert_kids(cs, k - 1);
        if e is Some {
            (s, e)
        } else {
            match converted(cs[k - 1]) {
                Ok(c) => (s.update(k - 1, c), None),
                Err(m) => (s, Some(m)),
            }
        }
    }
}

proof fn lemma_kids_prefix(cs: Seq<NodeV>, k: int)
    requires
        0 <= k <= cs.len(),
    ensures
        lower_kids(cs, k).0.len() == cs.len(),
        forall|j: int| k <= j < cs.len() ==> lower_kids(cs, k).0[j] == cs[j],
        convert_kids(cs, k).0.len() == cs.len(),
        forall|j: int| k <= j < cs.len() ==> convert_kids(cs, k).0[j] == cs[j],
    decreases k,
{
    if k > 0 {
        lemma_kids_prefix(cs, k - 1);
    }
}

fn attr_is(n: &Node, k: &str, v: &str) -> (r: bool)
    ensures
        r == has_attr(node_view(*n), k@, v@),
{
    let ghost a = attr_views(n.attrs@);
    assert(node_view(*n).attrs == a);
    let mut i: usize = 0;
    while i < n.attrs.len()
        invariant
            a == attr_views(n.attrs@),
            i <= n.attrs@.len(),
            forall|j: int| 0 <= j < i ==> !((#[trigger] a[j]).0 == k@ && a[j].1 == v@),
        decreases n.attrs@.len() - i,
    {
        if str_eq(n.attrs[i].0.as_str(), k) && str_eq(n.attrs[i].1.as_str(), v) {
            assert(node_view(*n).attrs[i as int].0 == k@ && node_view(*n).attrs[i as int].1 == v@);
            return true;
        }
        i += 1;
    }
    false
}

fn push_string_pair(v: &mut Vec<(String, String)>, k: &str, x: &str)
    ensures
        attr_views(final(v)@) == attr_views(old(v)@).push((k@, x@)),
{
    let ghost o = attr_views(v@);
    let mut a = String::new();
    push_str(&mut a, k);
    let mut b = String::new();
    push_str(&mut b, x);
    v.push((a, b));
    assert(attr_views(v@) =~= o.push((k@, x@)));
}

fn convert(c: Node) -> (r: Result<Node, (Node, String)>)
    ensures
        match converted(node_view(c)) {
            Ok(n) => r matches Ok(x) && node_view(x) == n,
            Err(m) => r matches Err((x, e)) && x == c && e@ == m,
        },
{
    let ghost cv = node_view(c);
    if !str_eq(c.tag.as_str(), "feComponentTransfer") {
        return Ok(c);
    }
    let mut funcs: Vec<Vec<char>> = Vec::new();
    let mut i: usize = 0;
    while i < c.children.len()
        invariant
            cv == node_view(c),
            cv.tag == "feComponentTransfer"@,
            i <= c.children@.len(),
            first_bad(cv.children, 0) == first_bad(cv.children, i as int),
            crate::lines::views(funcs@) == channel_list(cv.children, i as int),
            crate::text::strictly_sorted(crate::lines::views(funcs@)),
        decreases c.children@.len() - i,
    {
        let f = &c.children[i];
        assert(node_view(*f) == cv.children[i as int]);
        if !(attr_is(f, "type", "table") && attr_is(f, "tableValues", "1 0")) {
            let t = chars_of(f.tag.as_str());
            let m = message_with_tag("the reanimated-aot target only lowers the invert-table <", t.as_slice(), ">");
            return Err((c, m));
        }
        crate::text::insert_sorted(&mut funcs, chars_of(f.tag.as_str()));
        i += 1;
    }
    let alpha = funcs.len() == 1 && chars_eq(funcs[0].as_slice(), chars_of("feFuncA").as_slice());
    let rgb = funcs.len() == 3 && chars_eq(funcs[0].as_slice(), chars_of("feFuncB").as_slice()) && chars_eq(
        funcs[1].as_slice(),
        chars_of("feFuncG").as_slice(),
    ) && chars_eq(funcs[2].as_slice(), chars_of("feFuncR").as_slice());
    let ghost l = crate::lines::views(funcs@);
    assert(alpha == (l == seq!["feFuncA"@])) by {
        if l == seq!["feFuncA"@] {
            assert(l[0] == "feFuncA"@);
        }
        if alpha {
            assert(l =~= seq!["feFuncA"@]);
        }
    }
    assert(rgb == (l == seq!["feFuncB"@, "feFuncG"@, "feFuncR"@])) by {
        if l == seq!["feFuncB"@, "feFuncG"@, "feFuncR"@] {
            assert(l[0] == "feFuncB"@ && l[1] == "feFuncG"@ && l[2] == "feFuncR"@);
        }
        if rgb {
            assert(l =~= seq!["feFuncB"@, "feFuncG"@, "feFuncR"@]);
        }
    }
    let values = if alpha {
        "1 0 0 0 0 0 1 0 0 0 0 0 1 0 0 0 0 0 -1 1"
    } else if rgb {
        "-1 0 0 0 1 0 -1 0 0 1 0 0 -1 0 1 0 0 0 1 0"
    } else {
        let mut m = String::new();
        push_str(&mut m, "unrecognized <feComponentTransfer> channel set ");
        push_char(&mut m, '{');
        let ghost start = m@;
        let ghost qs = l.map_values(|t: Seq<char>| quoted(t));
        let mut k: usize = 0;
        while k < funcs.len()
            invariant
                l == crate::lines::views(funcs@),
                qs == l.map_values(|t: Seq<char>| quoted(t)),
                k <= funcs@.len(),
                m@ == start + crate::text::joined(qs.take(k as int), ", "@),
            decreases funcs@.len() - k,
        {
            assert(qs.take(k + 1).drop_last() =~= qs.take(k as int));
            assert(qs.take(k + 1).last() == quoted(funcs@[k as int]@));
            if k > 0 {
                push_str(&mut m, ", ");
            }
            let ghost before = m@;
            push_char(&mut m, '"');
            push_chars(&mut m, funcs[k].as_slice());
            push_char(&mut m, '"');
            assert(m@ =~= before + quoted(funcs@[k as int]@));
            proof {
                if k == 0 {
                    assert(qs.take(1) =~= seq![quoted(funcs@[0]@)]);
                }
            }
            k += 1;
        }
        assert(qs.take(funcs@.len() as int) =~= qs);
        push_char(&mut m, '}');
        assert(m@ =~= "unrecognized <feComponentTransfer> channel set "@ + channel_set(l));
        return Err((c, m));
    };
    let mut attrs: Vec<(String, String)> = Vec::new();
    push_string_pair(&mut attrs, "type", "matrix");
    push_string_pair(&mut attrs, "values", values);
    let mut tag = String::new();
    push_str(&mut tag, "feColorMatrix");
    let n = Node { tag, attrs, children: Vec::new(), slot: c.slot };
    assert(node_view(n).children =~= Seq::<NodeV>::empty());
    assert(attr_views(n.attrs@) =~= seq![("type"@, "matrix"@), ("values"@, values@)]);
    Ok(n)
}

/// Lower the matte-inversion filter to `<feColorMatrix>`, everywhere in the
/// tree.
///
/// The compiler's only `<feComponentTransfer>` is the matte inversion:
/// `feFuncA` (alpha matte) or `feFuncR/G/B` (luma matte), each
/// `type="table" tableValues="1 0"`. react-native-svg stubs those out, but
/// implements `FeColorMatrix` natively, and a colour matrix expresses the same
/// inversion: `c' = -c + 1` on exactly the inverted channels. The children are
/// lowered first; anything else under a transfer is refused.
pub fn lower_invert_filters(node: &mut Node) -> (r: Result<(), String>)
    ensures
        node_view(*final(node)) == lowered(node_view(*old(node))).0,
        match lowered(node_view(*old(node))).1 {
            Some(m) => r matches Err(x) && x@ == m,
            None => r is Ok,
        },
    decreases *old(node),
{
    let ghost o = *node;
    let ghost n0 = node_view(*node);
    let mut kids: Vec<Node> = Vec::new();
    std::mem::swap(&mut node.children, &mut kids);
    let ghost orig = kids@;
    assert(node_views(orig) =~= n0.children);
    let total = kids.len();
    let mut done: Vec<Node> = Vec::new();
    let mut i: usize = 0;
    while i < total
        invariant
            total == orig.len(),
            i <= total,
            kids@ == orig.skip(i as int),
            orig == o.children@,
            o == *old(node),
            node_views(orig) == n0.children,
            n0 == node_view(o),
            lower_kids(n0.children, i as int).1 is None,
            node_views(done@) + node_views(kids@) == lower_kids(n0.children, i as int).0,
            node.tag == o.tag,
            node.attrs == o.attrs,
            node.slot == o.slot,
        decreases total - i,
    {
        proof {
            lemma_kids_prefix(n0.children, i as int);
        }
        let mut c = kids.remove(0);
        assert(c == orig[i as int]);
        assert(decreases_to!(o => o.children));
        assert(decreases_to!(o.children => o.children@));
        assert(decreases_to!(o.children@ => o.children@[i as int]));
        let ghost done0 = node_views(done@);
        let res = lower_invert_filters(&mut c);
        done.push(c);
        assert(node_views(done@) =~= done0.push(node_view(c)));
        assert(node_views(done@) + node_views(kids@) =~= lower_kids(n0.children, i + 1).0) by {
            assert(node_views(orig.skip(i as int)) =~= seq![node_view(orig[i as int])] + node_views(orig.skip(i + 1)));
            assert(done0 + node_views(orig.skip(i as int)) == lower_kids(n0.children, i as int).0);
        }
        if let Err(m) = res {
            let ghost d = node_views(done@);
            let ghost rest = node_views(kids@);
            done.append(&mut kids);
            assert(node_views(done@) =~= d + rest);
            node.children = done;
            proof {
                assert(node_view(*node).children =~= node_views(node.children@));
                lemma_lower_stops(n0.children, i as int + 1);
            }
            return Err(m);
        }
        i += 1;
    }
    assert(kids@ =~= Seq::<Node>::empty());
    assert(node_views(done@) =~= lower_kids(n0.children, total as int).0);
    let ghost mid = node_views(done@);
    let (out, err) = convert_all(done);
    node.children = out;
    proof {
        assert(node_view(*node).children =~= node_views(node.children@));
    }
    match err {
        Some(m) => Err(m),
        None => Ok(()),
    }
}

fn convert_all(items: Vec<Node>) -> (r: (Vec<Node>, Option<String>))
    ensures
        node_views(r.0@) == convert_kids(node_views(items@), items@.len() as int).0,
        match convert_kids(node_views(items@), items@.len() as int).1 {
            Some(m) => r.1 matches Some(x) && x@ == m,
            None => r.1 is None,
        },
{
    let ghost mid = node_views(items@);
    let total = items.len();
    let mut done = items;
    let mut out: Vec<Node> = Vec::new();
    let mut j: usize = 0;
    while j < total
        invariant
            mid.len() == total,
            mid == node_views(items@),
            total == items@.len(),
            j <= total,
            node_views(out@) + node_views(done@) == convert_kids(mid, j as int).0,
            convert_kids(mid, j as int).1 is None,
            done@.len() == total - j,
            node_views(done@) == mid.skip(j as int),
        decreases total - j,
    {
        proof {
            lemma_kids_prefix(mid, j as int);
        }
        let c = done.remove(0);
        let ghost o0 = node_views(out@);
        assert(node_view(c) == mid[j as int]);
        match convert(c) {
            Ok(x) => {
                out.push(x);
                assert(node_views(out@) =~= o0.push(node_view(x)));
                assert(node_views(out@) + node_views(done@) =~= convert_kids(mid, j + 1).0) by {
                    assert(node_views(done@) =~= mid.skip(j + 1));
                }
            },
            Err((x, m)) => {
                out.push(x);
                let ghost d = node_views(out@);
                let ghost rest = node_views(done@);
                out.append(&mut done);
                assert(node_views(out@) =~= d + rest);
                assert(node_views(out@) =~= convert_kids(mid, j + 1).0) by {
                    assert(rest =~= mid.skip(j + 1));
                    assert(d =~= o0.push(mid[j as int]));
                }
                proof {
                    lemma_convert_stops(mid, j as int + 1);
                }
                return (out, Some(m));
            },
        }
        assert(node_views(done@) =~= mid.skip(j + 1));
        j += 1;
    }
    assert(node_views(out@) =~= convert_kids(mid, total as int).0);
    (out, None)
}

proof fn lemma_lower_stops(cs: Seq<NodeV>, k: int)
    requires
        0 <= k <= cs.len(),
        lower_kids(cs, k).1 is Some,
    ensures
        lower_kids(cs, cs.len() as int) == lower_kids(cs, k),
    decreases cs.len() - k,
{
    if k < cs.len() {
        lemma_lower_stops(cs, k + 1);
    }
}

proof fn lemma_convert_stops(cs: Seq<NodeV>, k: int)
    requires
        0 <= k <= cs.len(),
        convert_kids(cs, k).1 is Some,
    ensures
        convert_kids(cs, cs.len() as int) == convert_kids(cs, k),
    decreases cs.len() - k,
{
    if k < cs.len() {
        lemma_convert_stops(cs, k + 1);
    }
}

proof fn lemma_lowered_free(n: NodeV)
    requires
        lowered(n).1 is None,
    ensures
        lowered(n).0.tag == n.tag,
        forall|i: int| 0 <= i < lowered(n).0.children.len()
            ==> free_of(#[trigger] lowered(n).0.children[i], "feComponentTransfer"@),
    decreases n, 0int,
{
    let len = n.children.len() as int;
    let (kids, e) = lower_kids(n.children, len);
    if e is Some {
        return;
    }
    lemma_lower_kids_free(n.children, len);
    lemma_kids_prefix(n.children, len);
    lemma_kids_prefix(kids, kids.len() as int);
    lemma_convert_kids_free(kids, kids.len() as int);
}

proof fn lemma_lower_kids_free(cs: Seq<NodeV>, k: int)
    requires
        0 <= k <= cs.len(),
        lower_kids(cs, k).1 is None,
    ensures
        forall|j: int| 0 <= j < k ==> {
            let c = #[trigger] lower_kids(cs, k).0[j];
            &&& forall|i: int| 0 <= i < c.children.len() ==> free_of(#[trigger] c.children[i], "feComponentTransfer"@)
        },
    decreases cs, k,
{
    if k > 0 {
        let (s, e) = lower_kids(cs, k - 1);
        lemma_lower_kids_free(cs, k - 1);
        lemma_kids_prefix(cs, k - 1);
        lemma_lowered_free(cs[k - 1]);
        assert forall|j: int| 0 <= j < k implies {
            let c = #[trigger] lower_kids(cs, k).0[j];
            &&& forall|i: int| 0 <= i < c.children.len() ==> free_of(#[trigger] c.children[i], "feComponentTransfer"@)
        } by {
            if j < k - 1 {
                assert(lower_kids(cs, k).0[j] == s[j]);
            }
        }
    }
}

proof fn lemma_convert_kids_free(cs: Seq<NodeV>, k: int)
    requires
        0 <= k <= cs.len(),
        convert_kids(cs, k).1 is None,
        forall|j: int| 0 <= j < cs.len() ==> {
            let c = #[trigger] cs[j];
            &&& forall|i: int| 0 <= i < c.children.len() ==> free_of(#[trigger] c.children[i], "feComponentTransfer"@)
        },
    ensures
        forall|j: int| 0 <= j < k ==> free_of(#[trigger] convert_kids(cs, k).0[j], "feComponentTransfer"@),
    decreases k,
{
    if k > 0 {
        let (s, e) = convert_kids(cs, k - 1);
        lemma_convert_kids_free(cs, k - 1);
        lemma_kids_prefix(cs, k - 1);
        let c = cs[k - 1];
        assert(forall|i: int| 0 <= i < c.children.len() ==> free_of(#[trigger] c.children[i], "feComponentTransfer"@));
        if let Ok(d) = converted(c) {
            if c.tag == "feComponentTransfer"@ {
                reveal_strlit("feColorMatrix");
                reveal_strlit("feComponentTransfer");
                assert("feColorMatrix"@[4] != "feComponentTransfer"@[4]);
                assert(d.children.len() == 0);
            }
            assert(free_of(d, "feComponentTransfer"@));
        }
        assert forall|j: int| 0 <= j < k implies free_of(#[trigger] convert_kids(cs, k).0[j], "feComponentTransfer"@) by {
            if j < k - 1 {
                assert(convert_kids(cs, k).0[j] == s[j]);
            }
        }
    }
}

/// A lowering that succeeds leaves no `<feComponentTransfer>` anywhere below
/// the node: react-native-svg stubs that element out.
pub proof fn lemma_lowering_leaves_no_transfer(n: NodeV)
    requires
        lowered(n).1 is None,
    ensures
        forall|i: int| 0 <= i < lowered(n).0.children.len()
            ==> free_of(#[trigger] lowered(n).0.children[i], "feComponentTransfer"@),
{
    lemma_lowered_free(n);
}

// ---------------------------------------------------------------------------
// Flattening nested <svg> elements
// ---------------------------------------------------------------------------

/// A nested svg's attributes read up to `k`: its width, its height, the ones a
/// `<g>` carries identically, and the refusal if one has no `<g>` equivalent.
pub open spec fn svg_attrs(attrs: Seq<(Seq<char>, Seq<char>)>, k: int) -> (
    Option<Seq<char>>,
    Option<Seq<char>>,
    Seq<(Seq<char>, Seq<char>)>,
    Option<Seq<char>>,
)
    decreases k,
{
    if k <= 0 || k > attrs.len() {
        (None, None, seq![], None)
    } else {
        let (w, h, kept, e) = svg_attrs(attrs, k - 1);
        if e is Some {
            (w, h, kept, e)
        } else {
            let (key, v) = attrs[k - 1];
            if key == "width"@ {
                (Some(v), h, kept, None)
            } else if key == "height"@ {
                (w, Some(v), kept, None)
            } else if key == "opacity"@ || key == "display"@ || key == "style"@ || key == "clip-path"@ {
                (w, h, kept.push((key, v)), None)
            } else {
                (w, h, kept, Some("nested <svg> attribute `"@ + key + "` has no <g> equivalent in the reanimated-aot target"@))
            }
        }
    }
}

/// The first viewport clip of this size, if one was made already.
pub open spec fn clip_from(clips: Seq<(Seq<char>, Seq<char>)>, pair: (Seq<char>, Seq<char>), i: int) -> Option<int>
    decreases clips.len() - i,
{
    if i < 0 || i >= clips.len() {
        None
    } else if clips[i] == pair {
        Some(i)
    } else {
        clip_from(clips, pair, i + 1)
    }
}

/// Whether some attribute is named `key`.
pub open spec fn has_key(attrs: Seq<(Seq<char>, Seq<char>)>, key: Seq<char>) -> bool {
    exists|i: int| 0 <= i < attrs.len() && (#[trigger] attrs[i]).0 == key
}

/// The `clip-path` that applies viewport clip `idx`.
pub open spec fn viewport_clip(idx: int) -> (Seq<char>, Seq<char>) {
    ("clip-path"@, "url(#vp"@ + decimal(idx as nat) + ")"@)
}

/// A node after flattening, the viewport clips after it, and the error that
/// stopped it if one did.
pub open spec fn flattened(n: NodeV, root: bool, clips: Seq<(Seq<char>, Seq<char>)>) -> (
    NodeV,
    Seq<(Seq<char>, Seq<char>)>,
    Option<Seq<char>>,
)
    decreases n, 0int,
{
    if !root && n.tag == "svg"@ {
        let (w, h, kept, e) = svg_attrs(n.attrs, n.attrs.len() as int);
        if e is Some {
            (NodeV { attrs: seq![], ..n }, clips, e)
        } else if w is None || h is None {
            (NodeV { attrs: seq![], ..n }, clips, Some("nested <svg> without width/height"@))
        } else {
            let pair = (w->0, h->0);
            let (idx, clips2) = match clip_from(clips, pair, 0) {
                Some(i) => (i, clips),
                None => (clips.len() as int, clips.push(pair)),
            };
            let (kids, clips3, e3) = flatten_kids(n.children, clips2, n.children.len() as int);
            if has_key(kept, "clip-path"@) {
                // The precomp clip stays on the group; the viewport clip wraps
                // the children on a fresh, slotless inner group.
                (
                    NodeV {
                        tag: "g"@,
                        attrs: kept,
                        children: seq![NodeV { tag: "g"@, attrs: seq![viewport_clip(idx)], children: kids, slot: None }],
                        slot: n.slot,
                    },
                    clips3,
                    e3,
                )
            } else {
                (NodeV { tag: "g"@, attrs: kept.push(viewport_clip(idx)), children: kids, slot: n.slot }, clips3, e3)
            }
        }
    } else {
        let (kids, clips3, e3) = flatten_kids(n.children, clips, n.children.len() as int);
        (NodeV { children: kids, ..n }, clips3, e3)
    }
}

/// The children with the first `k` flattened in order, stopping at an error.
pub open spec fn flatten_kids(cs: Seq<NodeV>, clips: Seq<(Seq<char>, Seq<char>)>, k: int) -> (
    Seq<NodeV>,
    Seq<(Seq<char>, Seq<char>)>,
    Option<Seq<char>>,
)
    decreases cs, k,
{
    if k <= 0 || k > cs.len() {
        (cs, clips, None)
    } else {
        let (s, cl, e) = flatten_kids(cs, clips, k - 1);
        if e is Some {
            (s, cl, e)
        } else {
            let (c, cl2, e2) = flattened(cs[k - 1], false, cl);
            (s.update(k - 1, c), cl2, e2)
        }
    }
}

proof fn lemma_flatten_prefix(cs: Seq<NodeV>, clips: Seq<(Seq<char>, Seq<char>)>, k: int)
    requires
        0 <= k <= cs.len(),
    ensures
        flatten_kids(cs, clips, k).0.len() == cs.len(),
        forall|j: int| k <= j < cs.len() ==> flatten_kids(cs, clips, k).0[j] == cs[j],
    decreases k,
{
    if k > 0 {
        lemma_flatten_prefix(cs, clips, k - 1);
    }
}

proof fn lemma_flatten_stops(cs: Seq<NodeV>, clips: Seq<(Seq<char>, Seq<char>)>, k: int)
    requires
        0 <= k <= cs.len(),
        flatten_kids(cs, clips, k).2 is Some,
    ensures
        flatten_kids(cs, clips, cs.len() as int) == flatten_kids(cs, clips, k),
    decreases cs.len() - k,
{
    if k < cs.len() {
        lemma_flatten_stops(cs, clips, k + 1);
    }
}

/// The views of viewport clip sizes.
pub open spec fn clip_views(v: Seq<(String, String)>) -> Seq<(Seq<char>, Seq<char>)> {
    attr_views(v)
}

fn copy_string(s: &String) -> (r: String)
    ensures
        r@ == s@,
{
    s.clone()
}

fn flatten_children(kids: Vec<Node>, clips: &mut Vec<(String, String)>) -> (r: (Vec<Node>, Option<String>))
    ensures
        node_views(r.0@) == flatten_kids(node_views(kids@), clip_views(old(clips)@), kids@.len() as int).0,
        clip_views(final(clips)@) == flatten_kids(node_views(kids@), clip_views(old(clips)@), kids@.len() as int).1,
        match flatten_kids(node_views(kids@), clip_views(old(clips)@), kids@.len() as int).2 {
            Some(m) => r.1 matches Some(x) && x@ == m,
            None => r.1 is None,
        },
    decreases kids@, 0int,
{
    let ghost orig = kids@;
    let ghost cs = node_views(kids@);
    let ghost cl0 = clip_views(clips@);
    let total = kids.len();
    let mut rest = kids;
    let mut done: Vec<Node> = Vec::new();
    let mut i: usize = 0;
    while i < total
        invariant
            total == orig.len(),
            cs == node_views(orig),
            i <= total,
            rest@ == orig.skip(i as int),
            orig == kids@,
            cl0 == clip_views(old(clips)@),
            flatten_kids(cs, cl0, i as int).2 is None,
            node_views(done@) + node_views(rest@) == flatten_kids(cs, cl0, i as int).0,
            clip_views(clips@) == flatten_kids(cs, cl0, i as int).1,
        decreases total - i,
    {
        proof {
            lemma_flatten_prefix(cs, cl0, i as int);
        }
        let mut c = rest.remove(0);
        assert(c == orig[i as int]);
        assert(decreases_to!(orig => orig[i as int]));
        let ghost done0 = node_views(done@);
        let res = flatten_walk(&mut c, false, clips);
        done.push(c);
        assert(node_views(done@) =~= done0.push(node_view(c)));
        assert(node_views(done@) + node_views(rest@) =~= flatten_kids(cs, cl0, i + 1).0) by {
            assert(node_views(orig.skip(i as int)) =~= seq![node_view(orig[i as int])] + node_views(orig.skip(i + 1)));
        }
        if let Err(m) = res {
            let ghost d = node_views(done@);
            let ghost tail = node_views(rest@);
            done.append(&mut rest);
            assert(node_views(done@) =~= d + tail);
            proof {
                lemma_flatten_stops(cs, cl0, i as int + 1);
            }
            return (done, Some(m));
        }
        i += 1;
    }
    assert(rest@ =~= Seq::<Node>::empty());
    assert(node_views(done@) =~= flatten_kids(cs, cl0, total as int).0);
    (done, None)
}

fn flatten_walk(node: &mut Node, root: bool, clips: &mut Vec<(String, String)>) -> (r: Result<(), String>)
    ensures
        node_view(*final(node)) == flattened(node_view(*old(node)), root, clip_views(old(clips)@)).0,
        clip_views(final(clips)@) == flattened(node_view(*old(node)), root, clip_views(old(clips)@)).1,
        match flattened(node_view(*old(node)), root, clip_views(old(clips)@)).2 {
            Some(m) => r matches Err(x) && x@ == m,
            None => r is Ok,
        },
    decreases *old(node), 1int,
{
    let ghost n0 = node_view(*node);
    let ghost o = *node;
    let ghost cl0 = clip_views(clips@);
    let mut kids: Vec<Node> = Vec::new();
    std::mem::swap(&mut node.children, &mut kids);
    assert(node_views(kids@) =~= n0.children);
    assert(decreases_to!(o => o.children));
    assert(decreases_to!(o.children => o.children@));
    if root || !str_eq(node.tag.as_str(), "svg") {
        let (done, err) = flatten_children(kids, clips);
        node.children = done;
        proof {
            assert(node_view(*node).children =~= node_views(node.children@));
        }
        return match err {
            Some(m) => Err(m),
            None => Ok(()),
        };
    }
    let mut attrs: Vec<(String, String)> = Vec::new();
    std::mem::swap(&mut node.attrs, &mut attrs);
    let ghost a = attr_views(attrs@);
    assert(a == n0.attrs);
    let mut width: Option<String> = None;
    let mut height: Option<String> = None;
    let mut kept: Vec<(String, String)> = Vec::new();
    let mut i: usize = 0;
    while i < attrs.len()
        invariant
            a == attr_views(attrs@),
            a == n0.attrs,
            n0 == node_view(o),
            o == *old(node),
            cl0 == clip_views(old(clips)@),
            node_views(kids@) == n0.children,
            node.tag == o.tag,
            node.slot == o.slot,
            node.attrs@ == Seq::<(String, String)>::empty(),
            node.children@ == Seq::<Node>::empty(),
            cl0 == clip_views(clips@),
            !root && n0.tag == "svg"@,
            i <= attrs@.len(),
            svg_attrs(a, i as int) == (
                match width { Some(w) => Some(w@), None => None },
                match height { Some(h) => Some(h@), None => None },
                attr_views(kept@),
                None::<Seq<char>>,
            ),
        decreases attrs@.len() - i,
    {
        let k = &attrs[i].0;
        let v = copy_string(&attrs[i].1);
        assert(a[i as int] == (k@, v@));
        if str_eq(k.as_str(), "width") {
            width = Some(v);
        } else if str_eq(k.as_str(), "height") {
            height = Some(v);
        } else if str_eq(k.as_str(), "opacity") || str_eq(k.as_str(), "display") || str_eq(k.as_str(), "style")
            || str_eq(k.as_str(), "clip-path") {
            let ghost before = attr_views(kept@);
            kept.push((copy_string(k), v));
            assert(attr_views(kept@) =~= before.push((k@, v@)));
        } else {
            let mut m = String::new();
            push_str(&mut m, "nested <svg> attribute `");
            push_str(&mut m, k.as_str());
            push_str(&mut m, "` has no <g> equivalent in the reanimated-aot target");
            node.children = kids;
            proof {
                lemma_svg_attrs_stops(a, i as int + 1);
                assert(node_view(*node).children =~= n0.children);
                assert(node_view(*node).attrs =~= Seq::<(Seq<char>, Seq<char>)>::empty());
            }
            return Err(m);
        }
        i += 1;
    }
    let (w, h) = match (width, height) {
        (Some(w), Some(h)) => (w, h),
        _ => {
            node.children = kids;
            proof {
                assert(node_view(*node).children =~= n0.children);
                assert(node_view(*node).attrs =~= Seq::<(Seq<char>, Seq<char>)>::empty());
            }
            let mut m = String::new();
            push_str(&mut m, "nested <svg> without width/height");
            return Err(m);
        },
    };
    let ghost pair = (w@, h@);
    let mut idx: usize = 0;
    let mut found = false;
    while idx < clips.len()
        invariant_except_break
            !found,
        invariant
            idx <= clips@.len(),
            pair == (w@, h@),
            clip_views(clips@) == cl0,
            o == *old(node),
            cl0 == clip_views(old(clips)@),
            n0 == node_view(o),
            node_views(kids@) == n0.children,
            node.tag == o.tag,
            node.slot == o.slot,
            node.attrs@ == Seq::<(String, String)>::empty(),
            node.children@ == Seq::<Node>::empty(),
            !root && n0.tag == "svg"@,
            svg_attrs(n0.attrs, n0.attrs.len() as int) == (Some(w@), Some(h@), attr_views(kept@), None::<Seq<char>>),
            clip_from(cl0, pair, 0) == clip_from(cl0, pair, idx as int),
        ensures
            found ==> idx < clips@.len() && clip_from(cl0, pair, 0) == Some(idx as int),
            !found ==> idx == clips@.len() && clip_from(cl0, pair, 0) is None,
            clip_views(clips@) == cl0,
            o == *old(node),
            cl0 == clip_views(old(clips)@),
            n0 == node_view(o),
            node_views(kids@) == n0.children,
            node.tag == o.tag,
            node.slot == o.slot,
            node.attrs@ == Seq::<(String, String)>::empty(),
            node.children@ == Seq::<Node>::empty(),
            !root && n0.tag == "svg"@,
            svg_attrs(n0.attrs, n0.attrs.len() as int) == (Some(w@), Some(h@), attr_views(kept@), None::<Seq<char>>),
            pair == (w@, h@),
        decreases clips@.len() - idx,
    {
        assert(clip_views(clips@)[idx as int] == (clips@[idx as int].0@, clips@[idx as int].1@));
        if str_eq(clips[idx].0.as_str(), w.as_str()) && str_eq(clips[idx].1.as_str(), h.as_str()) {
            assert(cl0[idx as int] == pair);
            found = true;
            break;
        }
        idx += 1;
    }
    if !found {
        let ghost before = clip_views(clips@);
        clips.push((copy_string(&w), copy_string(&h)));
        assert(clip_views(clips@) =~= before.push(pair));
    }
    assert(clip_views(clips@) == (match clip_from(cl0, pair, 0) {
        Some(_) => cl0,
        None => cl0.push(pair),
    }));
    assert(idx as int == (match clip_from(cl0, pair, 0) {
        Some(i) => i,
        None => cl0.len() as int,
    }));
    assert(svg_attrs(n0.attrs, n0.attrs.len() as int) == (Some(w@), Some(h@), attr_views(kept@), None::<Seq<char>>));
    let mut tag = String::new();
    push_str(&mut tag, "g");
    node.tag = tag;
    let mut vp_value = String::new();
    push_str(&mut vp_value, "url(#vp");
    let d = decimal_string(idx as u64);
    push_str(&mut vp_value, d.as_str());
    push_str(&mut vp_value, ")");
    let mut vp_key = String::new();
    push_str(&mut vp_key, "clip-path");
    let ghost vp = viewport_clip(idx as int);
    assert((vp_key@, vp_value@) == vp);
    let mut has_clip = false;
    let mut j: usize = 0;
    while j < kept.len()
        invariant
            j <= kept@.len(),
            o == *old(node),
            cl0 == clip_views(old(clips)@),
            n0 == node_view(o),
            node_views(kids@) == n0.children,
            node.slot == o.slot,
            node.tag@ == "g"@,
            node.attrs@ == Seq::<(String, String)>::empty(),
            node.children@ == Seq::<Node>::empty(),
            !root && n0.tag == "svg"@,
            svg_attrs(n0.attrs, n0.attrs.len() as int) == (Some(w@), Some(h@), attr_views(kept@), None::<Seq<char>>),
            clip_views(clips@) == (match clip_from(cl0, pair, 0) {
                Some(_) => cl0,
                None => cl0.push(pair),
            }),
            (vp_key@, vp_value@) == viewport_clip(match clip_from(cl0, pair, 0) {
                Some(i) => i,
                None => cl0.len() as int,
            }),
            pair == (w@, h@),
            has_clip == exists|x: int| 0 <= x < j && (#[trigger] attr_views(kept@)[x]).0 == "clip-path"@,
        decreases kept@.len() - j,
    {
        if str_eq(kept[j].0.as_str(), "clip-path") {
            assert(attr_views(kept@)[j as int].0 == "clip-path"@);
            has_clip = true;
        }
        j += 1;
    }
    assert(has_clip == has_key(attr_views(kept@), "clip-path"@));
    let (done, err) = flatten_children(kids, clips);
    if has_clip {
        let mut inner_attrs: Vec<(String, String)> = Vec::new();
        inner_attrs.push((vp_key, vp_value));
        let mut inner_tag = String::new();
        push_str(&mut inner_tag, "g");
        let inner = Node { tag: inner_tag, attrs: inner_attrs, children: done, slot: None };
        let mut wrap: Vec<Node> = Vec::new();
        wrap.push(inner);
        node.children = wrap;
        node.attrs = kept;
        proof {
            assert(attr_views(inner.attrs@) =~= seq![vp]);
            assert(node_view(inner).children =~= node_views(done@));
            assert(node_view(*node).children =~= seq![node_view(inner)]);
        }
    } else {
        let ghost before = attr_views(kept@);
        kept.push((vp_key, vp_value));
        assert(attr_views(kept@) =~= before.push(vp));
        node.children = done;
        node.attrs = kept;
        proof {
            assert(node_view(*node).children =~= node_views(node.children@));
        }
    }
    match err {
        Some(m) => Err(m),
        None => Ok(()),
    }
}

proof fn lemma_svg_attrs_stops(a: Seq<(Seq<char>, Seq<char>)>, k: int)
    requires
        0 <= k <= a.len(),
        svg_attrs(a, k).3 is Some,
    ensures
        svg_attrs(a, a.len() as int) == svg_attrs(a, k),
    decreases a.len() - k,
{
    if k < a.len() {
        lemma_svg_attrs_stops(a, k + 1);
    }
}

/// The `<clipPath>` for viewport clip `i`: a rect of the viewport's size.
pub open spec fn clip_def(i: int, size: (Seq<char>, Seq<char>)) -> NodeV {
    NodeV {
        tag: "clipPath"@,
        attrs: seq![("id"@, "vp"@ + decimal(i as nat))],
        children: seq![NodeV { tag: "rect"@, attrs: seq![("width"@, size.0), ("height"@, size.1)], children: seq![], slot: None }],
        slot: None,
    }
}

/// The tree after flattening, and the error that stopped it if one did.
pub open spec fn spec_flatten_nested_svgs(n: NodeV) -> (NodeV, Option<Seq<char>>) {
    let (n1, clips, e) = flattened(n, true, seq![]);
    if e is Some || clips.len() == 0 {
        (n1, e)
    } else {
        let defs = NodeV {
            tag: "defs"@,
            attrs: seq![],
            children: Seq::new(clips.len(), |i: int| clip_def(i, clips[i])),
            slot: None,
        };
        (NodeV { children: seq![defs] + n1.children, ..n1 }, None)
    }
}

/// Whether no element of the subtree carries `tag`.
pub open spec fn free_of(n: NodeV, tag: Seq<char>) -> bool
    decreases n,
{
    n.tag != tag && forall|i: int| 0 <= i < n.children.len() ==> free_of(#[trigger] n.children[i], tag)
}

proof fn lemma_flattened_free(n: NodeV, root: bool, clips: Seq<(Seq<char>, Seq<char>)>)
    requires
        flattened(n, root, clips).2 is None,
    ensures
        root || flattened(n, root, clips).0.tag != "svg"@,
        forall|i: int| 0 <= i < flattened(n, root, clips).0.children.len()
            ==> free_of(#[trigger] flattened(n, root, clips).0.children[i], "svg"@),
    decreases n, 0int,
{
    let r = flattened(n, root, clips).0;
    if !root && n.tag == "svg"@ {
        let (w, h, kept, e) = svg_attrs(n.attrs, n.attrs.len() as int);
        let pair = (w->0, h->0);
        let (idx, clips2) = match clip_from(clips, pair, 0) {
            Some(i) => (i, clips),
            None => (clips.len() as int, clips.push(pair)),
        };
        lemma_flatten_kids_free(n.children, clips2, n.children.len() as int);
        lemma_flatten_prefix(n.children, clips2, n.children.len() as int);
        reveal_strlit("g");
        reveal_strlit("svg");
        assert("g"@[0] != "svg"@[0]);
        if has_key(kept, "clip-path"@) {
            let inner = r.children[0];
            assert forall|i: int| 0 <= i < inner.children.len() implies free_of(#[trigger] inner.children[i], "svg"@) by {}
            assert(free_of(inner, "svg"@));
        }
    } else {
        lemma_flatten_kids_free(n.children, clips, n.children.len() as int);
        lemma_flatten_prefix(n.children, clips, n.children.len() as int);
    }
}

proof fn lemma_flatten_kids_free(cs: Seq<NodeV>, clips: Seq<(Seq<char>, Seq<char>)>, k: int)
    requires
        0 <= k <= cs.len(),
        flatten_kids(cs, clips, k).2 is None,
    ensures
        forall|j: int| 0 <= j < k ==> free_of(#[trigger] flatten_kids(cs, clips, k).0[j], "svg"@),
    decreases cs, k,
{
    if k > 0 {
        let (s, cl, e) = flatten_kids(cs, clips, k - 1);
        lemma_flatten_kids_free(cs, clips, k - 1);
        lemma_flatten_prefix(cs, clips, k - 1);
        let (c, cl2, e2) = flattened(cs[k - 1], false, cl);
        lemma_flattened_free(cs[k - 1], false, cl);
        assert(free_of(c, "svg"@));
        assert forall|j: int| 0 <= j < k implies free_of(#[trigger] flatten_kids(cs, clips, k).0[j], "svg"@) by {
            if j < k - 1 {
                assert(flatten_kids(cs, clips, k).0[j] == s[j]);
            }
        }
    }
}

/// A flattening that succeeds leaves no `<svg>` anywhere below the root:
/// react-native-svg then mounts exactly one native view.
pub proof fn lemma_flatten_leaves_one_svg(n: NodeV)
    requires
        spec_flatten_nested_svgs(n).1 is None,
    ensures
        forall|i: int| 0 <= i < spec_flatten_nested_svgs(n).0.children.len()
            ==> free_of(#[trigger] spec_flatten_nested_svgs(n).0.children[i], "svg"@),
{
    let (n1, clips, e) = flattened(n, true, seq![]);
    lemma_flattened_free(n, true, seq![]);
    if clips.len() > 0 {
        let r = spec_flatten_nested_svgs(n).0;
        reveal_strlit("defs");
        reveal_strlit("clipPath");
        reveal_strlit("rect");
        reveal_strlit("svg");
        assert("defs"@[0] != "svg"@[0]);
        assert("clipPath"@[0] != "svg"@[0]);
        assert("rect"@[0] != "svg"@[0]);
        let defs = r.children[0];
        assert forall|i: int| 0 <= i < defs.children.len() implies free_of(#[trigger] defs.children[i], "svg"@) by {
            let d = defs.children[i];
            assert(d == clip_def(i, clips[i]));
            assert forall|j: int| 0 <= j < d.children.len() implies free_of(#[trigger] d.children[j], "svg"@) by {
                assert(d.children[j].children.len() == 0);
            }
        }
        assert(free_of(defs, "svg"@));
        assert forall|i: int| 0 <= i < r.children.len() implies free_of(#[trigger] r.children[i], "svg"@) by {
            if i > 0 {
                assert(r.children[i] == n1.children[i - 1]);
            }
        }
    }
}

/// Flatten every nested `<svg>` into a viewport-clipped `<g>`.
///
/// react-native-svg mounts a native view for *every* `<Svg>`, which breaks
/// references (each view keeps its own registry) and masks (offscreen buffers
/// sized from the nested view's rect). A `<g clip-path>` with a viewport-sized
/// `<rect>` is exactly what the nested svg contributed visually, and it leaves
/// one native view whose single registry resolves every reference. The clip
/// definitions go first under the root, one per distinct viewport size. Runs
/// after [`assign_slots`], so a `<g>` keeps its svg's slot.
pub fn flatten_nested_svgs(root: &mut Node) -> (r: Result<(), String>)
    ensures
        node_view(*final(root)) == spec_flatten_nested_svgs(node_view(*old(root))).0,
        match spec_flatten_nested_svgs(node_view(*old(root))).1 {
            Some(m) => r matches Err(x) && x@ == m,
            None => r is Ok,
        },
{
    let mut clips: Vec<(String, String)> = Vec::new();
    assert(clip_views(clips@) =~= Seq::<(Seq<char>, Seq<char>)>::empty());
    let res = flatten_walk(root, true, &mut clips);
    if let Err(m) = res {
        return Err(m);
    }
    if clips.len() == 0 {
        return Ok(());
    }
    let ghost cl = clip_views(clips@);
    let ghost n1 = node_view(*root);
    let mut defs_kids: Vec<Node> = Vec::new();
    let mut i: usize = 0;
    while i < clips.len()
        invariant
            cl == clip_views(clips@),
            n1 == node_view(*root),
            i <= clips@.len(),
            node_views(defs_kids@) == Seq::new(i as nat, |k: int| clip_def(k, cl[k])),
        decreases clips@.len() - i,
    {
        let mut rect_attrs: Vec<(String, String)> = Vec::new();
        let mut wk = String::new();
        push_str(&mut wk, "width");
        let mut hk = String::new();
        push_str(&mut hk, "height");
        rect_attrs.push((wk, copy_string(&clips[i].0)));
        rect_attrs.push((hk, copy_string(&clips[i].1)));
        let mut rect_tag = String::new();
        push_str(&mut rect_tag, "rect");
        let rect = Node { tag: rect_tag, attrs: rect_attrs, children: Vec::new(), slot: None };
        let mut id = String::new();
        push_str(&mut id, "vp");
        let d = decimal_string(i as u64);
        push_str(&mut id, d.as_str());
        let mut ik = String::new();
        push_str(&mut ik, "id");
        let mut cp_attrs: Vec<(String, String)> = Vec::new();
        cp_attrs.push((ik, id));
        let mut cp_kids: Vec<Node> = Vec::new();
        cp_kids.push(rect);
        let mut cp_tag = String::new();
        push_str(&mut cp_tag, "clipPath");
        let cp = Node { tag: cp_tag, attrs: cp_attrs, children: cp_kids, slot: None };
        proof {
            assert(attr_views(rect.attrs@) =~= seq![("width"@, cl[i as int].0), ("height"@, cl[i as int].1)]);
            assert(node_view(rect).children =~= Seq::<NodeV>::empty());
            assert(attr_views(cp.attrs@) =~= seq![("id"@, "vp"@ + decimal(i as nat))]);
            assert(node_view(cp).children =~= seq![node_view(rect)]);
            assert(node_view(cp) == clip_def(i as int, cl[i as int]));
        }
        let ghost before = node_views(defs_kids@);
        defs_kids.push(cp);
        assert(node_views(defs_kids@) =~= Seq::new((i + 1) as nat, |k: int| clip_def(k, cl[k]))) by {
            assert(node_views(defs_kids@) =~= before.push(node_view(cp)));
        }
        i += 1;
    }
    let mut defs_tag = String::new();
    push_str(&mut defs_tag, "defs");
    let defs = Node { tag: defs_tag, attrs: Vec::new(), children: defs_kids, slot: None };
    let ghost before = node_views(root.children@);
    assert(n1.children =~= before);
    let ghost root_attrs = attr_views(root.attrs@);
    assert(n1.attrs == root_attrs);
    root.children.insert(0, defs);
    proof {
        assert(attr_views(defs.attrs@) =~= Seq::<(Seq<char>, Seq<char>)>::empty());
        assert(node_view(defs).children =~= node_views(defs_kids@));
        assert(node_views(root.children@) =~= seq![node_view(defs)] + before);
        assert(node_view(*root).children =~= node_views(root.children@));
        let defs_v = NodeV {
            tag: "defs"@,
            attrs: seq![],
            children: Seq::new(cl.len(), |i: int| clip_def(i, cl[i])),
            slot: None,
        };
        assert(node_view(defs) =~= defs_v);
        assert(node_view(*root).attrs == root_attrs);
        assert(node_view(*root) =~= NodeV { children: seq![defs_v] + n1.children, ..n1 });
    }
    Ok(())
}

} // verus!
