//! Lowering flattened markup to the display-list descriptor the Skia draw
//! walker reads.
//!
//! Grammar (all refs already resolved inline):
//!   group   { k: 0, s?, m?: [9 row-major], o?, hd?: 1, bm?, clip?, mask?,
//!             cf?, fx?, c: [..] }
//!   path    { k: 1, s?, m?, o?, hd?: 1, d: '..', eo?: 1, paint }
//!   rect    { k: 2, s?, m?, o?, hd?: 1, x, y, w, h, rx?, ry?, paint }
//!   ellipse { k: 3, s?, m?, o?, hd?: 1, cx, cy, rx, ry, paint }
//!   image   { k: 4, w, h, u: 'base64..' }
//!   clip    { r: [x, y, w, h] } | { d: '..', eo?: 1 }
//!   mask    { luma?: 1, c: [nodes] }
//!   cf      { m: [20 floats], r: [x, y, w, h] }   (matte inversion)
//!   fx      [stage, ..] — layer effects, innermost first; each stage a list
//!           of passes re-drawing the running content.
//!   paint   { f?, fo?, sc?, so?, sw?, cap?, join?, ml?, da?: [..], doff?, po?: 1 }
//! Slots on gradients, stops and filter primitives link the element handle to
//! a live record so the animated writes land.

use vstd::prelude::*;
use crate::backend::rn::{attr_views, node_view, markup_space, Node, NodeV};
use crate::backend::skia::{first_attr, attr};
use crate::text::{between, between_chars, chars_of, push_str, str_eq};
use crate::lines::views;

verus! {

broadcast use vstd::seq_lib::group_seq_properties;

// ---------------------------------------------------------------------------
// Referenced resources
// ---------------------------------------------------------------------------

/// Tags that define referenced resources: indexed by id up front, resolved
/// inline at their use sites, and never lowered as drawable content.
pub open spec fn def_tag(t: Seq<char>) -> bool {
    t == "defs"@ || t == "clipPath"@ || t == "mask"@ || t == "linearGradient"@ || t == "radialGradient"@
        || t == "filter"@
}

pub fn is_def_tag(t: &str) -> (r: bool)
    ensures
        r == def_tag(t@),
{
    str_eq(t, "defs") || str_eq(t, "clipPath") || str_eq(t, "mask") || str_eq(t, "linearGradient")
        || str_eq(t, "radialGradient") || str_eq(t, "filter")
}

/// Every resource definition in the subtree, by id, in document order.
pub open spec fn def_entries(n: NodeV) -> Seq<(Seq<char>, NodeV)>
    decreases n, 0int,
{
    (if def_tag(n.tag) && first_attr(n.attrs, "id"@, 0) is Some {
        seq![(first_attr(n.attrs, "id"@, 0)->0, n)]
    } else {
        seq![]
    }) + kids_entries(n.children, n.children.len() as int)
}

/// The definitions under the first `k` children, in document order.
pub open spec fn kids_entries(cs: Seq<NodeV>, k: int) -> Seq<(Seq<char>, NodeV)>
    decreases cs, k,
{
    if k <= 0 || k > cs.len() {
        seq![]
    } else {
        kids_entries(cs, k - 1) + def_entries(cs[k - 1])
    }
}

/// The view of an index of definitions.
pub open spec fn defs_view(d: Seq<(&str, &Node)>) -> Seq<(Seq<char>, NodeV)> {
    d.map_values(|p: (&str, &Node)| (p.0@, node_view(*p.1)))
}

/// Index every resource definition by id; a later definition of an id wins.
pub fn index_defs<'a>(n: &'a Node, out: &mut Vec<(&'a str, &'a Node)>)
    ensures
        defs_view(final(out)@) == defs_view(old(out)@) + def_entries(node_view(*n)),
    decreases n,
{
    let ghost nv = node_view(*n);
    let ghost start = defs_view(out@);
    if is_def_tag(n.tag.as_str()) {
        if let Some(id) = attr(n, "id") {
            let ghost o = defs_view(out@);
            out.push((id, n));
            assert(defs_view(out@) =~= o.push((id@, nv)));
        }
    }
    let ghost mid = defs_view(out@);
    assert(mid == start + (if def_tag(nv.tag) && first_attr(nv.attrs, "id"@, 0) is Some {
        seq![(first_attr(nv.attrs, "id"@, 0)->0, nv)]
    } else {
        seq![]
    }));
    let mut i: usize = 0;
    while i < n.children.len()
        invariant
            nv == node_view(*n),
            i <= n.children@.len(),
            defs_view(out@) == mid + kids_entries(nv.children, i as int),
        decreases n.children@.len() - i,
    {
        assert(decreases_to!(*n => n.children));
        assert(decreases_to!(n.children => n.children@));
        assert(decreases_to!(n.children@ => n.children@[i as int]));
        assert(nv.children[i as int] == node_view(n.children@[i as int]));
        index_defs(&n.children[i], out);
        i += 1;
    }
}

/// The last definition of `id` among the first `k` entries.
pub open spec fn last_def(defs: Seq<(Seq<char>, NodeV)>, id: Seq<char>, k: int) -> Option<NodeV>
    decreases k,
{
    if k <= 0 || k > defs.len() {
        None
    } else if defs[k - 1].0 == id {
        Some(defs[k - 1].1)
    } else {
        last_def(defs, id, k - 1)
    }
}

/// The definition a `url(#id)` value names, or why there is none.
pub open spec fn spec_lookup(defs: Seq<(Seq<char>, NodeV)>, v: Seq<char>, what: Seq<char>) -> Result<NodeV, Seq<char>> {
    match between(v, "url(#"@, ")"@) {
        None => Err("unsupported "@ + what + " value `"@ + v + "`"@),
        Some(id) => match last_def(defs, id, defs.len() as int) {
            Some(d) => Ok(d),
            None => Err("unresolved reference `"@ + v + "`"@),
        },
    }
}

// ---------------------------------------------------------------------------
// Messages and value helpers
// ---------------------------------------------------------------------------

/// The refusal for a construct this target has no lowering for.
pub open spec fn cannot(what: Seq<char>) -> Seq<char> {
    "the skia-aot target cannot lower <"@ + what + ">"@
}

/// `cannot` for an attribute of an element: `<tag key>`.
pub open spec fn cannot_attr(tag: Seq<char>, key: Seq<char>) -> Seq<char> {
    cannot(tag + " "@ + key)
}

fn cannot_msg(tag: &str, key: &str) -> (r: String)
    ensures
        r@ == cannot_attr(tag@, key@),
{
    let mut m = String::new();
    push_str(&mut m, "the skia-aot target cannot lower <");
    push_str(&mut m, tag);
    push_str(&mut m, " ");
    push_str(&mut m, key);
    push_str(&mut m, ">");
    m
}

fn msg3(a: &str, b: &str, c: &str) -> (r: String)
    ensures
        r@ == a@ + b@ + c@,
{
    let mut m = String::new();
    push_str(&mut m, a);
    push_str(&mut m, b);
    push_str(&mut m, c);
    m
}

/// What `num` refuses a value with.
pub open spec fn num_error(v: Seq<char>, what: Seq<char>) -> Seq<char> {
    "non-numeric `"@ + what + "` value `"@ + v + "` in the skia-aot target"@
}

/// `str::split_ascii_whitespace`, scanned: the words done and the one open.
pub open spec fn words_scan(s: Seq<char>) -> (Seq<Seq<char>>, Seq<char>)
    decreases s.len(),
{
    if s.len() == 0 {
        (seq![], seq![])
    } else {
        let (done, cur) = words_scan(s.drop_last());
        if markup_space(s.last()) {
            if cur.len() > 0 {
                (done.push(cur), seq![])
            } else {
                (done, cur)
            }
        } else {
            (done, cur.push(s.last()))
        }
    }
}

/// The words of `s` between runs of ASCII whitespace.
pub open spec fn words(s: Seq<char>) -> Seq<Seq<char>> {
    let (done, cur) = words_scan(s);
    if cur.len() > 0 {
        done.push(cur)
    } else {
        done
    }
}

fn words_of(v: &str) -> (r: Vec<Vec<char>>)
    ensures
        views(r@) == words(v@),
{
    let s = chars_of(v);
    let mut done: Vec<Vec<char>> = Vec::new();
    let mut cur: Vec<char> = Vec::new();
    let mut i: usize = 0;
    while i < s.len()
        invariant
            s@ == v@,
            i <= s@.len(),
            words_scan(s@.take(i as int)) == (views(done@), cur@),
        decreases s@.len() - i,
    {
        assert(s@.take(i + 1).drop_last() =~= s@.take(i as int));
        let c = s[i];
        if c == ' ' || c == '\t' || c == '\n' || c == '\x0C' || c == '\r' {
            if cur.len() > 0 {
                let ghost o = views(done@);
                done.push(cur);
                assert(views(done@) =~= o.push(done@.last()@));
                cur = Vec::new();
            }
        } else {
            cur.push(c);
        }
        i += 1;
    }
    assert(s@.take(s@.len() as int) =~= s@);
    if cur.len() > 0 {
        let ghost o = views(done@);
        done.push(cur);
        assert(views(done@) =~= o.push(done@.last()@));
    }
    done
}

/// The first of `ws` from `i` on that `str::parse::<f64>` refuses.
pub open spec fn first_non_number(ws: Seq<Seq<char>>, i: int) -> Option<int>
    decreases ws.len() - i,
{
    if i < 0 || i >= ws.len() {
        None
    } else if !crate::backend::skia::parses_as_float(ws[i]) {
        Some(i)
    } else {
        first_non_number(ws, i + 1)
    }
}

proof fn lemma_first_non_number(ws: Seq<Seq<char>>, i: int)
    ensures
        first_non_number(ws, i) matches Some(j) ==> i <= j < ws.len() && 0 <= j,
    decreases ws.len() - i,
{
    if 0 <= i < ws.len() {
        lemma_first_non_number(ws, i + 1);
    }
}

/// Check every word is a number: `None`, or the refusal for the first that
/// is not.
fn check_numbers(ws: &Vec<Vec<char>>, what: &str) -> (r: Option<String>)
    ensures
        match first_non_number(views(ws@), 0) {
            Some(i) => r matches Some(m) && m@ == num_error(ws@[i]@, what@),
            None => r is None,
        },
{
    let ghost wv = views(ws@);
    let mut i: usize = 0;
    while i < ws.len()
        invariant
            wv == views(ws@),
            i <= ws@.len(),
            first_non_number(wv, 0) == first_non_number(wv, i as int),
        decreases ws@.len() - i,
    {
        let w = crate::text::string_of(ws[i].as_slice());
        if let Err(m) = crate::backend::skia::num(w.as_str(), what) {
            return Some(m);
        }
        i += 1;
    }
    None
}

/// The words joined with `, `.
fn join_words(ws: &Vec<Vec<char>>) -> (r: String)
    ensures
        r@ == crate::text::joined(views(ws@), ", "@),
{
    let mut out = String::new();
    crate::text::push_joined_chars(&mut out, ws.as_slice(), ", ");
    out
}

// ---------------------------------------------------------------------------
// The lowering state
// ---------------------------------------------------------------------------

/// The resource index, the slots bindings write, and every slot stamped on a
/// lowered node so far — checked against the bound ones afterwards, so a
/// binding into a defs subtree fails loudly.
pub struct Lower<'a> {
    pub defs: &'a Vec<(&'a str, &'a Node)>,
    pub bound: &'a Vec<usize>,
    pub slots: Vec<usize>,
}

/// A node's own slot, as the list of slots it registers.
pub open spec fn own_slot(n: NodeV) -> Seq<usize> {
    match n.slot {
        Some(s) => seq![s],
        None => seq![],
    }
}

/// A filter primitive's slot when a binding targets it.
pub open spec fn prim(bound: Seq<usize>, n: NodeV) -> Option<usize> {
    match n.slot {
        Some(s) => if bound.contains(s) {
            Some(s)
        } else {
            None
        },
        None => None,
    }
}

/// Why a tag is not the one a chain expects.
pub open spec fn expected(want: Seq<char>, tag: Seq<char>) -> Seq<char> {
    "expected <"@ + want + ">, found <"@ + tag + ">"@
}

fn expected_msg(want: &str, tag: &str) -> (r: String)
    ensures
        r@ == expected(want@, tag@),
{
    let mut m = String::new();
    push_str(&mut m, "expected <");
    push_str(&mut m, want);
    push_str(&mut m, ">, found <");
    push_str(&mut m, tag);
    push_str(&mut m, ">");
    m
}

impl<'a> Lower<'a> {
    /// Whether a binding targets slot `s`.
    pub fn is_bound(&self, s: usize) -> (r: bool)
        ensures
            r == self.bound@.contains(s),
    {
        let mut i: usize = 0;
        while i < self.bound.len()
            invariant
                i <= self.bound@.len(),
                forall|j: int| 0 <= j < i ==> self.bound@[j] != s,
            decreases self.bound@.len() - i,
        {
            if self.bound[i] == s {
                assert(self.bound@[i as int] == s);
                return true;
            }
            i += 1;
        }
        false
    }

    /// Stamp a node's own slot as lowered.
    fn register(&mut self, n: &Node)
        ensures
            final(self).defs == old(self).defs,
            final(self).bound == old(self).bound,
            final(self).slots@ == old(self).slots@ + own_slot(node_view(*n)),
    {
        if let Some(s) = n.slot {
            self.slots.push(s);
        } else {
            assert(self.slots@ + own_slot(node_view(*n)) =~= self.slots@);
        }
    }

    /// The definition a `url(#id)` value names.
    pub fn lookup(&self, v: &str, what: &str) -> (r: Result<&'a Node, String>)
        ensures
            match spec_lookup(defs_view(self.defs@), v@, what@) {
                Ok(d) => r matches Ok(x) && node_view(*x) == d,
                Err(m) => r matches Err(x) && x@ == m,
            },
    {
        let s = chars_of(v);
        let id = match between_chars(s.as_slice(), "url(#", ")") {
            Some(id) => id,
            None => {
                let mut m = String::new();
                push_str(&mut m, "unsupported ");
                push_str(&mut m, what);
                push_str(&mut m, " value `");
                push_str(&mut m, v);
                push_str(&mut m, "`");
                return Err(m);
            },
        };
        let ghost dv = defs_view(self.defs@);
        assert(s@ == v@);
        assert(between(v@, "url(#"@, ")"@) == Some(id@));
        let mut k: usize = self.defs.len();
        while k > 0
            invariant
                dv == defs_view(self.defs@),
                between(v@, "url(#"@, ")"@) == Some(id@),
                k <= self.defs@.len(),
                last_def(dv, id@, self.defs@.len() as int) == last_def(dv, id@, k as int),
            decreases k,
        {
            let (name, node) = self.defs[k - 1];
            if crate::text::chars_eq(chars_of(name).as_slice(), id.as_slice()) {
                assert(dv.len() == self.defs@.len());
                assert(dv[k - 1] == (name@, node_view(*node)));
                assert(last_def(dv, id@, k as int) == Some(node_view(*node)));
                return Ok(node);
            }
            k -= 1;
        }
        let mut m = String::new();
        push_str(&mut m, "unresolved reference `");
        push_str(&mut m, v);
        push_str(&mut m, "`");
        Err(m)
    }

    /// Register a filter primitive's slot; give it back when a binding
    /// targets it.
    pub fn prim_slot(&mut self, n: &Node) -> (r: Option<usize>)
        ensures
            final(self).defs == old(self).defs,
            final(self).bound == old(self).bound,
            final(self).slots@ == old(self).slots@ + own_slot(node_view(*n)),
            r == prim(old(self).bound@, node_view(*n)),
    {
        self.register(n);
        match n.slot {
            Some(s) => if self.is_bound(s) {
                Some(s)
            } else {
                None
            },
            None => None,
        }
    }
}

// ---------------------------------------------------------------------------
// Filter primitives
// ---------------------------------------------------------------------------

/// A `<feColorMatrix>`'s attributes from `i` on: its values and its
/// color-interpolation-filters (the last of each wins), or the attribute it
/// cannot lower. `result` names are bookkeeping for the SVG chain and drop
/// away.
pub open spec fn matrix_attrs(
    a: Seq<(Seq<char>, Seq<char>)>,
    i: int,
    values: Option<Seq<char>>,
    cif: Option<Seq<char>>,
) -> Result<(Option<Seq<char>>, Option<Seq<char>>), Seq<char>>
    decreases a.len() - i,
{
    if i < 0 || i >= a.len() {
        Ok((values, cif))
    } else {
        let (k, v) = a[i];
        if k == "type"@ && v == "matrix"@ {
            matrix_attrs(a, i + 1, values, cif)
        } else if k == "color-interpolation-filters"@ {
            matrix_attrs(a, i + 1, values, Some(v))
        } else if k == "values"@ {
            matrix_attrs(a, i + 1, Some(v), cif)
        } else if k == "result"@ {
            matrix_attrs(a, i + 1, values, cif)
        } else {
            Err(cannot_attr("feColorMatrix"@, k))
        }
    }
}

/// One `<feColorMatrix type="matrix">`: its twenty values joined with `, `
/// and its color-interpolation-filters, or why it cannot lower.
pub open spec fn spec_fe_matrix(n: NodeV) -> Result<(Seq<char>, Option<Seq<char>>), Seq<char>> {
    if n.tag != "feColorMatrix"@ {
        Err(expected("feColorMatrix"@, n.tag))
    } else {
        match matrix_attrs(n.attrs, 0, None, None) {
            Err(m) => Err(m),
            Ok((None, _)) => Err("<feColorMatrix> without values"@),
            Ok((Some(v), cif)) => {
                let m = words(v);
                if m.len() != 20 {
                    Err("color matrix with "@ + crate::text::decimal(m.len()) + " values"@)
                } else {
                    match first_non_number(m, 0) {
                        Some(j) => Err(num_error(m[j], "values"@)),
                        None => Ok((crate::text::joined(m, ", "@), cif)),
                    }
                }
            },
        }
    }
}

/// An optional string's view.
pub open spec fn opt_view(o: Option<String>) -> Option<Seq<char>> {
    match o {
        Some(s) => Some(s@),
        None => None,
    }
}

fn copy_str(s: &str) -> (r: String)
    ensures
        r@ == s@,
{
    let mut out = String::new();
    push_str(&mut out, s);
    out
}

/// The slots the first `k` nodes register, in order.
pub open spec fn slots_of(cs: Seq<NodeV>, k: int) -> Seq<usize>
    decreases k,
{
    if k <= 0 || k > cs.len() {
        seq![]
    } else {
        slots_of(cs, k - 1) + own_slot(cs[k - 1])
    }
}

/// The first of `cs` from `i` on that is not a `<feMergeNode>`.
pub open spec fn first_not_merge_node(cs: Seq<NodeV>, i: int) -> Option<int>
    decreases cs.len() - i,
{
    if i < 0 || i >= cs.len() {
        None
    } else if cs[i].tag != "feMergeNode"@ {
        Some(i)
    } else {
        first_not_merge_node(cs, i + 1)
    }
}

/// A `<feMerge>` with exactly `n` `<feMergeNode>` inputs: the slots it
/// registers, or why it is not one.
pub open spec fn spec_fe_merge(fe: NodeV, n: nat) -> Result<Seq<usize>, Seq<char>> {
    if fe.tag != "feMerge"@ {
        Err(expected("feMerge"@, fe.tag))
    } else if fe.children.len() != n {
        Err("<feMerge> with "@ + crate::text::decimal(fe.children.len()) + " inputs where "@
            + crate::text::decimal(n) + " were expected"@)
    } else {
        match first_not_merge_node(fe.children, 0) {
            Some(j) => Err("unexpected <"@ + fe.children[j].tag + "> in <feMerge>"@),
            None => Ok(own_slot(fe) + slots_of(fe.children, fe.children.len() as int)),
        }
    }
}

impl<'a> Lower<'a> {
    /// One `<feColorMatrix type="matrix">`: its twenty values, validated and
    /// joined, and its color-interpolation-filters.
    fn fe_matrix(&mut self, fe: &Node) -> (r: Result<(String, Option<String>), String>)
        ensures
            final(self).defs == old(self).defs,
            final(self).bound == old(self).bound,
            match spec_fe_matrix(node_view(*fe)) {
                Ok((t, c)) => r matches Ok((x, y)) && x@ == t && opt_view(y) == c
                    && final(self).slots@ == old(self).slots@ + own_slot(node_view(*fe)),
                Err(m) => r matches Err(x) && x@ == m,
            },
    {
        let ghost nv = node_view(*fe);
        if !str_eq(fe.tag.as_str(), "feColorMatrix") {
            return Err(expected_msg("feColorMatrix", fe.tag.as_str()));
        }
        self.register(fe);
        let ghost av = attr_views(fe.attrs@);
        let mut values: Option<String> = None;
        let mut cif: Option<String> = None;
        let mut i: usize = 0;
        while i < fe.attrs.len()
            invariant
                av == attr_views(fe.attrs@),
                nv == node_view(*fe),
                self.defs == old(self).defs,
                self.bound == old(self).bound,
                self.slots@ == old(self).slots@ + own_slot(nv),
                nv.tag == "feColorMatrix"@,
                i <= fe.attrs@.len(),
                matrix_attrs(av, 0, None, None) == matrix_attrs(av, i as int, opt_view(values), opt_view(cif)),
            decreases fe.attrs@.len() - i,
        {
            let k = fe.attrs[i].0.as_str();
            let v = fe.attrs[i].1.as_str();
            if str_eq(k, "type") && str_eq(v, "matrix") {
            } else if str_eq(k, "color-interpolation-filters") {
                cif = Some(copy_str(v));
            } else if str_eq(k, "values") {
                values = Some(copy_str(v));
            } else if str_eq(k, "result") {
            } else {
                return Err(cannot_msg("feColorMatrix", k));
            }
            i += 1;
        }
        let values = match values {
            Some(v) => v,
            None => {
                return Err(copy_str("<feColorMatrix> without values"));
            },
        };
        let m = words_of(values.as_str());
        if m.len() != 20 {
            let mut msg = String::new();
            push_str(&mut msg, "color matrix with ");
            let d = crate::text::decimal_string(m.len() as u64);
            push_str(&mut msg, d.as_str());
            push_str(&mut msg, " values");
            return Err(msg);
        }
        assert(matrix_attrs(nv.attrs, 0, None, None) == Ok::<(Option<Seq<char>>, Option<Seq<char>>), Seq<char>>((Some(values@), opt_view(cif))));
        assert(views(m@) == words(values@));
        if let Some(e) = check_numbers(&m, "values") {
            proof {
                lemma_first_non_number(views(m@), 0);
            }
            return Err(e);
        }
        Ok((join_words(&m), cif))
    }

    /// A `<feMerge>` with exactly `n` `<feMergeNode>` children. The inputs it
    /// names are implied by the stage's pass order.
    fn fe_merge(&mut self, fe: &Node, n: usize) -> (r: Result<(), String>)
        ensures
            final(self).defs == old(self).defs,
            final(self).bound == old(self).bound,
            match spec_fe_merge(node_view(*fe), n as nat) {
                Ok(sl) => r is Ok && final(self).slots@ == old(self).slots@ + sl,
                Err(m) => r matches Err(x) && x@ == m,
            },
    {
        let ghost nv = node_view(*fe);
        if !str_eq(fe.tag.as_str(), "feMerge") {
            return Err(expected_msg("feMerge", fe.tag.as_str()));
        }
        let ghost s0 = self.slots@;
        self.register(fe);
        if fe.children.len() != n {
            let mut msg = String::new();
            push_str(&mut msg, "<feMerge> with ");
            let d = crate::text::decimal_string(fe.children.len() as u64);
            push_str(&mut msg, d.as_str());
            push_str(&mut msg, " inputs where ");
            let e = crate::text::decimal_string(n as u64);
            push_str(&mut msg, e.as_str());
            push_str(&mut msg, " were expected");
            return Err(msg);
        }
        let mut i: usize = 0;
        while i < fe.children.len()
            invariant
                nv == node_view(*fe),
                self.defs == old(self).defs,
                self.bound == old(self).bound,
                i <= fe.children@.len(),
                nv.children.len() == fe.children@.len(),
                fe.children@.len() == n,
                nv.tag == "feMerge"@,
                first_not_merge_node(nv.children, 0) == first_not_merge_node(nv.children, i as int),
                self.slots@ == s0 + own_slot(nv) + slots_of(nv.children, i as int),
            decreases fe.children@.len() - i,
        {
            assert(nv.children[i as int] == node_view(fe.children@[i as int]));
            let c = &fe.children[i];
            if !str_eq(c.tag.as_str(), "feMergeNode") {
                return Err(msg3("unexpected <", c.tag.as_str(), "> in <feMerge>"));
            }
            self.register(c);
            i += 1;
        }
        Ok(())
    }
}

/// `name: s` for a bound slot, or nothing.
pub open spec fn slot_part(name: Seq<char>, o: Option<usize>) -> Seq<Seq<char>> {
    match o {
        Some(s) => seq![entry(name, crate::text::decimal(s as nat))],
        None => seq![],
    }
}

/// `key: value`.
pub open spec fn entry(key: Seq<char>, v: Seq<char>) -> Seq<char> {
    key + ": "@ + v
}

fn entry_str(key: &str, v: &str) -> (r: String)
    ensures
        r@ == entry(key@, v@),
{
    msg3(key, ": ", v)
}

fn push_slot_part(parts: &mut Vec<String>, name: &str, o: Option<usize>)
    ensures
        crate::text::string_views(final(parts)@) == crate::text::string_views(old(parts)@) + slot_part(name@, o),
{
    let ghost before = crate::text::string_views(parts@);
    if let Some(s) = o {
        let d = crate::text::decimal_string(s as u64);
        parts.push(entry_str(name, d.as_str()));
        assert(crate::text::string_views(parts@) =~= before + slot_part(name@, o));
    } else {
        assert(crate::text::string_views(parts@) =~= before + slot_part(name@, o));
    }
}

/// The parts wrapped as one pass: `[{ a, b }]`.
pub open spec fn pass_of(parts: Seq<Seq<char>>) -> Seq<char> {
    "[{ "@ + crate::text::joined(parts, ", "@) + " }]"@
}

fn pass_str(parts: &Vec<String>) -> (r: String)
    ensures
        r@ == pass_of(crate::text::string_views(parts@)),
{
    let mut out = String::new();
    push_str(&mut out, "[{ ");
    crate::text::push_joined_strings(&mut out, parts.as_slice(), ", ");
    push_str(&mut out, " }]");
    out
}

/// A lone `<feGaussianBlur>`'s attributes from `i` on: the parts so far and
/// its tile mode, or the first refusal.
pub open spec fn blur_attrs(a: Seq<(Seq<char>, Seq<char>)>, i: int, parts: Seq<Seq<char>>, tm: Option<int>) -> Result<
    (Seq<Seq<char>>, Option<int>),
    Seq<char>,
>
    decreases a.len() - i,
{
    if i < 0 || i >= a.len() {
        Ok((parts, tm))
    } else {
        let (k, v) = a[i];
        if k == "result"@ {
            blur_attrs(a, i + 1, parts, tm)
        } else if k == "stdDeviation"@ {
            let p = crate::text::split_on(v, ' ');
            if p.len() != 2 {
                Err("stdDeviation `"@ + v + "` is not an x/y pair"@)
            } else if !crate::backend::skia::parses_as_float(p[0]) {
                Err(num_error(p[0], k))
            } else if !crate::backend::skia::parses_as_float(p[1]) {
                Err(num_error(p[1], k))
            } else {
                blur_attrs(a, i + 1, parts.push("sx: "@ + p[0] + ", sy: "@ + p[1]), tm)
            }
        } else if k == "edgeMode"@ {
            if v == "wrap"@ {
                blur_attrs(a, i + 1, parts, Some(1))
            } else if v == "duplicate"@ {
                blur_attrs(a, i + 1, parts, Some(0))
            } else {
                Err("unsupported edgeMode `"@ + v + "`"@)
            }
        } else {
            Err(cannot_attr("feGaussianBlur"@, k))
        }
    }
}

/// A lone `<feGaussianBlur>` as one blur pass; `edgeMode` maps to a Skia
/// tile mode: `wrap` → repeat (1), `duplicate` → clamp (0).
pub open spec fn spec_fe_blur(bound: Seq<usize>, fe: NodeV) -> Result<Seq<char>, Seq<char>> {
    match blur_attrs(fe.attrs, 0, seq!["bl: 1"@] + slot_part("s"@, prim(bound, fe)), None) {
        Err(m) => Err(m),
        Ok((_, None)) => Err("<feGaussianBlur> without edgeMode"@),
        Ok((parts, Some(t))) => Ok(pass_of(parts.push(entry("tm"@, crate::text::decimal(t as nat))))),
    }
}

/// The blur of a drop-shadow chain, from attribute `i` on.
pub open spec fn shadow_blur_attrs(a: Seq<(Seq<char>, Seq<char>)>, i: int, parts: Seq<Seq<char>>) -> Result<Seq<Seq<char>>, Seq<char>>
    decreases a.len() - i,
{
    if i < 0 || i >= a.len() {
        Ok(parts)
    } else {
        let (k, v) = a[i];
        if k == "in"@ || k == "result"@ {
            shadow_blur_attrs(a, i + 1, parts)
        } else if k == "stdDeviation"@ {
            if crate::backend::skia::parses_as_float(v) {
                shadow_blur_attrs(a, i + 1, parts.push(entry("sd"@, v)))
            } else {
                Err(num_error(v, k))
            }
        } else {
            Err(cannot_attr("feGaussianBlur"@, k))
        }
    }
}

/// The offset of a drop-shadow chain, from attribute `i` on.
pub open spec fn offset_attrs(a: Seq<(Seq<char>, Seq<char>)>, i: int, parts: Seq<Seq<char>>) -> Result<Seq<Seq<char>>, Seq<char>>
    decreases a.len() - i,
{
    if i < 0 || i >= a.len() {
        Ok(parts)
    } else {
        let (k, v) = a[i];
        if k == "in"@ || k == "result"@ {
            offset_attrs(a, i + 1, parts)
        } else if k == "dx"@ || k == "dy"@ {
            if crate::backend::skia::parses_as_float(v) {
                offset_attrs(a, i + 1, parts.push(entry(k, v)))
            } else {
                Err(num_error(v, k))
            }
        } else {
            Err(cannot_attr("feOffset"@, k))
        }
    }
}

/// The flood of a drop-shadow chain, from attribute `i` on: the parts and
/// its colour (the last wins).
pub open spec fn flood_attrs(a: Seq<(Seq<char>, Seq<char>)>, i: int, parts: Seq<Seq<char>>, color: Option<Seq<char>>) -> Result<
    (Seq<Seq<char>>, Option<Seq<char>>),
    Seq<char>,
>
    decreases a.len() - i,
{
    if i < 0 || i >= a.len() {
        Ok((parts, color))
    } else {
        let (k, v) = a[i];
        if k == "result"@ {
            flood_attrs(a, i + 1, parts, color)
        } else if k == "flood-color"@ {
            flood_attrs(a, i + 1, parts, Some(v))
        } else if k == "flood-opacity"@ {
            if crate::backend::skia::parses_as_float(v) {
                flood_attrs(a, i + 1, parts.push(entry("fo"@, v)), color)
            } else {
                Err(num_error(v, k))
            }
        } else {
            Err(cannot_attr("feFlood"@, k))
        }
    }
}

/// The composite of a drop-shadow chain, from attribute `i` on: the first
/// attribute it cannot lower.
pub open spec fn composite_attrs(a: Seq<(Seq<char>, Seq<char>)>, i: int) -> Option<Seq<char>>
    decreases a.len() - i,
{
    if i < 0 || i >= a.len() {
        None
    } else {
        let (k, v) = a[i];
        if k == "in"@ || k == "in2"@ || k == "result"@ || (k == "operator"@ && v == "in"@) {
            composite_attrs(a, i + 1)
        } else {
            Some(cannot_attr("feComposite"@, k))
        }
    }
}

/// The five-primitive drop-shadow chain as one shadow pass, and the slots it
/// registers. `sd`/`dx`/`dy`/`fo` are absent when the effect ops write them
/// (the primitive's slot rides as `sb`/`so`/`sf`).
#[verifier::opaque]
pub open spec fn spec_fe_shadow(bound: Seq<usize>, blur: NodeV, off: NodeV, flood: NodeV, comp: NodeV, merge: NodeV) -> Result<
    (Seq<char>, Seq<usize>),
    Seq<char>,
> {
    match shadow_blur_attrs(blur.attrs, 0, seq!["sh: 1"@] + slot_part("sb"@, prim(bound, blur))) {
        Err(m) => Err(m),
        Ok(p1) => if off.tag != "feOffset"@ {
            Err(expected("feOffset"@, off.tag))
        } else {
            match offset_attrs(off.attrs, 0, p1 + slot_part("so"@, prim(bound, off))) {
                Err(m) => Err(m),
                Ok(p2) => if flood.tag != "feFlood"@ {
                    Err(expected("feFlood"@, flood.tag))
                } else {
                    match flood_attrs(flood.attrs, 0, p2 + slot_part("sf"@, prim(bound, flood)), None) {
                        Err(m) => Err(m),
                        Ok((_, None)) => Err("<feFlood> without flood-color"@),
                        Ok((p3, Some(c))) => if comp.tag != "feComposite"@ {
                            Err(expected("feComposite"@, comp.tag))
                        } else {
                            match composite_attrs(comp.attrs, 0) {
                                Some(m) => Err(m),
                                None => match spec_fe_merge(merge, 2) {
                                    Err(m) => Err(m),
                                    Ok(ms) => Ok((
                                        pass_of(p3.push(entry("c"@, crate::backend::emit::spec_js_string(c)))),
                                        own_slot(blur) + own_slot(off) + own_slot(flood) + own_slot(comp) + ms,
                                    )),
                                },
                            }
                        },
                    }
                },
            }
        },
    }
}

impl<'a> Lower<'a> {
    /// A lone `<feGaussianBlur>` → one blur pass.
    fn fe_blur(&mut self, fe: &Node) -> (r: Result<String, String>)
        ensures
            final(self).defs == old(self).defs,
            final(self).bound == old(self).bound,
            match spec_fe_blur(old(self).bound@, node_view(*fe)) {
                Ok(t) => r matches Ok(x) && x@ == t && final(self).slots@ == old(self).slots@ + own_slot(node_view(*fe)),
                Err(m) => r matches Err(x) && x@ == m,
            },
    {
        let ghost nv = node_view(*fe);
        let mut parts: Vec<String> = Vec::new();
        parts.push(copy_str("bl: 1"));
        let o = self.prim_slot(fe);
        push_slot_part(&mut parts, "s", o);
        let ghost av = attr_views(fe.attrs@);
        let ghost start = crate::text::string_views(parts@);
        assert(start == seq!["bl: 1"@] + slot_part("s"@, prim(old(self).bound@, nv)));
        let mut tm: Option<u32> = None;
        let mut i: usize = 0;
        while i < fe.attrs.len()
            invariant
                av == attr_views(fe.attrs@),
                nv == node_view(*fe),
                self.defs == old(self).defs,
                self.bound == old(self).bound,
                self.slots@ == old(self).slots@ + own_slot(nv),
                i <= fe.attrs@.len(),
                tm matches Some(t) ==> t <= 1,
                start == seq!["bl: 1"@] + slot_part("s"@, prim(old(self).bound@, nv)),
                blur_attrs(av, 0, start, None) == blur_attrs(
                    av,
                    i as int,
                    crate::text::string_views(parts@),
                    match tm {
                        Some(t) => Some(t as int),
                        None => None,
                    },
                ),
            decreases fe.attrs@.len() - i,
        {
            let k = fe.attrs[i].0.as_str();
            let v = fe.attrs[i].1.as_str();
            if str_eq(k, "result") {
            } else if str_eq(k, "stdDeviation") {
                let p = crate::text::split_chars(chars_of(v).as_slice(), ' ');
                assert(views(p@) == crate::text::split_on(v@, ' ')) by {
                    assert(views(p@) =~= p@.map_values(|v: Vec<char>| v@));
                }
                if p.len() != 2 {
                    let mut m = String::new();
                    push_str(&mut m, "stdDeviation `");
                    push_str(&mut m, v);
                    push_str(&mut m, "` is not an x/y pair");
                    return Err(m);
                }
                let x = crate::text::string_of(p[0].as_slice());
                let y = crate::text::string_of(p[1].as_slice());
                assert(x@ == crate::text::split_on(v@, ' ')[0]) by {
                    assert(views(p@)[0] == p@[0]@);
                }
                assert(y@ == crate::text::split_on(v@, ' ')[1]) by {
                    assert(views(p@)[1] == p@[1]@);
                }
                if let Err(m) = crate::backend::skia::num(x.as_str(), k) {
                    return Err(m);
                }
                if let Err(m) = crate::backend::skia::num(y.as_str(), k) {
                    return Err(m);
                }
                let mut part = String::new();
                push_str(&mut part, "sx: ");
                push_str(&mut part, x.as_str());
                push_str(&mut part, ", sy: ");
                push_str(&mut part, y.as_str());
                let ghost o = crate::text::string_views(parts@);
                parts.push(part);
                assert(crate::text::string_views(parts@) =~= o.push(part@));
            } else if str_eq(k, "edgeMode") {
                if str_eq(v, "wrap") {
                    tm = Some(1);
                } else if str_eq(v, "duplicate") {
                    tm = Some(0);
                } else {
                    return Err(msg3("unsupported edgeMode `", v, "`"));
                }
            } else {
                return Err(cannot_msg("feGaussianBlur", k));
            }
            i += 1;
        }
        let t = match tm {
            Some(t) => t,
            None => {
                return Err(copy_str("<feGaussianBlur> without edgeMode"));
            },
        };
        let d = crate::text::decimal_string(t as u64);
        let ghost o = crate::text::string_views(parts@);
        parts.push(entry_str("tm", d.as_str()));
        assert(crate::text::string_views(parts@) =~= o.push(entry("tm"@, crate::text::decimal(t as nat))));
        Ok(pass_str(&parts))
    }
}

fn shadow_blur_parts(fe: &Node, parts: &mut Vec<String>) -> (r: Result<(), String>)
    ensures
        match shadow_blur_attrs(node_view(*fe).attrs, 0, crate::text::string_views(old(parts)@)) {
            Ok(p) => r is Ok && crate::text::string_views(final(parts)@) == p,
            Err(m) => r matches Err(x) && x@ == m,
        },
{
    let ghost av = attr_views(fe.attrs@);
    let ghost start = crate::text::string_views(parts@);
    assert(node_view(*fe).attrs == av);
    let mut i: usize = 0;
    while i < fe.attrs.len()
        invariant
            av == attr_views(fe.attrs@),
            node_view(*fe).attrs == av,
            start == crate::text::string_views(old(parts)@),
            i <= fe.attrs@.len(),
            shadow_blur_attrs(av, 0, start) == shadow_blur_attrs(av, i as int, crate::text::string_views(parts@)),
        decreases fe.attrs@.len() - i,
    {
        let k = fe.attrs[i].0.as_str();
        let v = fe.attrs[i].1.as_str();
        if str_eq(k, "in") || str_eq(k, "result") {
        } else if str_eq(k, "stdDeviation") {
            if let Err(m) = crate::backend::skia::num(v, k) {
                return Err(m);
            }
            let ghost o = crate::text::string_views(parts@);
            parts.push(entry_str("sd", v));
            assert(crate::text::string_views(parts@) =~= o.push(entry("sd"@, v@)));
        } else {
            return Err(cannot_msg("feGaussianBlur", k));
        }
        i += 1;
    }
    Ok(())
}

fn offset_parts(fe: &Node, parts: &mut Vec<String>) -> (r: Result<(), String>)
    ensures
        match offset_attrs(node_view(*fe).attrs, 0, crate::text::string_views(old(parts)@)) {
            Ok(p) => r is Ok && crate::text::string_views(final(parts)@) == p,
            Err(m) => r matches Err(x) && x@ == m,
        },
{
    let ghost av = attr_views(fe.attrs@);
    let ghost start = crate::text::string_views(parts@);
    assert(node_view(*fe).attrs == av);
    let mut i: usize = 0;
    while i < fe.attrs.len()
        invariant
            av == attr_views(fe.attrs@),
            node_view(*fe).attrs == av,
            start == crate::text::string_views(old(parts)@),
            i <= fe.attrs@.len(),
            offset_attrs(av, 0, start) == offset_attrs(av, i as int, crate::text::string_views(parts@)),
        decreases fe.attrs@.len() - i,
    {
        let k = fe.attrs[i].0.as_str();
        let v = fe.attrs[i].1.as_str();
        if str_eq(k, "in") || str_eq(k, "result") {
        } else if str_eq(k, "dx") || str_eq(k, "dy") {
            if let Err(m) = crate::backend::skia::num(v, k) {
                return Err(m);
            }
            let ghost o = crate::text::string_views(parts@);
            parts.push(entry_str(k, v));
            assert(crate::text::string_views(parts@) =~= o.push(entry(k@, v@)));
        } else {
            return Err(cannot_msg("feOffset", k));
        }
        i += 1;
    }
    Ok(())
}

fn flood_parts(fe: &Node, parts: &mut Vec<String>) -> (r: Result<Option<String>, String>)
    ensures
        match flood_attrs(node_view(*fe).attrs, 0, crate::text::string_views(old(parts)@), None) {
            Ok((p, c)) => r matches Ok(x) && opt_view(x) == c && crate::text::string_views(final(parts)@) == p,
            Err(m) => r matches Err(x) && x@ == m,
        },
{
    let ghost av = attr_views(fe.attrs@);
    let ghost start = crate::text::string_views(parts@);
    assert(node_view(*fe).attrs == av);
    let mut color: Option<String> = None;
    let mut i: usize = 0;
    while i < fe.attrs.len()
        invariant
            av == attr_views(fe.attrs@),
            node_view(*fe).attrs == av,
            start == crate::text::string_views(old(parts)@),
            i <= fe.attrs@.len(),
            flood_attrs(av, 0, start, None) == flood_attrs(av, i as int, crate::text::string_views(parts@), opt_view(color)),
        decreases fe.attrs@.len() - i,
    {
        let k = fe.attrs[i].0.as_str();
        let v = fe.attrs[i].1.as_str();
        if str_eq(k, "result") {
        } else if str_eq(k, "flood-color") {
            color = Some(copy_str(v));
        } else if str_eq(k, "flood-opacity") {
            if let Err(m) = crate::backend::skia::num(v, k) {
                return Err(m);
            }
            let ghost o = crate::text::string_views(parts@);
            parts.push(entry_str("fo", v));
            assert(crate::text::string_views(parts@) =~= o.push(entry("fo"@, v@)));
        } else {
            return Err(cannot_msg("feFlood", k));
        }
        i += 1;
    }
    Ok(color)
}

fn composite_check(fe: &Node) -> (r: Option<String>)
    ensures
        match composite_attrs(node_view(*fe).attrs, 0) {
            Some(m) => r matches Some(x) && x@ == m,
            None => r is None,
        },
{
    let ghost av = attr_views(fe.attrs@);
    assert(node_view(*fe).attrs == av);
    let mut i: usize = 0;
    while i < fe.attrs.len()
        invariant
            av == attr_views(fe.attrs@),
            node_view(*fe).attrs == av,
            i <= fe.attrs@.len(),
            composite_attrs(av, 0) == composite_attrs(av, i as int),
        decreases fe.attrs@.len() - i,
    {
        let k = fe.attrs[i].0.as_str();
        let v = fe.attrs[i].1.as_str();
        if str_eq(k, "in") || str_eq(k, "in2") || str_eq(k, "result") || (str_eq(k, "operator") && str_eq(v, "in")) {
        } else {
            return Some(cannot_msg("feComposite", k));
        }
        i += 1;
    }
    None
}

impl<'a> Lower<'a> {
    /// The five-primitive drop-shadow chain → one shadow pass.
    fn fe_shadow(&mut self, blur: &Node, off: &Node, flood: &Node, comp: &Node, merge: &Node) -> (r: Result<String, String>)
        ensures
            final(self).defs == old(self).defs,
            final(self).bound == old(self).bound,
            match spec_fe_shadow(
                old(self).bound@,
                node_view(*blur),
                node_view(*off),
                node_view(*flood),
                node_view(*comp),
                node_view(*merge),
            ) {
                Ok((t, sl)) => r matches Ok(x) && x@ == t && final(self).slots@ == old(self).slots@ + sl,
                Err(m) => r matches Err(x) && x@ == m,
            },
    {
        reveal(spec_fe_shadow);
        let ghost b = old(self).bound@;
        let ghost s0 = self.slots@;
        let mut parts: Vec<String> = Vec::new();
        parts.push(copy_str("sh: 1"));
        let o = self.prim_slot(blur);
        push_slot_part(&mut parts, "sb", o);
        assert(crate::text::string_views(parts@) =~= seq!["sh: 1"@] + slot_part("sb"@, prim(b, node_view(*blur))));
        if let Err(m) = shadow_blur_parts(blur, &mut parts) {
            return Err(m);
        }
        if !str_eq(off.tag.as_str(), "feOffset") {
            return Err(expected_msg("feOffset", off.tag.as_str()));
        }
        let o = self.prim_slot(off);
        push_slot_part(&mut parts, "so", o);
        if let Err(m) = offset_parts(off, &mut parts) {
            return Err(m);
        }
        if !str_eq(flood.tag.as_str(), "feFlood") {
            return Err(expected_msg("feFlood", flood.tag.as_str()));
        }
        let o = self.prim_slot(flood);
        push_slot_part(&mut parts, "sf", o);
        let color = match flood_parts(flood, &mut parts) {
            Err(m) => {
                return Err(m);
            },
            Ok(None) => {
                return Err(copy_str("<feFlood> without flood-color"));
            },
            Ok(Some(c)) => c,
        };
        let q = crate::backend::emit::js_string(color.as_str());
        let ghost pv = crate::text::string_views(parts@);
        parts.push(entry_str("c", q.as_str()));
        assert(crate::text::string_views(parts@) =~= pv.push(entry("c"@, crate::backend::emit::spec_js_string(color@))));
        if !str_eq(comp.tag.as_str(), "feComposite") {
            return Err(expected_msg("feComposite", comp.tag.as_str()));
        }
        self.register(comp);
        if let Some(m) = composite_check(comp) {
            return Err(m);
        }
        if let Err(m) = self.fe_merge(merge, 2) {
            return Err(m);
        }
        assert(self.slots@ =~= s0 + own_slot(node_view(*blur)) + own_slot(node_view(*off)) + own_slot(node_view(*flood))
            + own_slot(node_view(*comp)) + spec_fe_merge(node_view(*merge), 2)->Ok_0);
        Ok(pass_str(&parts))
    }
}

// ---------------------------------------------------------------------------
// Filters
// ---------------------------------------------------------------------------

/// A matte-inversion `<filter>`'s attributes from `i` on: its region (the
/// last of each wins), or the first refusal.
pub open spec fn region_attrs(
    a: Seq<(Seq<char>, Seq<char>)>,
    i: int,
    r: (Option<Seq<char>>, Option<Seq<char>>, Option<Seq<char>>, Option<Seq<char>>),
) -> Result<(Option<Seq<char>>, Option<Seq<char>>, Option<Seq<char>>, Option<Seq<char>>), Seq<char>>
    decreases a.len() - i,
{
    if i < 0 || i >= a.len() {
        Ok(r)
    } else {
        let (k, v) = a[i];
        if k == "id"@ || (k == "filterUnits"@ && v == "userSpaceOnUse"@) {
            region_attrs(a, i + 1, r)
        } else if k == "x"@ || k == "y"@ || k == "width"@ || k == "height"@ {
            if !crate::backend::skia::parses_as_float(v) {
                Err(num_error(v, k))
            } else if k == "x"@ {
                region_attrs(a, i + 1, (Some(v), r.1, r.2, r.3))
            } else if k == "y"@ {
                region_attrs(a, i + 1, (r.0, Some(v), r.2, r.3))
            } else if k == "width"@ {
                region_attrs(a, i + 1, (r.0, r.1, Some(v), r.3))
            } else {
                region_attrs(a, i + 1, (r.0, r.1, r.2, Some(v)))
            }
        } else {
            Err(cannot_attr("filter"@, k))
        }
    }
}

/// The matte-inversion filter (the one `filterUnits="userSpaceOnUse"`
/// filter the compiler emits, already lowered to `<feColorMatrix>`) as
/// `cf: { m, r }`, and the slots it registers.
#[verifier::opaque]
pub open spec fn spec_invert_filter(def: NodeV) -> Result<(Seq<char>, Seq<usize>), Seq<char>> {
    match region_attrs(def.attrs, 0, (None, None, None, None)) {
        Err(m) => Err(m),
        Ok((x, y, w, h)) => if !(def.children.len() == 1 && def.children[0].tag == "feColorMatrix"@) {
            Err("the skia-aot target only lowers a single <feColorMatrix> filter"@)
        } else {
            match spec_fe_matrix(def.children[0]) {
                Err(m) => Err(m),
                Ok((m, cif)) => if cif is Some {
                    Err("unexpected color-interpolation-filters on a matte inversion"@)
                } else if x is None {
                    Err("<filter> without `x`"@)
                } else if y is None {
                    Err("<filter> without `y`"@)
                } else if w is None {
                    Err("<filter> without `width`"@)
                } else if h is None {
                    Err("<filter> without `height`"@)
                } else {
                    Ok((
                        "cf: { m: ["@ + m + "], r: ["@ + x->0 + ", "@ + y->0 + ", "@ + w->0 + ", "@ + h->0 + "] }"@,
                        own_slot(def.children[0]),
                    ))
                },
            }
        },
    }
}

/// Whether a value is a percentage.
pub open spec fn percent(v: Seq<char>) -> bool {
    v.len() > 0 && v.last() == '%'
}

/// A layer-effect `<filter>`'s attributes from `i` on: the first it cannot
/// lower. Its percentage region is object-relative and is not reproduced.
pub open spec fn fx_attrs(a: Seq<(Seq<char>, Seq<char>)>, i: int) -> Option<Seq<char>>
    decreases a.len() - i,
{
    if i < 0 || i >= a.len() {
        None
    } else {
        let (k, v) = a[i];
        if k == "id"@ || ((k == "x"@ || k == "y"@ || k == "width"@ || k == "height"@) && percent(v)) {
            fx_attrs(a, i + 1)
        } else {
            Some(cannot_attr("filter"@, k))
        }
    }
}

/// The tint stage: the source, the luma layer, and the ramp composed over it.
pub open spec fn tint_stage(m: Seq<char>, m2: Seq<char>) -> Seq<char> {
    "[0, { cf: ["@ + m + "] }, { cf2: [["@ + m2 + "], ["@ + m + "]] }]"@
}

/// A colour-matrix stage.
pub open spec fn matrix_stage(m: Seq<char>) -> Seq<char> {
    "[{ cf: ["@ + m + "] }]"@
}

/// An effect filter's primitive chains from child `i` on, as stages, and the
/// slots they register — or the first refusal.
pub open spec fn fx_stages(bound: Seq<usize>, cs: Seq<NodeV>, i: int, stages: Seq<Seq<char>>, slots: Seq<usize>) -> Result<
    (Seq<Seq<char>>, Seq<usize>),
    Seq<char>,
>
    decreases cs.len() - i,
{
    if i < 0 || i >= cs.len() {
        Ok((stages, slots))
    } else {
        let c = cs[i];
        if c.tag == "feColorMatrix"@ {
            match spec_fe_matrix(c) {
                Err(e) => Err(e),
                Ok((m, cif)) => if cif == Some("linearRGB"@) {
                    if !(i + 2 < cs.len()) {
                        Err("truncated tint chain in the skia-aot target"@)
                    } else {
                        match spec_fe_matrix(cs[i + 1]) {
                            Err(e) => Err(e),
                            Ok((m2, cif2)) => if cif2 != Some("sRGB"@) {
                                Err("tint ramp matrix without sRGB interpolation"@)
                            } else {
                                match spec_fe_merge(cs[i + 2], 3) {
                                    Err(e) => Err(e),
                                    Ok(ms) => fx_stages(
                                        bound,
                                        cs,
                                        i + 3,
                                        stages.push(tint_stage(m, m2)),
                                        slots + own_slot(c) + own_slot(cs[i + 1]) + ms,
                                    ),
                                }
                            },
                        }
                    }
                } else if cif != Some("sRGB"@) {
                    Err("effect colour matrix without sRGB interpolation"@)
                } else {
                    fx_stages(bound, cs, i + 1, stages.push(matrix_stage(m)), slots + own_slot(c))
                },
            }
        } else if c.tag == "feGaussianBlur"@ && first_attr(c.attrs, "in"@, 0) == Some("SourceAlpha"@) {
            if !(i + 4 < cs.len()) {
                Err("truncated drop-shadow chain in the skia-aot target"@)
            } else {
                match spec_fe_shadow(bound, c, cs[i + 1], cs[i + 2], cs[i + 3], cs[i + 4]) {
                    Err(e) => Err(e),
                    Ok((t, sl)) => fx_stages(bound, cs, i + 5, stages.push(t), slots + sl),
                }
            }
        } else if c.tag == "feGaussianBlur"@ {
            match spec_fe_blur(bound, c) {
                Err(e) => Err(e),
                Ok(t) => fx_stages(bound, cs, i + 1, stages.push(t), slots + own_slot(c)),
            }
        } else {
            Err(cannot(c.tag))
        }
    }
}

/// A layer-effect `<filter>` as `fx: [stage, ..]`, and the slots it
/// registers.
#[verifier::opaque]
pub open spec fn spec_fx(bound: Seq<usize>, def: NodeV) -> Result<(Seq<char>, Seq<usize>), Seq<char>> {
    match fx_attrs(def.attrs, 0) {
        Some(m) => Err(m),
        None => match fx_stages(bound, def.children, 0, seq![], seq![]) {
            Err(m) => Err(m),
            Ok((st, sl)) => if st.len() == 0 {
                Err("<filter> with no primitives"@)
            } else {
                Ok(("fx: ["@ + crate::text::joined(st, ", "@) + "]"@, sl))
            },
        },
    }
}

/// `filter="url(#id)"` lowered: the matte inversion as `cf`, a layer-effect
/// chain as `fx`, and the slots it registers.
#[verifier::opaque]
pub open spec fn spec_filter(defs: Seq<(Seq<char>, NodeV)>, bound: Seq<usize>, v: Seq<char>) -> Result<(Seq<char>, Seq<usize>), Seq<char>> {
    match spec_lookup(defs, v, "filter"@) {
        Err(m) => Err(m),
        Ok(def) => if def.tag != "filter"@ {
            Err("`"@ + v + "` does not name a <filter>"@)
        } else {
            let r = if first_attr(def.attrs, "filterUnits"@, 0) == Some("userSpaceOnUse"@) {
                spec_invert_filter(def)
            } else {
                spec_fx(bound, def)
            };
            match r {
                Err(m) => Err(m),
                Ok((t, sl)) => Ok((t, own_slot(def) + sl)),
            }
        },
    }
}

fn region_of(def: &Node) -> (r: Result<(Option<String>, Option<String>, Option<String>, Option<String>), String>)
    ensures
        match region_attrs(node_view(*def).attrs, 0, (None, None, None, None)) {
            Ok(q) => r matches Ok(x) && (opt_view(x.0), opt_view(x.1), opt_view(x.2), opt_view(x.3)) == q,
            Err(m) => r matches Err(x) && x@ == m,
        },
{
    let ghost av = attr_views(def.attrs@);
    assert(node_view(*def).attrs == av);
    let mut x: Option<String> = None;
    let mut y: Option<String> = None;
    let mut w: Option<String> = None;
    let mut h: Option<String> = None;
    let mut i: usize = 0;
    while i < def.attrs.len()
        invariant
            av == attr_views(def.attrs@),
            node_view(*def).attrs == av,
            i <= def.attrs@.len(),
            region_attrs(av, 0, (None, None, None, None)) == region_attrs(
                av,
                i as int,
                (opt_view(x), opt_view(y), opt_view(w), opt_view(h)),
            ),
        decreases def.attrs@.len() - i,
    {
        let k = def.attrs[i].0.as_str();
        let v = def.attrs[i].1.as_str();
        if str_eq(k, "id") || (str_eq(k, "filterUnits") && str_eq(v, "userSpaceOnUse")) {
        } else if str_eq(k, "x") || str_eq(k, "y") || str_eq(k, "width") || str_eq(k, "height") {
            if let Err(m) = crate::backend::skia::num(v, k) {
                return Err(m);
            }
            if str_eq(k, "x") {
                x = Some(copy_str(v));
            } else if str_eq(k, "y") {
                y = Some(copy_str(v));
            } else if str_eq(k, "width") {
                w = Some(copy_str(v));
            } else {
                h = Some(copy_str(v));
            }
        } else {
            return Err(cannot_msg("filter", k));
        }
        i += 1;
    }
    Ok((x, y, w, h))
}

fn fx_attrs_check(def: &Node) -> (r: Option<String>)
    ensures
        match fx_attrs(node_view(*def).attrs, 0) {
            Some(m) => r matches Some(x) && x@ == m,
            None => r is None,
        },
{
    let ghost av = attr_views(def.attrs@);
    assert(node_view(*def).attrs == av);
    let mut i: usize = 0;
    while i < def.attrs.len()
        invariant
            av == attr_views(def.attrs@),
            node_view(*def).attrs == av,
            i <= def.attrs@.len(),
            fx_attrs(av, 0) == fx_attrs(av, i as int),
        decreases def.attrs@.len() - i,
    {
        let k = def.attrs[i].0.as_str();
        let v = def.attrs[i].1.as_str();
        let region = str_eq(k, "x") || str_eq(k, "y") || str_eq(k, "width") || str_eq(k, "height");
        let vs = chars_of(v);
        let pct = vs.len() > 0 && vs[vs.len() - 1] == '%';
        if str_eq(k, "id") || (region && pct) {
        } else {
            return Some(cannot_msg("filter", k));
        }
        i += 1;
    }
    None
}

impl<'a> Lower<'a> {
    /// The matte inversion as `cf: { m, r }`.
    fn invert_filter_js(&mut self, def: &Node) -> (r: Result<String, String>)
        ensures
            final(self).defs == old(self).defs,
            final(self).bound == old(self).bound,
            match spec_invert_filter(node_view(*def)) {
                Ok((t, sl)) => r matches Ok(x) && x@ == t && final(self).slots@ == old(self).slots@ + sl,
                Err(m) => r matches Err(x) && x@ == m,
            },
    {
        reveal(spec_invert_filter);
        let ghost nv = node_view(*def);
        let (x, y, w, h) = match region_of(def) {
            Ok(q) => q,
            Err(m) => {
                return Err(m);
            },
        };
        if !(def.children.len() == 1 && str_eq(def.children[0].tag.as_str(), "feColorMatrix")) {
            proof {
                if def.children@.len() == 1 {
                    assert(nv.children[0] == node_view(def.children@[0]));
                }
            }
            return Err(copy_str("the skia-aot target only lowers a single <feColorMatrix> filter"));
        }
        assert(nv.children[0] == node_view(def.children@[0]));
        let (m, cif) = match self.fe_matrix(&def.children[0]) {
            Ok(q) => q,
            Err(e) => {
                return Err(e);
            },
        };
        if cif.is_some() {
            return Err(copy_str("unexpected color-interpolation-filters on a matte inversion"));
        }
        let x = match x {
            Some(v) => v,
            None => {
                return Err(copy_str("<filter> without `x`"));
            },
        };
        let y = match y {
            Some(v) => v,
            None => {
                return Err(copy_str("<filter> without `y`"));
            },
        };
        let w = match w {
            Some(v) => v,
            None => {
                return Err(copy_str("<filter> without `width`"));
            },
        };
        let h = match h {
            Some(v) => v,
            None => {
                return Err(copy_str("<filter> without `height`"));
            },
        };
        let mut out = String::new();
        push_str(&mut out, "cf: { m: [");
        push_str(&mut out, m.as_str());
        push_str(&mut out, "], r: [");
        push_str(&mut out, x.as_str());
        push_str(&mut out, ", ");
        push_str(&mut out, y.as_str());
        push_str(&mut out, ", ");
        push_str(&mut out, w.as_str());
        push_str(&mut out, ", ");
        push_str(&mut out, h.as_str());
        push_str(&mut out, "] }");
        Ok(out)
    }
}

impl<'a> Lower<'a> {
    /// A layer-effect `<filter>` — the exact primitive chains the scene
    /// builder writes for fill, tint, drop shadow and gaussian blur — as
    /// sequential `fx` stages.
    ///
    /// The tint chain's `color-interpolation-filters="linearRGB"` identifies
    /// its luminance matrix and is then dropped: Skia has no per-filter
    /// colour space, so that matrix runs in sRGB.
    fn fx_js(&mut self, def: &Node) -> (r: Result<String, String>)
        ensures
            final(self).defs == old(self).defs,
            final(self).bound == old(self).bound,
            match spec_fx(old(self).bound@, node_view(*def)) {
                Ok((t, sl)) => r matches Ok(x) && x@ == t && final(self).slots@ == old(self).slots@ + sl,
                Err(m) => r matches Err(x) && x@ == m,
            },
    {
        reveal(spec_fx);
        let ghost nv = node_view(*def);
        let ghost b = self.bound@;
        let ghost s0 = self.slots@;
        if let Some(m) = fx_attrs_check(def) {
            return Err(m);
        }
        let c = &def.children;
        let ghost cs = nv.children;
        assert(cs.len() == c@.len());
        let mut stages: Vec<String> = Vec::new();
        let ghost mut added: Seq<usize> = seq![];
        assert(crate::text::string_views(stages@) =~= Seq::<Seq<char>>::empty());
        assert(self.slots@ =~= s0 + added);
        let mut i: usize = 0;
        while i < c.len()
            invariant
                nv == node_view(*def),
                fx_attrs(nv.attrs, 0) is None,
                cs == nv.children,
                *c == def.children,
                cs.len() == c@.len(),
                b == self.bound@,
                self.defs == old(self).defs,
                self.bound == old(self).bound,
                b == old(self).bound@,
                self.slots@ == s0 + added,
                s0 == old(self).slots@,
                i <= c@.len(),
                fx_stages(b, cs, 0, seq![], seq![]) == fx_stages(b, cs, i as int, crate::text::string_views(stages@), added),
            decreases c@.len() - i,
        {
                reveal(spec_fx);
            assert(cs[i as int] == node_view(c@[i as int]));
            let ghost sv = crate::text::string_views(stages@);
            if str_eq(c[i].tag.as_str(), "feColorMatrix") {
                let (m, cif) = match self.fe_matrix(&c[i]) {
                    Ok(q) => q,
                    Err(e) => {
                        return Err(e);
                    },
                };
                let linear = match &cif {
                    Some(x) => str_eq(x.as_str(), "linearRGB"),
                    None => false,
                };
                if linear {
                    if !(c.len() - i > 2) {
                        return Err(copy_str("truncated tint chain in the skia-aot target"));
                    }
                    assert(cs[i + 1] == node_view(c@[i + 1]));
                    assert(cs[i + 2] == node_view(c@[i + 2]));
                    let (m2, cif2) = match self.fe_matrix(&c[i + 1]) {
                        Ok(q) => q,
                        Err(e) => {
                            return Err(e);
                        },
                    };
                    let srgb = match &cif2 {
                        Some(x) => str_eq(x.as_str(), "sRGB"),
                        None => false,
                    };
                    if !srgb {
                        return Err(copy_str("tint ramp matrix without sRGB interpolation"));
                    }
                    let ghost before = self.slots@;
                    if let Err(e) = self.fe_merge(&c[i + 2], 3) {
                        return Err(e);
                    }
                    let mut st = String::new();
                    push_str(&mut st, "[0, { cf: [");
                    push_str(&mut st, m.as_str());
                    push_str(&mut st, "] }, { cf2: [[");
                    push_str(&mut st, m2.as_str());
                    push_str(&mut st, "], [");
                    push_str(&mut st, m.as_str());
                    push_str(&mut st, "]] }]");
                    stages.push(st);
                    assert(crate::text::string_views(stages@) =~= sv.push(tint_stage(m@, m2@)));
                    proof {
                        added = added + own_slot(cs[i as int]) + own_slot(cs[i + 1]) + spec_fe_merge(cs[i + 2], 3)->Ok_0;
                    }
                    assert(self.slots@ =~= s0 + added);
                    i += 3;
                } else {
                    let srgb = match &cif {
                        Some(x) => str_eq(x.as_str(), "sRGB"),
                        None => false,
                    };
                    if !srgb {
                        return Err(copy_str("effect colour matrix without sRGB interpolation"));
                    }
                    let mut st = String::new();
                    push_str(&mut st, "[{ cf: [");
                    push_str(&mut st, m.as_str());
                    push_str(&mut st, "] }]");
                    stages.push(st);
                    assert(crate::text::string_views(stages@) =~= sv.push(matrix_stage(m@)));
                    proof {
                        added = added + own_slot(cs[i as int]);
                    }
                    assert(self.slots@ =~= s0 + added);
                    i += 1;
                }
            } else if str_eq(c[i].tag.as_str(), "feGaussianBlur") && match attr(&c[i], "in") {
                Some(x) => str_eq(x, "SourceAlpha"),
                None => false,
            } {
                if !(c.len() - i > 4) {
                    return Err(copy_str("truncated drop-shadow chain in the skia-aot target"));
                }
                assert(cs[i + 1] == node_view(c@[i + 1]));
                assert(cs[i + 2] == node_view(c@[i + 2]));
                assert(cs[i + 3] == node_view(c@[i + 3]));
                assert(cs[i + 4] == node_view(c@[i + 4]));
                let t = match self.fe_shadow(&c[i], &c[i + 1], &c[i + 2], &c[i + 3], &c[i + 4]) {
                    Ok(t) => t,
                    Err(e) => {
                        return Err(e);
                    },
                };
                stages.push(t);
                assert(crate::text::string_views(stages@) =~= sv.push(t@));
                proof {
                    added = added + spec_fe_shadow(b, cs[i as int], cs[i + 1], cs[i + 2], cs[i + 3], cs[i + 4])->Ok_0.1;
                }
                assert(self.slots@ =~= s0 + added);
                i += 5;
            } else if str_eq(c[i].tag.as_str(), "feGaussianBlur") {
                let t = match self.fe_blur(&c[i]) {
                    Ok(t) => t,
                    Err(e) => {
                        return Err(e);
                    },
                };
                stages.push(t);
                assert(crate::text::string_views(stages@) =~= sv.push(t@));
                proof {
                    added = added + own_slot(cs[i as int]);
                }
                assert(self.slots@ =~= s0 + added);
                i += 1;
            } else {
                let mut m = String::new();
                push_str(&mut m, "the skia-aot target cannot lower <");
                push_str(&mut m, c[i].tag.as_str());
                push_str(&mut m, ">");
                return Err(m);
            }
        }
        if stages.len() == 0 {
            return Err(copy_str("<filter> with no primitives"));
        }
        let mut out = String::new();
        push_str(&mut out, "fx: [");
        crate::text::push_joined_strings(&mut out, stages.as_slice(), ", ");
        push_str(&mut out, "]");
        Ok(out)
    }

    /// `filter="url(#id)"` → `cf: { m, r }` for the matte inversion, or
    /// `fx: [stage, ..]` for a layer-effect chain.
    fn filter_js(&mut self, v: &str) -> (r: Result<String, String>)
        ensures
            final(self).defs == old(self).defs,
            final(self).bound == old(self).bound,
            match spec_filter(defs_view(old(self).defs@), old(self).bound@, v@) {
                Ok((t, sl)) => r matches Ok(x) && x@ == t && final(self).slots@ == old(self).slots@ + sl,
                Err(m) => r matches Err(x) && x@ == m,
            },
    {
        reveal(spec_filter);
        let def = match self.lookup(v, "filter") {
            Ok(d) => d,
            Err(m) => {
                return Err(m);
            },
        };
        if !str_eq(def.tag.as_str(), "filter") {
            return Err(msg3("`", v, "` does not name a <filter>"));
        }
        let ghost s0 = self.slots@;
        self.register(def);
        let inverted = match attr(def, "filterUnits") {
            Some(u) => str_eq(u, "userSpaceOnUse"),
            None => false,
        };
        if inverted {
            self.invert_filter_js(def)
        } else {
            self.fx_js(def)
        }
    }
}

// ---------------------------------------------------------------------------
// Clips
// ---------------------------------------------------------------------------

/// A `<clipPath>`'s attributes from `i` on: the first it cannot lower.
pub open spec fn clip_def_attrs(a: Seq<(Seq<char>, Seq<char>)>, i: int) -> Option<Seq<char>>
    decreases a.len() - i,
{
    if i < 0 || i >= a.len() {
        None
    } else {
        let (k, v) = a[i];
        if k == "id"@ || (k == "clipPathUnits"@ && v == "userSpaceOnUse"@) {
            clip_def_attrs(a, i + 1)
        } else {
            Some(cannot_attr("clipPath"@, k))
        }
    }
}

/// A clip `<rect>`'s attributes from `i` on: its box (the last of each
/// wins), or the first refusal.
pub open spec fn clip_rect_attrs(
    a: Seq<(Seq<char>, Seq<char>)>,
    i: int,
    r: (Seq<char>, Seq<char>, Option<Seq<char>>, Option<Seq<char>>),
) -> Result<(Seq<char>, Seq<char>, Option<Seq<char>>, Option<Seq<char>>), Seq<char>>
    decreases a.len() - i,
{
    if i < 0 || i >= a.len() {
        Ok(r)
    } else {
        let (k, v) = a[i];
        if k == "x"@ || k == "y"@ || k == "width"@ || k == "height"@ {
            if !crate::backend::skia::parses_as_float(v) {
                Err(num_error(v, k))
            } else if k == "x"@ {
                clip_rect_attrs(a, i + 1, (v, r.1, r.2, r.3))
            } else if k == "y"@ {
                clip_rect_attrs(a, i + 1, (r.0, v, r.2, r.3))
            } else if k == "width"@ {
                clip_rect_attrs(a, i + 1, (r.0, r.1, Some(v), r.3))
            } else {
                clip_rect_attrs(a, i + 1, (r.0, r.1, r.2, Some(v)))
            }
        } else {
            Err("the skia-aot target cannot lower a clip <rect "@ + k + ">"@)
        }
    }
}

/// A clip `<path>`'s attributes from `i` on: the descriptor's entries, or
/// the first refusal.
pub open spec fn clip_path_attrs(a: Seq<(Seq<char>, Seq<char>)>, i: int, parts: Seq<Seq<char>>) -> Result<Seq<Seq<char>>, Seq<char>>
    decreases a.len() - i,
{
    if i < 0 || i >= a.len() {
        Ok(parts)
    } else {
        let (k, v) = a[i];
        if k == "d"@ {
            clip_path_attrs(a, i + 1, parts.push(entry("d"@, crate::backend::emit::spec_js_string(v))))
        } else if k == "clip-rule"@ || k == "fill-rule"@ {
            if v == "evenodd"@ {
                clip_path_attrs(a, i + 1, parts.push("eo: 1"@))
            } else if v == "nonzero"@ {
                clip_path_attrs(a, i + 1, parts)
            } else {
                Err("unsupported fill rule `"@ + v + "`"@)
            }
        } else {
            Err("the skia-aot target cannot lower a clip <path "@ + k + ">"@)
        }
    }
}

/// `{ a, b }`.
pub open spec fn braced(parts: Seq<Seq<char>>) -> Seq<char> {
    "{ "@ + crate::text::joined(parts, ", "@) + " }"@
}

/// `clip-path="url(#id)"` as an inline clip descriptor, and the slots it
/// registers. A path clip may be animated (a layer mask keyframes its
/// bezier): its slot rides along as `s`, and a `d` animated from the first
/// frame is not baked, so `d` is optional.
#[verifier::opaque]
pub open spec fn spec_clip(defs: Seq<(Seq<char>, NodeV)>, bound: Seq<usize>, v: Seq<char>) -> Result<(Seq<char>, Seq<usize>), Seq<char>> {
    match spec_lookup(defs, v, "clip-path"@) {
        Err(m) => Err(m),
        Ok(def) => if def.tag != "clipPath"@ {
            Err("`"@ + v + "` does not name a <clipPath>"@)
        } else {
            match clip_def_attrs(def.attrs, 0) {
                Some(m) => Err(m),
                None => if def.children.len() != 1 {
                    Err("the skia-aot target only lowers single-shape clip paths"@)
                } else {
                    let c = def.children[0];
                    if c.tag == "rect"@ {
                        match clip_rect_attrs(c.attrs, 0, ("0"@, "0"@, None, None)) {
                            Err(m) => Err(m),
                            Ok((x, y, w, h)) => if w is None || h is None {
                                Err("clip <rect> without width/height"@)
                            } else {
                                Ok(("{ r: ["@ + x + ", "@ + y + ", "@ + w->0 + ", "@ + h->0 + "] }"@, seq![]))
                            },
                        }
                    } else if c.tag == "path"@ {
                        match clip_path_attrs(c.attrs, 0, slot_part("s"@, prim(bound, c))) {
                            Err(m) => Err(m),
                            Ok(parts) => if parts.len() == 0 {
                                Err("clip <path> without d"@)
                            } else {
                                Ok((braced(parts), own_slot(c)))
                            },
                        }
                    } else {
                        Err("the skia-aot target cannot lower a <"@ + c.tag + "> clip shape"@)
                    }
                },
            }
        },
    }
}

fn clip_def_check(def: &Node) -> (r: Option<String>)
    ensures
        match clip_def_attrs(node_view(*def).attrs, 0) {
            Some(m) => r matches Some(x) && x@ == m,
            None => r is None,
        },
{
    let ghost av = attr_views(def.attrs@);
    assert(node_view(*def).attrs == av);
    let mut i: usize = 0;
    while i < def.attrs.len()
        invariant
            av == attr_views(def.attrs@),
            node_view(*def).attrs == av,
            i <= def.attrs@.len(),
            clip_def_attrs(av, 0) == clip_def_attrs(av, i as int),
        decreases def.attrs@.len() - i,
    {
        let k = def.attrs[i].0.as_str();
        let v = def.attrs[i].1.as_str();
        if str_eq(k, "id") || (str_eq(k, "clipPathUnits") && str_eq(v, "userSpaceOnUse")) {
        } else {
            return Some(cannot_msg("clipPath", k));
        }
        i += 1;
    }
    None
}

fn clip_rect_box(c: &Node) -> (r: Result<(String, String, Option<String>, Option<String>), String>)
    ensures
        match clip_rect_attrs(node_view(*c).attrs, 0, ("0"@, "0"@, None, None)) {
            Ok(q) => r matches Ok(x) && (x.0@, x.1@, opt_view(x.2), opt_view(x.3)) == q,
            Err(m) => r matches Err(x) && x@ == m,
        },
{
    let ghost av = attr_views(c.attrs@);
    assert(node_view(*c).attrs == av);
    let mut x = copy_str("0");
    let mut y = copy_str("0");
    let mut w: Option<String> = None;
    let mut h: Option<String> = None;
    let mut i: usize = 0;
    while i < c.attrs.len()
        invariant
            av == attr_views(c.attrs@),
            node_view(*c).attrs == av,
            i <= c.attrs@.len(),
            clip_rect_attrs(av, 0, ("0"@, "0"@, None, None)) == clip_rect_attrs(
                av,
                i as int,
                (x@, y@, opt_view(w), opt_view(h)),
            ),
        decreases c.attrs@.len() - i,
    {
        let k = c.attrs[i].0.as_str();
        let v = c.attrs[i].1.as_str();
        if str_eq(k, "x") || str_eq(k, "y") || str_eq(k, "width") || str_eq(k, "height") {
            if let Err(m) = crate::backend::skia::num(v, k) {
                return Err(m);
            }
            if str_eq(k, "x") {
                x = copy_str(v);
            } else if str_eq(k, "y") {
                y = copy_str(v);
            } else if str_eq(k, "width") {
                w = Some(copy_str(v));
            } else {
                h = Some(copy_str(v));
            }
        } else {
            return Err(msg3("the skia-aot target cannot lower a clip <rect ", k, ">"));
        }
        i += 1;
    }
    Ok((x, y, w, h))
}

fn clip_path_parts(c: &Node, parts: &mut Vec<String>) -> (r: Result<(), String>)
    ensures
        match clip_path_attrs(node_view(*c).attrs, 0, crate::text::string_views(old(parts)@)) {
            Ok(p) => r is Ok && crate::text::string_views(final(parts)@) == p,
            Err(m) => r matches Err(x) && x@ == m,
        },
{
    let ghost av = attr_views(c.attrs@);
    let ghost start = crate::text::string_views(parts@);
    assert(node_view(*c).attrs == av);
    let mut i: usize = 0;
    while i < c.attrs.len()
        invariant
            av == attr_views(c.attrs@),
            node_view(*c).attrs == av,
            start == crate::text::string_views(old(parts)@),
            i <= c.attrs@.len(),
            clip_path_attrs(av, 0, start) == clip_path_attrs(av, i as int, crate::text::string_views(parts@)),
        decreases c.attrs@.len() - i,
    {
        let k = c.attrs[i].0.as_str();
        let v = c.attrs[i].1.as_str();
        let ghost o = crate::text::string_views(parts@);
        if str_eq(k, "d") {
            let q = crate::backend::emit::js_string(v);
            parts.push(entry_str("d", q.as_str()));
            assert(crate::text::string_views(parts@) =~= o.push(entry("d"@, crate::backend::emit::spec_js_string(v@))));
        } else if str_eq(k, "clip-rule") || str_eq(k, "fill-rule") {
            match crate::backend::skia::fill_rule_eo(v) {
                Ok(true) => {
                    parts.push(copy_str("eo: 1"));
                    assert(crate::text::string_views(parts@) =~= o.push("eo: 1"@));
                },
                Ok(false) => {},
                Err(m) => {
                    return Err(m);
                },
            }
        } else {
            return Err(msg3("the skia-aot target cannot lower a clip <path ", k, ">"));
        }
        i += 1;
    }
    Ok(())
}

fn braced_str(parts: &Vec<String>) -> (r: String)
    ensures
        r@ == braced(crate::text::string_views(parts@)),
{
    let mut out = String::new();
    push_str(&mut out, "{ ");
    crate::text::push_joined_strings(&mut out, parts.as_slice(), ", ");
    push_str(&mut out, " }");
    out
}

impl<'a> Lower<'a> {
    /// `clip-path="url(#id)"` → an inline clip descriptor.
    fn clip_js(&mut self, v: &str) -> (r: Result<String, String>)
        ensures
            final(self).defs == old(self).defs,
            final(self).bound == old(self).bound,
            match spec_clip(defs_view(old(self).defs@), old(self).bound@, v@) {
                Ok((t, sl)) => r matches Ok(x) && x@ == t && final(self).slots@ == old(self).slots@ + sl,
                Err(m) => r matches Err(x) && x@ == m,
            },
    {
        reveal(spec_clip);
        let def = match self.lookup(v, "clip-path") {
            Ok(d) => d,
            Err(m) => {
                return Err(m);
            },
        };
        let ghost dv = node_view(*def);
        if !str_eq(def.tag.as_str(), "clipPath") {
            return Err(msg3("`", v, "` does not name a <clipPath>"));
        }
        if let Some(m) = clip_def_check(def) {
            return Err(m);
        }
        if def.children.len() != 1 {
            return Err(copy_str("the skia-aot target only lowers single-shape clip paths"));
        }
        let c = &def.children[0];
        assert(dv.children[0] == node_view(*c));
        if str_eq(c.tag.as_str(), "rect") {
            let (x, y, w, h) = match clip_rect_box(c) {
                Ok(q) => q,
                Err(m) => {
                    return Err(m);
                },
            };
            let (w, h) = match (w, h) {
                (Some(w), Some(h)) => (w, h),
                _ => {
                    return Err(copy_str("clip <rect> without width/height"));
                },
            };
            let mut out = String::new();
            push_str(&mut out, "{ r: [");
            push_str(&mut out, x.as_str());
            push_str(&mut out, ", ");
            push_str(&mut out, y.as_str());
            push_str(&mut out, ", ");
            push_str(&mut out, w.as_str());
            push_str(&mut out, ", ");
            push_str(&mut out, h.as_str());
            push_str(&mut out, "] }");
            assert(self.slots@ =~= old(self).slots@ + Seq::<usize>::empty());
            Ok(out)
        } else if str_eq(c.tag.as_str(), "path") {
            let mut parts: Vec<String> = Vec::new();
            let o = self.prim_slot(c);
            push_slot_part(&mut parts, "s", o);
            assert(crate::text::string_views(parts@) =~= slot_part("s"@, prim(old(self).bound@, node_view(*c))));
            if let Err(m) = clip_path_parts(c, &mut parts) {
                return Err(m);
            }
            if parts.len() == 0 {
                return Err(copy_str("clip <path> without d"));
            }
            Ok(braced_str(&parts))
        } else {
            Err(msg3("the skia-aot target cannot lower a <", c.tag.as_str(), "> clip shape"))
        }
    }
}

// ---------------------------------------------------------------------------
// Gradients
// ---------------------------------------------------------------------------

/// The value of the last coordinate named `k` among the first `n`.
pub open spec fn coord(coords: Seq<(Seq<char>, Seq<char>)>, k: Seq<char>, n: int) -> Option<Seq<char>>
    decreases n,
{
    if n <= 0 || n > coords.len() {
        None
    } else if coords[n - 1].0 == k {
        Some(coords[n - 1].1)
    } else {
        coord(coords, k, n - 1)
    }
}

/// A coordinate attribute of a gradient of this kind.
pub open spec fn coord_key(radial: bool, k: Seq<char>) -> bool {
    if radial {
        k == "cx"@ || k == "cy"@ || k == "r"@
    } else {
        k == "x1"@ || k == "y1"@ || k == "x2"@ || k == "y2"@
    }
}

/// A gradient's attributes from `i` on: its coordinates in order, its
/// transform (the last wins) and whether it is in user space — or the first
/// refusal.
pub open spec fn gradient_attrs(
    tag: Seq<char>,
    radial: bool,
    a: Seq<(Seq<char>, Seq<char>)>,
    i: int,
    coords: Seq<(Seq<char>, Seq<char>)>,
    gt: Option<Seq<char>>,
    units: bool,
) -> Result<(Seq<(Seq<char>, Seq<char>)>, Option<Seq<char>>, bool), Seq<char>>
    decreases a.len() - i,
{
    if i < 0 || i >= a.len() {
        Ok((coords, gt, units))
    } else {
        let (k, v) = a[i];
        if k == "id"@ {
            gradient_attrs(tag, radial, a, i + 1, coords, gt, units)
        } else if k == "gradientUnits"@ && v == "userSpaceOnUse"@ {
            gradient_attrs(tag, radial, a, i + 1, coords, gt, true)
        } else if k == "gradientTransform"@ {
            match crate::backend::skia::spec_transform9(v) {
                Err(m) => Err(m),
                Ok(t) => gradient_attrs(tag, radial, a, i + 1, coords, Some(t), units),
            }
        } else if coord_key(radial, k) {
            if crate::backend::skia::parses_as_float(v) {
                gradient_attrs(tag, radial, a, i + 1, coords.push((k, v)), gt, units)
            } else {
                Err(num_error(v, k))
            }
        } else {
            Err(cannot_attr(tag, k))
        }
    }
}

/// A `<stop>`'s attributes from `i` on: its offset and colour (the last of
/// each wins), or the first refusal.
pub open spec fn stop_attrs(a: Seq<(Seq<char>, Seq<char>)>, i: int, off: Option<Seq<char>>, color: Option<Seq<char>>) -> Result<
    (Option<Seq<char>>, Option<Seq<char>>),
    Seq<char>,
>
    decreases a.len() - i,
{
    if i < 0 || i >= a.len() {
        Ok((off, color))
    } else {
        let (k, v) = a[i];
        if k == "offset"@ {
            if crate::backend::skia::parses_as_float(v) {
                stop_attrs(a, i + 1, Some(v), color)
            } else {
                Err(num_error(v, "offset"@))
            }
        } else if k == "stop-color"@ {
            stop_attrs(a, i + 1, off, Some(v))
        } else {
            Err(cannot_attr("stop"@, k))
        }
    }
}

/// One stop as `[off, '#c']`; a bound stop carries its slot as a third
/// entry, and defaults what its first write will set.
pub open spec fn spec_stop(bound: Seq<usize>, s: NodeV) -> Result<Seq<char>, Seq<char>> {
    if s.tag != "stop"@ {
        Err("unexpected <"@ + s.tag + "> inside a gradient"@)
    } else {
        match stop_attrs(s.attrs, 0, None, None) {
            Err(m) => Err(m),
            Ok((off, color)) => match prim(bound, s) {
                Some(slot) => {
                    let o = match off {
                        Some(o) => o,
                        None => "0"@,
                    };
                    let c = match color {
                        Some(c) => c,
                        None => "#000"@,
                    };
                    Ok("["@ + o + ", "@ + crate::backend::emit::spec_js_string(c) + ", "@ + crate::text::decimal(slot as nat) + "]"@)
                },
                None => match (off, color) {
                    (Some(o), Some(c)) => Ok("["@ + o + ", "@ + crate::backend::emit::spec_js_string(c) + "]"@),
                    _ => Err("<stop> without offset/stop-color"@),
                },
            },
        }
    }
}

/// The stops from child `i` on, or the first refusal.
pub open spec fn stops_from(bound: Seq<usize>, cs: Seq<NodeV>, i: int, acc: Seq<Seq<char>>) -> Result<Seq<Seq<char>>, Seq<char>>
    decreases cs.len() - i,
{
    if i < 0 || i >= cs.len() {
        Ok(acc)
    } else {
        match spec_stop(bound, cs[i]) {
            Err(m) => Err(m),
            Ok(t) => stops_from(bound, cs, i + 1, acc.push(t)),
        }
    }
}

/// A coordinate, `0` when the gradient is bound (its first write sets every
/// coordinate), or why it is missing.
pub open spec fn coord_or(tag: Seq<char>, coords: Seq<(Seq<char>, Seq<char>)>, k: Seq<char>, bound_self: bool) -> Result<Seq<char>, Seq<char>> {
    match coord(coords, k, coords.len() as int) {
        Some(v) => Ok(v),
        None => if bound_self {
            Ok("0"@)
        } else {
            Err("<"@ + tag + "> without `"@ + k + "`"@)
        },
    }
}

/// The coordinates of a gradient's head, in order, or the first missing.
pub open spec fn coords_in_order(tag: Seq<char>, coords: Seq<(Seq<char>, Seq<char>)>, keys: Seq<Seq<char>>, bound_self: bool, n: int) -> Result<Seq<Seq<char>>, Seq<char>>
    decreases n,
{
    if n <= 0 || n > keys.len() {
        Ok(seq![])
    } else {
        match coords_in_order(tag, coords, keys, bound_self, n - 1) {
            Err(m) => Err(m),
            Ok(vs) => match coord_or(tag, coords, keys[n - 1], bound_self) {
                Err(m) => Err(m),
                Ok(v) => Ok(vs.push(entry(keys[n - 1], v))),
            },
        }
    }
}

/// The head coordinate names of a gradient of this kind.
pub open spec fn head_keys(radial: bool) -> Seq<Seq<char>> {
    if radial {
        seq!["cx"@, "cy"@, "r"@]
    } else {
        seq!["x1"@, "y1"@, "x2"@, "y2"@]
    }
}

/// `fill="url(#id)"` / `stroke="url(#id)"` as an inline gradient, and the
/// slots it registers. A bound gradient rides its slot as `s`; a bound stop
/// rides its slot as the third entry of its triple.
#[verifier::opaque]
pub open spec fn spec_gradient(defs: Seq<(Seq<char>, NodeV)>, bound: Seq<usize>, v: Seq<char>) -> Result<(Seq<char>, Seq<usize>), Seq<char>> {
    match spec_lookup(defs, v, "paint"@) {
        Err(m) => Err(m),
        Ok(def) => if def.tag != "radialGradient"@ && def.tag != "linearGradient"@ {
            Err("`"@ + v + "` names a <"@ + def.tag + ">, not a gradient"@)
        } else {
            let radial = def.tag == "radialGradient"@;
            let bound_self = prim(bound, def) is Some;
            match gradient_attrs(def.tag, radial, def.attrs, 0, seq![], None, false) {
                Err(m) => Err(m),
                Ok((coords, gt, units)) => if !units {
                    Err("<"@ + def.tag + "> without gradientUnits=\"userSpaceOnUse\""@)
                } else {
                    match stops_from(bound, def.children, 0, seq![]) {
                        Err(m) => Err(m),
                        Ok(stops) => match coords_in_order(def.tag, coords, head_keys(radial), bound_self, head_keys(radial).len() as int) {
                            Err(m) => Err(m),
                            Ok(cs) => {
                                let s = slot_part("s"@, prim(bound, def));
                                let head = (if radial { "rad: 1"@ } else { "lin: 1"@ });
                                let g = match gt {
                                    Some(m) => ", gt: "@ + m,
                                    None => seq![],
                                };
                                Ok((
                                    "{ "@ + crate::text::joined(seq![head] + s + cs, ", "@) + ", st: ["@
                                        + crate::text::joined(stops, ", "@) + "]"@ + g + " }"@,
                                    own_slot(def) + slots_of(def.children, def.children.len() as int),
                                ))
                            },
                        },
                    }
                },
            }
        },
    }
}

fn is_coord_key(radial: bool, k: &str) -> (r: bool)
    ensures
        r == coord_key(radial, k@),
{
    if radial {
        str_eq(k, "cx") || str_eq(k, "cy") || str_eq(k, "r")
    } else {
        str_eq(k, "x1") || str_eq(k, "y1") || str_eq(k, "x2") || str_eq(k, "y2")
    }
}

fn gradient_scan(def: &Node, radial: bool) -> (r: Result<(Vec<(String, String)>, Option<String>, bool), String>)
    ensures
        match gradient_attrs(node_view(*def).tag, radial, node_view(*def).attrs, 0, seq![], None, false) {
            Ok((c, g, u)) => r matches Ok(x) && attr_views(x.0@) == c && opt_view(x.1) == g && x.2 == u,
            Err(m) => r matches Err(x) && x@ == m,
        },
{
    let ghost av = attr_views(def.attrs@);
    let ghost tag = def.tag@;
    assert(node_view(*def).attrs == av);
    let mut coords: Vec<(String, String)> = Vec::new();
    let mut gt: Option<String> = None;
    let mut units = false;
    assert(attr_views(coords@) =~= Seq::<(Seq<char>, Seq<char>)>::empty());
    let mut i: usize = 0;
    while i < def.attrs.len()
        invariant
            av == attr_views(def.attrs@),
            node_view(*def).attrs == av,
            node_view(*def).tag == tag,
            tag == def.tag@,
            i <= def.attrs@.len(),
            gradient_attrs(tag, radial, av, 0, seq![], None, false) == gradient_attrs(
                tag,
                radial,
                av,
                i as int,
                attr_views(coords@),
                opt_view(gt),
                units,
            ),
        decreases def.attrs@.len() - i,
    {
        let k = def.attrs[i].0.as_str();
        let v = def.attrs[i].1.as_str();
        if str_eq(k, "id") {
        } else if str_eq(k, "gradientUnits") && str_eq(v, "userSpaceOnUse") {
            units = true;
        } else if str_eq(k, "gradientTransform") {
            match crate::backend::skia::transform9(v) {
                Ok(t) => {
                    gt = Some(t);
                },
                Err(m) => {
                    return Err(m);
                },
            }
        } else if is_coord_key(radial, k) {
            if let Err(m) = crate::backend::skia::num(v, k) {
                return Err(m);
            }
            let ghost o = attr_views(coords@);
            coords.push((copy_str(k), copy_str(v)));
            assert(attr_views(coords@) =~= o.push((k@, v@)));
        } else {
            return Err(cannot_msg(def.tag.as_str(), k));
        }
        i += 1;
    }
    Ok((coords, gt, units))
}

fn stop_scan(s: &Node) -> (r: Result<(Option<String>, Option<String>), String>)
    ensures
        match stop_attrs(node_view(*s).attrs, 0, None, None) {
            Ok((o, c)) => r matches Ok(x) && opt_view(x.0) == o && opt_view(x.1) == c,
            Err(m) => r matches Err(x) && x@ == m,
        },
{
    let ghost av = attr_views(s.attrs@);
    assert(node_view(*s).attrs == av);
    let mut off: Option<String> = None;
    let mut color: Option<String> = None;
    let mut i: usize = 0;
    while i < s.attrs.len()
        invariant
            av == attr_views(s.attrs@),
            node_view(*s).attrs == av,
            i <= s.attrs@.len(),
            stop_attrs(av, 0, None, None) == stop_attrs(av, i as int, opt_view(off), opt_view(color)),
        decreases s.attrs@.len() - i,
    {
        let k = s.attrs[i].0.as_str();
        let v = s.attrs[i].1.as_str();
        if str_eq(k, "offset") {
            if let Err(m) = crate::backend::skia::num(v, "offset") {
                return Err(m);
            }
            off = Some(copy_str(v));
        } else if str_eq(k, "stop-color") {
            color = Some(copy_str(v));
        } else {
            return Err(cannot_msg("stop", k));
        }
        i += 1;
    }
    Ok((off, color))
}

fn coord_of(coords: &Vec<(String, String)>, k: &str) -> (r: Option<String>)
    ensures
        opt_view(r) == coord(attr_views(coords@), k@, coords@.len() as int),
{
    let ghost cv = attr_views(coords@);
    let mut n: usize = coords.len();
    while n > 0
        invariant
            cv == attr_views(coords@),
            n <= coords@.len(),
            coord(cv, k@, coords@.len() as int) == coord(cv, k@, n as int),
        decreases n,
    {
        if str_eq(coords[n - 1].0.as_str(), k) {
            return Some(copy_str(coords[n - 1].1.as_str()));
        }
        n -= 1;
    }
    None
}

impl<'a> Lower<'a> {
    /// One gradient stop.
    fn stop_js(&mut self, s: &Node) -> (r: Result<String, String>)
        ensures
            final(self).defs == old(self).defs,
            final(self).bound == old(self).bound,
            match spec_stop(old(self).bound@, node_view(*s)) {
                Ok(t) => r matches Ok(x) && x@ == t && final(self).slots@ == old(self).slots@ + own_slot(node_view(*s)),
                Err(m) => r matches Err(x) && x@ == m,
            },
    {
        if !str_eq(s.tag.as_str(), "stop") {
            return Err(msg3("unexpected <", s.tag.as_str(), "> inside a gradient"));
        }
        let slot = self.prim_slot(s);
        let (off, color) = match stop_scan(s) {
            Ok(q) => q,
            Err(m) => {
                return Err(m);
            },
        };
        let mut out = String::new();
        match slot {
            Some(n) => {
                let o = match off {
                    Some(o) => o,
                    None => copy_str("0"),
                };
                let c = match color {
                    Some(c) => c,
                    None => copy_str("#000"),
                };
                push_str(&mut out, "[");
                push_str(&mut out, o.as_str());
                push_str(&mut out, ", ");
                let q = crate::backend::emit::js_string(c.as_str());
                push_str(&mut out, q.as_str());
                push_str(&mut out, ", ");
                let d = crate::text::decimal_string(n as u64);
                push_str(&mut out, d.as_str());
                push_str(&mut out, "]");
            },
            None => {
                let (o, c) = match (off, color) {
                    (Some(o), Some(c)) => (o, c),
                    _ => {
                        return Err(copy_str("<stop> without offset/stop-color"));
                    },
                };
                push_str(&mut out, "[");
                push_str(&mut out, o.as_str());
                push_str(&mut out, ", ");
                let q = crate::backend::emit::js_string(c.as_str());
                push_str(&mut out, q.as_str());
                push_str(&mut out, "]");
            },
        }
        Ok(out)
    }

    /// `fill="url(#id)"` / `stroke="url(#id)"` → an inline gradient.
    fn gradient_js(&mut self, v: &str) -> (r: Result<String, String>)
        ensures
            final(self).defs == old(self).defs,
            final(self).bound == old(self).bound,
            match spec_gradient(defs_view(old(self).defs@), old(self).bound@, v@) {
                Ok((t, sl)) => r matches Ok(x) && x@ == t && final(self).slots@ == old(self).slots@ + sl,
                Err(m) => r matches Err(x) && x@ == m,
            },
    {
        reveal(spec_gradient);
        let def = match self.lookup(v, "paint") {
            Ok(d) => d,
            Err(m) => {
                return Err(m);
            },
        };
        let ghost dv = node_view(*def);
        let ghost b = self.bound@;
        let ghost s0 = self.slots@;
        let radial = str_eq(def.tag.as_str(), "radialGradient");
        if !radial && !str_eq(def.tag.as_str(), "linearGradient") {
            let mut m = String::new();
            push_str(&mut m, "`");
            push_str(&mut m, v);
            push_str(&mut m, "` names a <");
            push_str(&mut m, def.tag.as_str());
            push_str(&mut m, ">, not a gradient");
            return Err(m);
        }
        let own = self.prim_slot(def);
        let bound_self = own.is_some();
        let (coords, gt, units) = match gradient_scan(def, radial) {
            Ok(q) => q,
            Err(m) => {
                return Err(m);
            },
        };
        if !units {
            let mut m = String::new();
            push_str(&mut m, "<");
            push_str(&mut m, def.tag.as_str());
            push_str(&mut m, "> without gradientUnits=\"userSpaceOnUse\"");
            return Err(m);
        }
        let mut stops: Vec<String> = Vec::new();
        let mut i: usize = 0;
        assert(crate::text::string_views(stops@) =~= Seq::<Seq<char>>::empty());
        let ghost pre = spec_lookup(defs_view(old(self).defs@), v@, "paint"@) == Ok::<NodeV, Seq<char>>(dv)
            && (dv.tag == "radialGradient"@ || dv.tag == "linearGradient"@)
            && radial == (dv.tag == "radialGradient"@)
            && bound_self == (prim(b, dv) is Some)
            && own == prim(b, dv)
            && gradient_attrs(dv.tag, radial, dv.attrs, 0, seq![], None, false) == Ok::<
                (Seq<(Seq<char>, Seq<char>)>, Option<Seq<char>>, bool),
                Seq<char>,
            >((attr_views(coords@), opt_view(gt), true));
        assert(pre);
        while i < def.children.len()
            invariant
                pre == (spec_lookup(defs_view(old(self).defs@), v@, "paint"@) == Ok::<NodeV, Seq<char>>(dv)
                    && (dv.tag == "radialGradient"@ || dv.tag == "linearGradient"@)
                    && radial == (dv.tag == "radialGradient"@)
                    && bound_self == (prim(b, dv) is Some)
                    && own == prim(b, dv)
                    && gradient_attrs(dv.tag, radial, dv.attrs, 0, seq![], None, false) == Ok::<
                        (Seq<(Seq<char>, Seq<char>)>, Option<Seq<char>>, bool),
                        Seq<char>,
                    >((attr_views(coords@), opt_view(gt), true))),
                pre,
                dv == node_view(*def),
                b == self.bound@,
                self.defs == old(self).defs,
                self.bound == old(self).bound,
                b == old(self).bound@,
                self.slots@ == s0 + own_slot(dv) + slots_of(dv.children, i as int),
                i <= def.children@.len(),
                dv.children.len() == def.children@.len(),
                stops_from(b, dv.children, 0, seq![]) == stops_from(b, dv.children, i as int, crate::text::string_views(stops@)),
            decreases def.children@.len() - i,
        {
                reveal(spec_gradient);
            assert(dv.children[i as int] == node_view(def.children@[i as int]));
            let t = match self.stop_js(&def.children[i]) {
                Ok(t) => t,
                Err(m) => {
                    return Err(m);
                },
            };
            let ghost o = crate::text::string_views(stops@);
            stops.push(t);
            assert(crate::text::string_views(stops@) =~= o.push(t@));
            i += 1;
        }
        assert(stops_from(b, dv.children, 0, seq![]) == Ok::<Seq<Seq<char>>, Seq<char>>(crate::text::string_views(stops@)));
        let keys: Vec<&str> = if radial {
            vec!["cx", "cy", "r"]
        } else {
            vec!["x1", "y1", "x2", "y2"]
        };
        assert(crate::text::str_views(keys@) =~= head_keys(radial));
        let mut head: Vec<String> = Vec::new();
        head.push(copy_str(if radial { "rad: 1" } else { "lin: 1" }));
        push_slot_part(&mut head, "s", own);
        let ghost hd = crate::text::string_views(head@);
        let ghost kv = head_keys(radial);
        let mut j: usize = 0;
        while j < keys.len()
            invariant
                pre == (spec_lookup(defs_view(old(self).defs@), v@, "paint"@) == Ok::<NodeV, Seq<char>>(dv)
                    && (dv.tag == "radialGradient"@ || dv.tag == "linearGradient"@)
                    && radial == (dv.tag == "radialGradient"@)
                    && bound_self == (prim(b, dv) is Some)
                    && own == prim(b, dv)
                    && gradient_attrs(dv.tag, radial, dv.attrs, 0, seq![], None, false) == Ok::<
                        (Seq<(Seq<char>, Seq<char>)>, Option<Seq<char>>, bool),
                        Seq<char>,
                    >((attr_views(coords@), opt_view(gt), true))),
                pre,
                dv == node_view(*def),
                b == old(self).bound@,
                self.defs == old(self).defs,
                self.bound == old(self).bound,
                self.slots@ == s0 + own_slot(dv) + slots_of(dv.children, dv.children.len() as int),
                s0 == old(self).slots@,
                stops_from(b, dv.children, 0, seq![]) == Ok::<Seq<Seq<char>>, Seq<char>>(crate::text::string_views(stops@)),
                hd == seq![(if radial { "rad: 1"@ } else { "lin: 1"@ })] + slot_part("s"@, own),
                kv == head_keys(radial),
                kv == crate::text::str_views(keys@),
                j <= keys@.len(),
                coords_in_order(dv.tag, attr_views(coords@), kv, bound_self, j as int) matches Ok(cs)
                    && crate::text::string_views(head@) == hd + cs,
                dv.tag == def.tag@,
            decreases keys@.len() - j,
        {
                reveal(spec_gradient);
            let k = keys[j];
            let val = match coord_of(&coords, k) {
                Some(x) => x,
                None => if bound_self {
                    copy_str("0")
                } else {
                    let mut m = String::new();
                    push_str(&mut m, "<");
                    push_str(&mut m, def.tag.as_str());
                    push_str(&mut m, "> without `");
                    push_str(&mut m, k);
                    push_str(&mut m, "`");
                    proof {
                        lemma_coords_stop(dv.tag, attr_views(coords@), kv, bound_self, j as int + 1);
                    }
                    return Err(m);
                },
            };
            let ghost o = crate::text::string_views(head@);
            head.push(entry_str(k, val.as_str()));
            assert(crate::text::string_views(head@) =~= o.push(entry(k@, val@)));
            j += 1;
        }
        let mut out = String::new();
        push_str(&mut out, "{ ");
        crate::text::push_joined_strings(&mut out, head.as_slice(), ", ");
        push_str(&mut out, ", st: [");
        crate::text::push_joined_strings(&mut out, stops.as_slice(), ", ");
        push_str(&mut out, "]");
        if let Some(m) = gt {
            push_str(&mut out, ", gt: ");
            push_str(&mut out, m.as_str());
        }
        push_str(&mut out, " }");
        Ok(out)
    }
}

proof fn lemma_coords_stop(tag: Seq<char>, coords: Seq<(Seq<char>, Seq<char>)>, keys: Seq<Seq<char>>, bound_self: bool, n: int)
    requires
        0 <= n <= keys.len(),
        coords_in_order(tag, coords, keys, bound_self, n) is Err,
    ensures
        coords_in_order(tag, coords, keys, bound_self, keys.len() as int) == coords_in_order(tag, coords, keys, bound_self, n),
    decreases keys.len() - n,
{
    if n < keys.len() {
        lemma_coords_stop(tag, coords, keys, bound_self, n + 1);
    }
}

// ---------------------------------------------------------------------------
// Drawables: specification
// ---------------------------------------------------------------------------

/// What lowering reads besides the node: the resource index and the slots
/// bindings write.
pub struct Cx {
    pub defs: Seq<(Seq<char>, NodeV)>,
    pub bound: Seq<usize>,
}

/// `s` without the prefix `p`, when it starts with it.
pub open spec fn strip_prefix(s: Seq<char>, p: Seq<char>) -> Option<Seq<char>> {
    if crate::text::starts_with(s, p) {
        Some(s.skip(p.len() as int))
    } else {
        None
    }
}

/// The first place from `i` on where `p` occurs in `s`.
pub open spec fn first_at(s: Seq<char>, p: Seq<char>, i: int) -> Option<int>
    decreases s.len() + 1 - i,
{
    if i < 0 || i > s.len() {
        None
    } else if crate::text::has_at(s, i, p) {
        Some(i)
    } else {
        first_at(s, p, i + 1)
    }
}

/// What an accumulating shape lowering has gathered: the head entries, the
/// geometry (the last write of each key wins), the paint entries, the fill
/// (`Some` of nothing for `none`) and even-odd filling.
pub struct ShapeAcc {
    pub head: Seq<Seq<char>>,
    pub geo: Seq<(Seq<char>, Seq<char>)>,
    pub paint: Seq<Seq<char>>,
    pub fill: Option<Seq<char>>,
    pub eo: bool,
}

/// A drawable's `style` declarations from `j` on, for a shape: only
/// `display:none` lowers.
pub open spec fn shape_style(decls: Seq<Seq<char>>, j: int, head: Seq<Seq<char>>) -> Result<Seq<Seq<char>>, Seq<char>>
    decreases decls.len() - j,
{
    if j < 0 || j >= decls.len() {
        Ok(head)
    } else if decls[j].len() == 0 {
        shape_style(decls, j + 1, head)
    } else if decls[j] == "display:none"@ {
        shape_style(decls, j + 1, head.push("hd: 1"@))
    } else {
        Err("unsupported style `"@ + decls[j] + "` in the skia-aot target"@)
    }
}

/// The first dash length from `j` on that is not a number.
pub open spec fn dash_check(parts: Seq<Seq<char>>, j: int) -> Option<Seq<char>>
    decreases parts.len() - j,
{
    if j < 0 || j >= parts.len() {
        None
    } else if !crate::backend::skia::parses_as_float(parts[j]) {
        Some(num_error(parts[j], "stroke-dasharray"@))
    } else {
        dash_check(parts, j + 1)
    }
}

/// A paint value: a gradient reference lowered inline, or a colour literal.
pub open spec fn paint_value(cx: Cx, key: Seq<char>, v: Seq<char>) -> Result<(Seq<char>, Seq<usize>), Seq<char>> {
    if crate::text::starts_with(v, "url("@) {
        match spec_gradient(cx.defs, cx.bound, v) {
            Err(m) => Err(m),
            Ok((t, sl)) => Ok((entry(key, t), sl)),
        }
    } else {
        Ok((entry(key, crate::backend::emit::spec_js_string(v)), seq![]))
    }
}

/// One attribute of a shape gathered into `st`, with the slots it
/// registers, or its refusal. `k` is the shape kind: 1 path, 2 rect, 3
/// ellipse.
#[verifier::opaque]
pub open spec fn shape_step(cx: Cx, tag: Seq<char>, k: int, key: Seq<char>, v: Seq<char>, st: ShapeAcc) -> Result<(ShapeAcc, Seq<usize>), Seq<char>> {
    let num = crate::backend::skia::parses_as_float(v);
    let none = Seq::<usize>::empty();
    if key == "transform"@ {
        match crate::backend::skia::spec_transform9(v) {
            Err(m) => Err(m),
            Ok(t) => Ok((ShapeAcc { head: st.head.push(entry("m"@, t)), ..st }, none)),
        }
    } else if key == "opacity"@ {
        if num {
            Ok((ShapeAcc { head: st.head.push(entry("o"@, v)), ..st }, none))
        } else {
            Err(num_error(v, "opacity"@))
        }
    } else if key == "display"@ && v == "none"@ {
        Ok((ShapeAcc { head: st.head.push("hd: 1"@), ..st }, none))
    } else if key == "style"@ {
        match shape_style(crate::text::split_on(v, ';'), 0, st.head) {
            Err(m) => Err(m),
            Ok(h) => Ok((ShapeAcc { head: h, ..st }, none)),
        }
    } else if key == "d"@ && k == 1 {
        Ok((ShapeAcc { head: st.head.push(entry("d"@, crate::backend::emit::spec_js_string(v))), ..st }, none))
    } else if key == "fill-rule"@ || key == "clip-rule"@ {
        if v == "evenodd"@ {
            Ok((ShapeAcc { eo: true, ..st }, none))
        } else if v == "nonzero"@ {
            Ok((ShapeAcc { eo: false, ..st }, none))
        } else {
            Err("unsupported fill rule `"@ + v + "`"@)
        }
    } else if ((key == "x"@ || key == "y"@ || key == "width"@ || key == "height"@) && k == 2)
        || ((key == "rx"@ || key == "ry"@) && k >= 2) || ((key == "cx"@ || key == "cy"@) && k == 3) {
        if num {
            let g = if key == "width"@ { "w"@ } else if key == "height"@ { "h"@ } else { key };
            Ok((ShapeAcc { geo: st.geo.push((g, v)), ..st }, none))
        } else {
            Err(num_error(v, key))
        }
    } else if key == "fill"@ {
        if v == "none"@ {
            Ok((ShapeAcc { fill: Some(seq![]), ..st }, none))
        } else {
            match paint_value(cx, "f"@, v) {
                Err(m) => Err(m),
                Ok((t, sl)) => Ok((ShapeAcc { fill: Some(t), ..st }, sl)),
            }
        }
    } else if key == "stroke"@ {
        if v == "none"@ {
            Ok((st, none))
        } else {
            match paint_value(cx, "sc"@, v) {
                Err(m) => Err(m),
                Ok((t, sl)) => Ok((ShapeAcc { paint: st.paint.push(t), ..st }, sl)),
            }
        }
    } else if key == "fill-opacity"@ || key == "stroke-opacity"@ || key == "stroke-width"@
        || key == "stroke-miterlimit"@ || key == "stroke-dashoffset"@ {
        if num {
            let short = if key == "fill-opacity"@ { "fo"@ } else if key == "stroke-opacity"@ { "so"@ }
                else if key == "stroke-width"@ { "sw"@ } else if key == "stroke-miterlimit"@ { "ml"@ } else { "doff"@ };
            Ok((ShapeAcc { paint: st.paint.push(entry(short, v)), ..st }, none))
        } else {
            Err(num_error(v, key))
        }
    } else if key == "stroke-linecap"@ {
        if v == "butt"@ {
            Ok((st, none))
        } else if v == "round"@ {
            Ok((ShapeAcc { paint: st.paint.push("cap: 1"@), ..st }, none))
        } else if v == "square"@ {
            Ok((ShapeAcc { paint: st.paint.push("cap: 2"@), ..st }, none))
        } else {
            Err("unsupported stroke-linecap `"@ + v + "`"@)
        }
    } else if key == "stroke-linejoin"@ {
        if v == "miter"@ {
            Ok((st, none))
        } else if v == "round"@ {
            Ok((ShapeAcc { paint: st.paint.push("join: 1"@), ..st }, none))
        } else if v == "bevel"@ {
            Ok((ShapeAcc { paint: st.paint.push("join: 2"@), ..st }, none))
        } else {
            Err("unsupported stroke-linejoin `"@ + v + "`"@)
        }
    } else if key == "stroke-dasharray"@ {
        let parts = crate::text::split_on(v, ' ');
        match dash_check(parts, 0) {
            Some(m) => Err(m),
            None => Ok((ShapeAcc { paint: st.paint.push("da: ["@ + crate::text::joined(parts, ", "@) + "]"@), ..st }, none)),
        }
    } else if key == "paint-order"@ {
        if v == "stroke"@ {
            Ok((ShapeAcc { paint: st.paint.push("po: 1"@), ..st }, none))
        } else {
            Err("unsupported paint-order `"@ + v + "`"@)
        }
    } else {
        Err(cannot_attr(tag, key))
    }
}

/// A shape's attributes from `i` on, gathered into `st` with the slots they
/// register, or the first refusal.
pub open spec fn shape_attrs(cx: Cx, tag: Seq<char>, k: int, a: Seq<(Seq<char>, Seq<char>)>, i: int, st: ShapeAcc, slots: Seq<usize>) -> Result<
    (ShapeAcc, Seq<usize>),
    Seq<char>,
>
    decreases a.len() - i,
{
    if i < 0 || i >= a.len() {
        Ok((st, slots))
    } else {
        match shape_step(cx, tag, k, a[i].0, a[i].1, st) {
            Err(m) => Err(m),
            Ok((st2, sl)) => shape_attrs(cx, tag, k, a, i + 1, st2, slots + sl),
        }
    }
}

/// A geometry value, `0` by SVG's default when it was not written (an
/// attribute animated from the first frame is not baked).
pub open spec fn geo_or0(geo: Seq<(Seq<char>, Seq<char>)>, key: Seq<char>) -> Seq<char> {
    match coord(geo, key, geo.len() as int) {
        Some(v) => v,
        None => "0"@,
    }
}

/// A geometry entry, only when it was written.
pub open spec fn geo_opt(geo: Seq<(Seq<char>, Seq<char>)>, key: Seq<char>) -> Seq<Seq<char>> {
    match coord(geo, key, geo.len() as int) {
        Some(v) => seq![entry(key, v)],
        None => seq![],
    }
}

/// The geometry entries in key order: a rect's box (corner radii when
/// written), an ellipse's centre and radii, nothing for a path.
pub open spec fn geo_entries(k: int, geo: Seq<(Seq<char>, Seq<char>)>) -> Seq<Seq<char>> {
    if k == 2 {
        seq![entry("h"@, geo_or0(geo, "h"@))] + geo_opt(geo, "rx"@) + geo_opt(geo, "ry"@) + seq![
            entry("w"@, geo_or0(geo, "w"@)),
            entry("x"@, geo_or0(geo, "x"@)),
            entry("y"@, geo_or0(geo, "y"@)),
        ]
    } else if k == 3 {
        seq![
            entry("cx"@, geo_or0(geo, "cx"@)),
            entry("cy"@, geo_or0(geo, "cy"@)),
            entry("rx"@, geo_or0(geo, "rx"@)),
            entry("ry"@, geo_or0(geo, "ry"@)),
        ]
    } else {
        seq![]
    }
}

/// The shape kind of a drawable tag: 1 path, 2 rect, 3 ellipse.
pub open spec fn shape_kind(tag: Seq<char>) -> int {
    if tag == "path"@ {
        1
    } else if tag == "rect"@ {
        2
    } else {
        3
    }
}

/// A `<path>`, `<rect>` or `<ellipse>` as a display-list node, indented by
/// `pad`, and the slots its paints register. SVG paints black when `fill` is
/// absent; `fill="none"` omits the fill.
#[verifier::opaque]
pub open spec fn spec_shape(cx: Cx, n: NodeV, pad: Seq<char>) -> Result<(Seq<char>, Seq<usize>), Seq<char>> {
    if n.children.len() > 0 {
        Err("unexpected children inside <"@ + n.tag + ">"@)
    } else {
        let k = shape_kind(n.tag);
        let head = seq![entry("k"@, crate::text::decimal(k as nat))] + slot_part("s"@, prim(cx.bound, n));
        let st = ShapeAcc { head, geo: seq![], paint: seq![], fill: None, eo: false };
        match shape_attrs(cx, n.tag, k, n.attrs, 0, st, seq![]) {
            Err(m) => Err(m),
            Ok((f, slots)) => Ok((shape_text(f, k, pad), slots)),
        }
    }
}

/// A gathered shape as its display-list node: the head, even-odd filling and
/// geometry entries, then the paint with its fill first.
#[verifier::opaque]
pub open spec fn shape_text(f: ShapeAcc, k: int, pad: Seq<char>) -> Seq<char> {
    let h = f.head + (if f.eo { seq!["eo: 1"@] } else { seq![] }) + geo_entries(k, f.geo);
    let paint = match f.fill {
        None => seq!["f: '#000'"@] + f.paint,
        Some(x) => if x.len() == 0 {
            f.paint
        } else {
            seq![x] + f.paint
        },
    };
    pad + "{ "@ + crate::text::joined(h, ", "@) + ", paint: { "@ + crate::text::joined(paint, ", "@) + " } }"@
}

/// A base64 alphabet character.
pub open spec fn b64_char(c: char) -> bool {
    crate::text::ascii_alnum(c) || c == '+' || c == '/' || c == '='
}

/// The payload of an embedded `data:…;base64,…` source, when it is one a
/// single-quoted literal can carry verbatim.
pub open spec fn embedded(v: Seq<char>) -> Option<Seq<char>> {
    match strip_prefix(v, "data:"@) {
        None => None,
        Some(rest) => match first_at(rest, ";base64,"@, 0) {
            None => None,
            Some(j) => {
                let b = rest.skip(j + 8);
                if b.len() > 0 && forall|q: int| 0 <= q < b.len() ==> b64_char(#[trigger] b[q]) {
                    Some(b)
                } else {
                    None
                }
            },
        },
    }
}

/// An `<image>`'s attributes from `i` on: its size and payload (the last of
/// each wins), or the first refusal.
pub open spec fn image_attrs(
    a: Seq<(Seq<char>, Seq<char>)>,
    i: int,
    r: (Option<Seq<char>>, Option<Seq<char>>, Option<Seq<char>>),
) -> Result<(Option<Seq<char>>, Option<Seq<char>>, Option<Seq<char>>), Seq<char>>
    decreases a.len() - i,
{
    if i < 0 || i >= a.len() {
        Ok(r)
    } else {
        let (k, v) = a[i];
        if k == "width"@ || k == "height"@ {
            if !crate::backend::skia::parses_as_float(v) {
                Err(num_error(v, k))
            } else if k == "width"@ {
                image_attrs(a, i + 1, (Some(v), r.1, r.2))
            } else {
                image_attrs(a, i + 1, (r.0, Some(v), r.2))
            }
        } else if k == "preserveAspectRatio"@ {
            if v == "xMidYMid slice"@ {
                image_attrs(a, i + 1, r)
            } else {
                Err("unsupported preserveAspectRatio `"@ + v + "` in the skia-aot target"@)
            }
        } else if k == "href"@ {
            match embedded(v) {
                Some(b) => image_attrs(a, i + 1, (r.0, r.1, Some(b))),
                None => Err("the skia-aot target cannot draw a non-embedded image source"@),
            }
        } else {
            Err(cannot_attr("image"@, k))
        }
    }
}

/// An `<image>` as a display-list node, indented by `pad`: only an embedded
/// source lowers, since an external URL has no loader inside a
/// self-contained worklet module.
#[verifier::opaque]
pub open spec fn spec_image(n: NodeV, pad: Seq<char>) -> Result<Seq<char>, Seq<char>> {
    if n.children.len() > 0 {
        Err("unexpected children inside <image>"@)
    } else {
        match image_attrs(n.attrs, 0, (None, None, None)) {
            Err(m) => Err(m),
            Ok((Some(w), Some(h), Some(u))) => Ok(pad + "{ k: 4, w: "@ + w + ", h: "@ + h + ", u: '"@ + u + "' }"@),
            Ok(_) => Err("<image> without width/height/href"@),
        }
    }
}

/// A group's `style` declarations from `j` on, appended to `acc`.
pub open spec fn group_style(decls: Seq<Seq<char>>, j: int, acc: Seq<char>) -> Result<Seq<char>, Seq<char>>
    decreases decls.len() - j,
{
    if j < 0 || j >= decls.len() {
        Ok(acc)
    } else if decls[j].len() == 0 || decls[j] == "overflow:hidden"@ {
        group_style(decls, j + 1, acc)
    } else if decls[j] == "display:none"@ {
        group_style(decls, j + 1, acc + ", hd: 1"@)
    } else {
        match strip_prefix(decls[j], "mix-blend-mode:"@) {
            Some(kw) => match crate::backend::skia::spec_blend_mode(kw) {
                Some(b) => group_style(decls, j + 1, acc + ", bm: "@ + crate::text::decimal(b as nat)),
                None => Err("unsupported mix-blend-mode `"@ + kw + "`"@),
            },
            None => Err("unsupported style `"@ + decls[j] + "` in the skia-aot target"@),
        }
    }
}

/// A `<mask>`'s attributes from `i` on: whether it is a luminance mask, or
/// the first refusal. Its region is dropped: the compiler omits it or writes
/// the full viewport at the origin.
pub open spec fn mask_attrs(a: Seq<(Seq<char>, Seq<char>)>, i: int, luma: bool) -> Result<bool, Seq<char>>
    decreases a.len() - i,
{
    if i < 0 || i >= a.len() {
        Ok(luma)
    } else {
        let (k, v) = a[i];
        if k == "id"@ || (k == "maskUnits"@ && v == "userSpaceOnUse"@) || ((k == "x"@ || k == "y"@) && v == "0"@) {
            mask_attrs(a, i + 1, luma)
        } else if (k == "mask-type"@ || k == "maskType"@) && v == "alpha"@ {
            mask_attrs(a, i + 1, false)
        } else if (k == "mask-type"@ || k == "maskType"@) && v == "luminance"@ {
            mask_attrs(a, i + 1, true)
        } else if k == "width"@ || k == "height"@ {
            if crate::backend::skia::parses_as_float(v) {
                mask_attrs(a, i + 1, luma)
            } else {
                Err(num_error(v, k))
            }
        } else {
            Err("the skia-aot target cannot lower <mask "@ + k + "=\""@ + v + "\">"@)
        }
    }
}

/// Whether a drawable child follows position `j`.
pub open spec fn drawn_after(cs: Seq<NodeV>, j: int) -> bool {
    exists|m: int| j <= m < cs.len() && !def_tag(#[trigger] cs[m].tag)
}

/// Whether every child is a definition.
pub open spec fn all_defs(cs: Seq<NodeV>) -> bool {
    forall|m: int| 0 <= m < cs.len() ==> def_tag(#[trigger] cs[m].tag)
}

/// What is said when mask references nest deeper than there are
/// definitions: one of them refers back to itself.
pub open spec fn cycle_error() -> Seq<char> {
    "mask references form a cycle in the skia-aot target"@
}

/// A node of the drawable tree, and the slots it registers.
pub open spec fn node_dl(cx: Cx, n: NodeV, pad: Seq<char>, budget: nat) -> Result<(Seq<char>, Seq<usize>), Seq<char>>
    decreases budget, 1int, n, 1int, 0int,
{
    if n.tag == "g"@ {
        let head = pad + "{ k: 0"@ + match prim(cx.bound, n) {
            Some(s) => ", s: "@ + crate::text::decimal(s as nat),
            None => seq![],
        };
        match group_attrs(cx, n, 0, pad, budget, head, own_slot(n)) {
            Err(m) => Err(m),
            Ok((t, sl)) => if all_defs(n.children) {
                Ok((t + ", c: [] }"@, sl))
            } else {
                match list_dl(cx, n.children, n.children.len() as int, pad + "  "@, budget) {
                    Err(m) => Err(m),
                    Ok((t2, sl2)) => Ok((t + ", c: [\n"@ + t2 + pad + "] }"@, sl + sl2)),
                }
            },
        }
    } else if n.tag == "path"@ || n.tag == "rect"@ || n.tag == "ellipse"@ {
        match spec_shape(cx, n, pad) {
            Err(m) => Err(m),
            Ok((t, sl)) => Ok((t, own_slot(n) + sl)),
        }
    } else if n.tag == "image"@ {
        match spec_image(n, pad) {
            Err(m) => Err(m),
            Ok(t) => Ok((t, own_slot(n))),
        }
    } else {
        Err(cannot(n.tag))
    }
}

/// A group's attributes from `i` on, appended to `acc`, and the slots they
/// register.
pub open spec fn group_attrs(cx: Cx, n: NodeV, i: int, pad: Seq<char>, budget: nat, acc: Seq<char>, slots: Seq<usize>) -> Result<
    (Seq<char>, Seq<usize>),
    Seq<char>,
>
    decreases budget, 1int, n, 0int, n.attrs.len() - i,
{
    if i < 0 || i >= n.attrs.len() {
        Ok((acc, slots))
    } else {
        let (k, v) = n.attrs[i];
        if k == "transform"@ {
            match crate::backend::skia::spec_transform9(v) {
                Err(m) => Err(m),
                Ok(t) => group_attrs(cx, n, i + 1, pad, budget, acc + ", m: "@ + t, slots),
            }
        } else if k == "opacity"@ {
            if crate::backend::skia::parses_as_float(v) {
                group_attrs(cx, n, i + 1, pad, budget, acc + ", o: "@ + v, slots)
            } else {
                Err(num_error(v, "opacity"@))
            }
        } else if k == "display"@ && v == "none"@ {
            group_attrs(cx, n, i + 1, pad, budget, acc + ", hd: 1"@, slots)
        } else if k == "style"@ {
            match group_style(crate::text::split_on(v, ';'), 0, acc) {
                Err(m) => Err(m),
                Ok(a2) => group_attrs(cx, n, i + 1, pad, budget, a2, slots),
            }
        } else if k == "clip-path"@ {
            match spec_clip(cx.defs, cx.bound, v) {
                Err(m) => Err(m),
                Ok((t, sl)) => group_attrs(cx, n, i + 1, pad, budget, acc + ", clip: "@ + t, slots + sl),
            }
        } else if k == "mask"@ {
            match mask_dl(cx, v, pad, budget) {
                Err(m) => Err(m),
                Ok((t, sl)) => group_attrs(cx, n, i + 1, pad, budget, acc + ", mask: "@ + t, slots + sl),
            }
        } else if k == "filter"@ {
            match spec_filter(cx.defs, cx.bound, v) {
                Err(m) => Err(m),
                Ok((t, sl)) => group_attrs(cx, n, i + 1, pad, budget, acc + ", "@ + t, slots + sl),
            }
        } else {
            Err(cannot_attr("g"@, k))
        }
    }
}

/// `mask="url(#id)"` as `{ luma?: 1, c: [..] }`, and the slots its content
/// registers. Each resolution spends one unit of `budget`.
pub open spec fn mask_dl(cx: Cx, v: Seq<char>, pad: Seq<char>, budget: nat) -> Result<(Seq<char>, Seq<usize>), Seq<char>>
    decreases budget, 0int, v, 0int, 0int,
{
    match spec_lookup(cx.defs, v, "mask"@) {
        Err(m) => Err(m),
        Ok(def) => if def.tag != "mask"@ {
            Err("`"@ + v + "` does not name a <mask>"@)
        } else {
            match mask_attrs(def.attrs, 0, true) {
                Err(m) => Err(m),
                Ok(luma) => if budget == 0 {
                    Err(cycle_error())
                } else {
                    match list_dl(cx, def.children, def.children.len() as int, pad + "  "@, (budget - 1) as nat) {
                        Err(m) => Err(m),
                        Ok((t, sl)) => Ok((
                            (if luma { "{ luma: 1, c: [\n"@ } else { "{ c: [\n"@ }) + t + pad + "] }"@,
                            sl,
                        )),
                    }
                },
            }
        },
    }
}

/// The first `k` children as drawable nodes, one per line, definitions
/// skipped, and the slots they register.
pub open spec fn list_dl(cx: Cx, cs: Seq<NodeV>, k: int, pad: Seq<char>, budget: nat) -> Result<(Seq<char>, Seq<usize>), Seq<char>>
    decreases budget, 1int, cs, k, 0int,
{
    if k <= 0 || k > cs.len() {
        Ok((seq![], seq![]))
    } else {
        match list_dl(cx, cs, k - 1, pad, budget) {
            Err(m) => Err(m),
            Ok((t, sl)) => if def_tag(cs[k - 1].tag) {
                Ok((t, sl))
            } else {
                match node_dl(cx, cs[k - 1], pad, budget) {
                    Err(m) => Err(m),
                    Ok((t2, sl2)) => Ok((t + t2 + (if drawn_after(cs, k) { ",\n"@ } else { "\n"@ }), sl + sl2)),
                }
            },
        }
    }
}

// ---------------------------------------------------------------------------
// Drawables: lowering
// ---------------------------------------------------------------------------

impl<'a> Lower<'a> {
    /// The resource index and bound slots this lowering reads.
    pub open spec fn cx(&self) -> Cx {
        Cx { defs: defs_view(self.defs@), bound: self.bound@ }
    }
}

fn split_semis(v: &str) -> (r: Vec<Vec<char>>)
    ensures
        views(r@) == crate::text::split_on(v@, ';'),
{
    let p = crate::text::split_chars(chars_of(v).as_slice(), ';');
    assert(views(p@) =~= p@.map_values(|v: Vec<char>| v@));
    p
}

fn split_spaces(v: &str) -> (r: Vec<Vec<char>>)
    ensures
        views(r@) == crate::text::split_on(v@, ' '),
{
    let p = crate::text::split_chars(chars_of(v).as_slice(), ' ');
    assert(views(p@) =~= p@.map_values(|v: Vec<char>| v@));
    p
}

fn shape_style_exec(v: &str, head: &mut Vec<String>) -> (r: Result<(), String>)
    ensures
        match shape_style(crate::text::split_on(v@, ';'), 0, crate::text::string_views(old(head)@)) {
            Ok(h) => r is Ok && crate::text::string_views(final(head)@) == h,
            Err(m) => r matches Err(x) && x@ == m,
        },
{
    let decls = split_semis(v);
    let ghost dv = views(decls@);
    let ghost start = crate::text::string_views(head@);
    let mut j: usize = 0;
    while j < decls.len()
        invariant
            dv == views(decls@),
            dv == crate::text::split_on(v@, ';'),
            start == crate::text::string_views(old(head)@),
            j <= decls@.len(),
            shape_style(dv, 0, start) == shape_style(dv, j as int, crate::text::string_views(head@)),
        decreases decls@.len() - j,
    {
        let d = crate::text::string_of(decls[j].as_slice());
        assert(d@ == dv[j as int]);
        if decls[j].len() == 0 {
        } else if str_eq(d.as_str(), "display:none") {
            let ghost o = crate::text::string_views(head@);
            head.push(copy_str("hd: 1"));
            assert(crate::text::string_views(head@) =~= o.push("hd: 1"@));
        } else {
            return Err(msg3("unsupported style `", d.as_str(), "` in the skia-aot target"));
        }
        j += 1;
    }
    Ok(())
}

fn dash_exec(v: &str) -> (r: Result<String, String>)
    ensures
        match dash_check(crate::text::split_on(v@, ' '), 0) {
            Some(m) => r matches Err(x) && x@ == m,
            None => r matches Ok(x) && x@ == "da: ["@ + crate::text::joined(crate::text::split_on(v@, ' '), ", "@) + "]"@,
        },
{
    let parts = split_spaces(v);
    let ghost pv = views(parts@);
    let mut j: usize = 0;
    while j < parts.len()
        invariant
            pv == views(parts@),
            pv == crate::text::split_on(v@, ' '),
            j <= parts@.len(),
            dash_check(pv, 0) == dash_check(pv, j as int),
        decreases parts@.len() - j,
    {
        let w = crate::text::string_of(parts[j].as_slice());
        assert(w@ == pv[j as int]);
        if let Err(m) = crate::backend::skia::num(w.as_str(), "stroke-dasharray") {
            return Err(m);
        }
        j += 1;
    }
    let mut out = String::new();
    push_str(&mut out, "da: [");
    crate::text::push_joined_chars(&mut out, parts.as_slice(), ", ");
    assert(parts@.map_values(|v: Vec<char>| v@) =~= pv);
    push_str(&mut out, "]");
    Ok(out)
}

fn geo_value(geo: &Vec<(String, String)>, key: &str) -> (r: String)
    ensures
        r@ == geo_or0(attr_views(geo@), key@),
{
    match coord_of(geo, key) {
        Some(v) => v,
        None => copy_str("0"),
    }
}

fn push_geo(out: &mut Vec<String>, geo: &Vec<(String, String)>, key: &str)
    ensures
        crate::text::string_views(final(out)@) == crate::text::string_views(old(out)@).push(entry(key@, geo_or0(attr_views(geo@), key@))),
{
    let v = geo_value(geo, key);
    let ghost o = crate::text::string_views(out@);
    out.push(entry_str(key, v.as_str()));
    assert(crate::text::string_views(out@) =~= o.push(entry(key@, geo_or0(attr_views(geo@), key@))));
}

fn push_geo_opt(out: &mut Vec<String>, geo: &Vec<(String, String)>, key: &str)
    ensures
        crate::text::string_views(final(out)@) == crate::text::string_views(old(out)@) + geo_opt(attr_views(geo@), key@),
{
    let ghost o = crate::text::string_views(out@);
    match coord_of(geo, key) {
        Some(v) => {
            out.push(entry_str(key, v.as_str()));
            assert(crate::text::string_views(out@) =~= o + geo_opt(attr_views(geo@), key@));
        },
        None => {
            assert(crate::text::string_views(out@) =~= o + geo_opt(attr_views(geo@), key@));
        },
    }
}

fn push_geo_entries(out: &mut Vec<String>, k: u32, geo: &Vec<(String, String)>)
    ensures
        crate::text::string_views(final(out)@) == crate::text::string_views(old(out)@) + geo_entries(k as int, attr_views(geo@)),
{
    let ghost o = crate::text::string_views(out@);
    let ghost g = attr_views(geo@);
    if k == 2 {
        push_geo(out, geo, "h");
        push_geo_opt(out, geo, "rx");
        push_geo_opt(out, geo, "ry");
        push_geo(out, geo, "w");
        push_geo(out, geo, "x");
        push_geo(out, geo, "y");
        assert(crate::text::string_views(out@) =~= o + geo_entries(k as int, g));
    } else if k == 3 {
        push_geo(out, geo, "cx");
        push_geo(out, geo, "cy");
        push_geo(out, geo, "rx");
        push_geo(out, geo, "ry");
        assert(crate::text::string_views(out@) =~= o + geo_entries(k as int, g));
    } else {
        assert(crate::text::string_views(out@) =~= o + geo_entries(k as int, g));
    }
}

/// A shape lowering in progress.
pub struct ShapeState {
    pub head: Vec<String>,
    pub geo: Vec<(String, String)>,
    pub paint: Vec<String>,
    pub fill: Option<String>,
    pub eo: bool,
}

/// What a shape lowering in progress has gathered.
pub open spec fn state_view(s: ShapeState) -> ShapeAcc {
    ShapeAcc {
        head: crate::text::string_views(s.head@),
        geo: attr_views(s.geo@),
        paint: crate::text::string_views(s.paint@),
        fill: opt_view(s.fill),
        eo: s.eo,
    }
}

impl<'a> Lower<'a> {
    /// A paint value: a gradient lowered inline, or a colour literal.
    fn paint_js(&mut self, key: &str, v: &str) -> (r: Result<String, String>)
        ensures
            final(self).defs == old(self).defs,
            final(self).bound == old(self).bound,
            match paint_value(old(self).cx(), key@, v@) {
                Ok((t, sl)) => r matches Ok(x) && x@ == t && final(self).slots@ == old(self).slots@ + sl,
                Err(m) => r matches Err(x) && x@ == m,
            },
    {
        let vs = chars_of(v);
        if crate::text::str_at(vs.as_slice(), 0, "url(") {
            match self.gradient_js(v) {
                Ok(t) => Ok(entry_str(key, t.as_str())),
                Err(m) => Err(m),
            }
        } else {
            let q = crate::backend::emit::js_string(v);
            assert(self.slots@ =~= old(self).slots@ + Seq::<usize>::empty());
            Ok(entry_str(key, q.as_str()))
        }
    }
}

fn is_geo_key(key: &str, k: u32) -> (r: bool)
    ensures
        r == (((key@ == "x"@ || key@ == "y"@ || key@ == "width"@ || key@ == "height"@) && k == 2)
            || ((key@ == "rx"@ || key@ == "ry"@) && k >= 2) || ((key@ == "cx"@ || key@ == "cy"@) && k == 3)),
{
    ((str_eq(key, "x") || str_eq(key, "y") || str_eq(key, "width") || str_eq(key, "height")) && k == 2)
        || ((str_eq(key, "rx") || str_eq(key, "ry")) && k >= 2) || ((str_eq(key, "cx") || str_eq(key, "cy")) && k == 3)
}

fn paint_short(key: &str) -> (r: &'static str)
    ensures
        r@ == (if key@ == "fill-opacity"@ { "fo"@ } else if key@ == "stroke-opacity"@ { "so"@ }
            else if key@ == "stroke-width"@ { "sw"@ } else if key@ == "stroke-miterlimit"@ { "ml"@ } else { "doff"@ }),
{
    if str_eq(key, "fill-opacity") {
        "fo"
    } else if str_eq(key, "stroke-opacity") {
        "so"
    } else if str_eq(key, "stroke-width") {
        "sw"
    } else if str_eq(key, "stroke-miterlimit") {
        "ml"
    } else {
        "doff"
    }
}

fn push_part(parts: &mut Vec<String>, t: String)
    ensures
        crate::text::string_views(final(parts)@) == crate::text::string_views(old(parts)@).push(t@),
{
    let ghost o = crate::text::string_views(parts@);
    parts.push(t);
    assert(crate::text::string_views(parts@) =~= o.push(t@));
}

impl<'a> Lower<'a> {
    /// One attribute of a shape.
    fn shape_attr(&mut self, st: &mut ShapeState, tag: &str, k: u32, key: &str, v: &str) -> (r: Result<(), String>)
        ensures
            final(self).defs == old(self).defs,
            final(self).bound == old(self).bound,
            match shape_step(old(self).cx(), tag@, k as int, key@, v@, state_view(*old(st))) {
                Ok((st2, sl)) => r is Ok && state_view(*final(st)) == st2 && final(self).slots@ == old(self).slots@ + sl,
                Err(m) => r matches Err(x) && x@ == m,
            },
    {
        let ghost s0 = self.slots@;
        let ghost v0 = state_view(*st);
        reveal(shape_step);
        if str_eq(key, "transform") {
            match crate::backend::skia::transform9(v) {
                Ok(t) => push_part(&mut st.head, entry_str("m", t.as_str())),
                Err(m) => {
                    return Err(m);
                },
            }
        } else if str_eq(key, "opacity") {
            if let Err(m) = crate::backend::skia::num(v, "opacity") {
                return Err(m);
            }
            push_part(&mut st.head, entry_str("o", v));
        } else if str_eq(key, "display") && str_eq(v, "none") {
            push_part(&mut st.head, copy_str("hd: 1"));
        } else if str_eq(key, "style") {
            if let Err(m) = shape_style_exec(v, &mut st.head) {
                return Err(m);
            }
        } else if str_eq(key, "d") && k == 1 {
            let q = crate::backend::emit::js_string(v);
            push_part(&mut st.head, entry_str("d", q.as_str()));
        } else if str_eq(key, "fill-rule") || str_eq(key, "clip-rule") {
            match crate::backend::skia::fill_rule_eo(v) {
                Ok(b) => {
                    st.eo = b;
                },
                Err(m) => {
                    return Err(m);
                },
            }
        } else if is_geo_key(key, k) {
            if let Err(m) = crate::backend::skia::num(v, key) {
                return Err(m);
            }
            let g = if str_eq(key, "width") {
                copy_str("w")
            } else if str_eq(key, "height") {
                copy_str("h")
            } else {
                copy_str(key)
            };
            let ghost o = attr_views(st.geo@);
            let ghost gv = g@;
            st.geo.push((g, copy_str(v)));
            assert(attr_views(st.geo@) =~= o.push((gv, v@)));
        } else if str_eq(key, "fill") {
            if str_eq(v, "none") {
                st.fill = Some(String::new());
                assert(opt_view(st.fill) == Some(Seq::<char>::empty()));
            } else {
                match self.paint_js("f", v) {
                    Ok(t) => {
                        st.fill = Some(t);
                    },
                    Err(m) => {
                        return Err(m);
                    },
                }
            }
        } else if str_eq(key, "stroke") {
            if !str_eq(v, "none") {
                match self.paint_js("sc", v) {
                    Ok(t) => push_part(&mut st.paint, t),
                    Err(m) => {
                        return Err(m);
                    },
                }
            }
        } else if str_eq(key, "fill-opacity") || str_eq(key, "stroke-opacity") || str_eq(key, "stroke-width")
            || str_eq(key, "stroke-miterlimit") || str_eq(key, "stroke-dashoffset") {
            if let Err(m) = crate::backend::skia::num(v, key) {
                return Err(m);
            }
            push_part(&mut st.paint, entry_str(paint_short(key), v));
        } else if str_eq(key, "stroke-linecap") {
            if str_eq(v, "butt") {
            } else if str_eq(v, "round") {
                push_part(&mut st.paint, copy_str("cap: 1"));
            } else if str_eq(v, "square") {
                push_part(&mut st.paint, copy_str("cap: 2"));
            } else {
                return Err(msg3("unsupported stroke-linecap `", v, "`"));
            }
        } else if str_eq(key, "stroke-linejoin") {
            if str_eq(v, "miter") {
            } else if str_eq(v, "round") {
                push_part(&mut st.paint, copy_str("join: 1"));
            } else if str_eq(v, "bevel") {
                push_part(&mut st.paint, copy_str("join: 2"));
            } else {
                return Err(msg3("unsupported stroke-linejoin `", v, "`"));
            }
        } else if str_eq(key, "stroke-dasharray") {
            match dash_exec(v) {
                Ok(t) => push_part(&mut st.paint, t),
                Err(m) => {
                    return Err(m);
                },
            }
        } else if str_eq(key, "paint-order") {
            if !str_eq(v, "stroke") {
                return Err(msg3("unsupported paint-order `", v, "`"));
            }
            push_part(&mut st.paint, copy_str("po: 1"));
        } else {
            return Err(cannot_msg(tag, key));
        }
        assert(self.slots@ =~= s0 + (match shape_step(old(self).cx(), tag@, k as int, key@, v@, v0) {
            Ok((_, sl)) => sl,
            Err(_) => Seq::<usize>::empty(),
        }));
        Ok(())
    }
}

impl<'a> Lower<'a> {
    /// A `<path>`, `<rect>` or `<ellipse>` as a display-list node.
    #[verifier::spinoff_prover]
    #[verifier::rlimit(40)]
    fn shape_js(&mut self, n: &Node, pad: &str, out: &mut String) -> (r: Result<(), String>)
        ensures
            final(self).defs == old(self).defs,
            final(self).bound == old(self).bound,
            match spec_shape(old(self).cx(), node_view(*n), pad@) {
                Ok((t, sl)) => r is Ok && final(out)@ == old(out)@ + t && final(self).slots@ == old(self).slots@ + sl,
                Err(m) => r matches Err(x) && x@ == m,
            },
    {
        reveal(spec_shape);
        let ghost nv = node_view(*n);
        let ghost cx = self.cx();
        let ghost s0 = self.slots@;
        if n.children.len() > 0 {
            return Err(msg3("unexpected children inside <", n.tag.as_str(), ">"));
        }
        let tag = n.tag.as_str();
        let k: u32 = if str_eq(tag, "path") {
            1
        } else if str_eq(tag, "rect") {
            2
        } else {
            3
        };
        assert(k as int == shape_kind(nv.tag));
        let mut st = ShapeState { head: Vec::new(), geo: Vec::new(), paint: Vec::new(), fill: None, eo: false };
        let kd = crate::text::decimal_string(k as u64);
        push_part(&mut st.head, entry_str("k", kd.as_str()));
        let slot = match n.slot {
            Some(s) => if self.is_bound(s) {
                Some(s)
            } else {
                None
            },
            None => None,
        };
        push_slot_part(&mut st.head, "s", slot);
        let ghost st0 = state_view(st);
        assert(st0 == (ShapeAcc {
            head: seq![entry("k"@, crate::text::decimal(k as nat))] + slot_part("s"@, prim(cx.bound, nv)),
            geo: seq![],
            paint: seq![],
            fill: None,
            eo: false,
        })) by {
            assert(attr_views(st.geo@) =~= Seq::<(Seq<char>, Seq<char>)>::empty());
            assert(crate::text::string_views(st.paint@) =~= Seq::<Seq<char>>::empty());
        }
        let ghost av = attr_views(n.attrs@);
        let ghost mut added: Seq<usize> = seq![];
        let mut i: usize = 0;
        while i < n.attrs.len()
            invariant
                nv == node_view(*n),
                av == attr_views(n.attrs@),
                nv.attrs == av,
                nv.children.len() == 0,
                k as int == shape_kind(nv.tag),
                st0 == (ShapeAcc {
                    head: seq![entry("k"@, crate::text::decimal(k as nat))] + slot_part("s"@, prim(cx.bound, nv)),
                    geo: seq![],
                    paint: seq![],
                    fill: None,
                    eo: false,
                }),
                tag@ == nv.tag,
                cx == old(self).cx(),
                self.defs == old(self).defs,
                self.bound == old(self).bound,
                self.slots@ == s0 + added,
                s0 == old(self).slots@,
                i <= n.attrs@.len(),
                shape_attrs(cx, nv.tag, k as int, av, 0, st0, seq![]) == shape_attrs(
                    cx,
                    nv.tag,
                    k as int,
                    av,
                    i as int,
                    state_view(st),
                    added,
                ),
            decreases n.attrs@.len() - i,
        {
                reveal(spec_shape);
            assert(av[i as int] == (n.attrs@[i as int].0@, n.attrs@[i as int].1@));
            let ghost before = state_view(st);
            match self.shape_attr(&mut st, tag, k, n.attrs[i].0.as_str(), n.attrs[i].1.as_str()) {
                Ok(()) => {},
                Err(m) => {
                    return Err(m);
                },
            }
            proof {
                added = added + shape_step(cx, nv.tag, k as int, av[i as int].0, av[i as int].1, before)->Ok_0.1;
            }
            i += 1;
        }
        assert(shape_attrs(cx, nv.tag, k as int, av, i as int, state_view(st), added) == Ok::<
            (ShapeAcc, Seq<usize>),
            Seq<char>,
        >((state_view(st), added)));
        shape_finish(st, k, pad, out);
        Ok(())
    }
}

#[verifier::spinoff_prover]
fn shape_finish(st: ShapeState, k: u32, pad: &str, out: &mut String)
    ensures
        final(out)@ == old(out)@ + shape_text(state_view(st), k as int, pad@),
{
    reveal(shape_text);
    let mut st = st;
    let ghost fin = state_view(st);
    if st.eo {
        push_part(&mut st.head, copy_str("eo: 1"));
    }
    assert(crate::text::string_views(st.head@) == fin.head + (if fin.eo { seq!["eo: 1"@] } else { seq![] }));
    push_geo_entries(&mut st.head, k, &st.geo);
    let mut pf: Vec<String> = Vec::new();
    match &st.fill {
        None => {
            push_part(&mut pf, copy_str("f: '#000'"));
        },
        Some(f) => {
            if chars_of(f.as_str()).len() > 0 {
                push_part(&mut pf, copy_str(f.as_str()));
            }
        },
    }
    let ghost pre = crate::text::string_views(pf@);
    let mut j: usize = 0;
    while j < st.paint.len()
        invariant
            j <= st.paint@.len(),
            crate::text::string_views(pf@) == pre + crate::text::string_views(st.paint@).take(j as int),
        decreases st.paint@.len() - j,
    {
        let t = copy_str(st.paint[j].as_str());
        push_part(&mut pf, t);
        assert(crate::text::string_views(st.paint@).take(j + 1) =~= crate::text::string_views(st.paint@).take(
            j as int,
        ).push(st.paint@[j as int]@));
        j += 1;
    }
    assert(crate::text::string_views(st.paint@).take(st.paint@.len() as int) =~= crate::text::string_views(st.paint@));
    push_str(out, pad);
    push_str(out, "{ ");
    crate::text::push_joined_strings(out, st.head.as_slice(), ", ");
    push_str(out, ", paint: { ");
    crate::text::push_joined_strings(out, pf.as_slice(), ", ");
    push_str(out, " } }");
}

fn find_first(s: &[char], p: &[char]) -> (r: Option<usize>)
    requires
        p@.len() > 0,
    ensures
        r matches Some(j) ==> first_at(s@, p@, 0) == Some(j as int) && j + p@.len() <= s@.len(),
        r is None ==> first_at(s@, p@, 0) is None,
{
    let mut j: usize = 0;
    while j < s.len()
        invariant
            p@.len() > 0,
            j <= s@.len(),
            first_at(s@, p@, 0) == first_at(s@, p@, j as int),
        decreases s@.len() - j,
    {
        if crate::text::chars_at(s, j, p) {
            return Some(j);
        }
        j += 1;
    }
    assert(!crate::text::has_at(s@, j as int, p@));
    assert(first_at(s@, p@, j + 1) is None);
    None
}

fn embedded_of(v: &str) -> (r: Option<String>)
    ensures
        opt_view(r) == embedded(v@),
{
    let s = chars_of(v);
    if !crate::text::str_at(s.as_slice(), 0, "data:") {
        return None;
    }
    proof {
        reveal_strlit("data:");
        reveal_strlit(";base64,");
    }
    assert("data:"@.len() == 5);
    assert(";base64,"@.len() == 8);
    let rest = crate::text::slice_chars(s.as_slice(), 5, s.len());
    assert(rest@ == v@.skip(5));
    let pat = chars_of(";base64,");
    let j = match find_first(rest.as_slice(), pat.as_slice()) {
        Some(j) => j,
        None => {
            return None;
        },
    };
    assert(pat@.len() == 8);
    let b = crate::text::slice_chars(rest.as_slice(), j + 8, rest.len());
    assert(b@ == rest@.skip(j + 8));
    assert(strip_prefix(v@, "data:"@) == Some(rest@));
    assert(embedded(v@) == (if b@.len() > 0 && (forall|t: int| 0 <= t < b@.len() ==> b64_char(#[trigger] b@[t])) {
        Some(b@)
    } else {
        None
    }));
    if b.len() == 0 {
        return None;
    }
    let mut q: usize = 0;
    while q < b.len()
        invariant
            b@.len() > 0,
            embedded(v@) == (if b@.len() > 0 && (forall|t: int| 0 <= t < b@.len() ==> b64_char(#[trigger] b@[t])) {
                Some(b@)
            } else {
                None
            }),
            q <= b@.len(),
            forall|t: int| 0 <= t < q ==> b64_char(#[trigger] b@[t]),
        decreases b@.len() - q,
    {
        let c = b[q];
        let ok = ('a' <= c && c <= 'z') || ('A' <= c && c <= 'Z') || ('0' <= c && c <= '9') || c == '+' || c == '/'
            || c == '=';
        if !ok {
            assert(!b64_char(b@[q as int]));
            return None;
        }
        q += 1;
    }
    Some(crate::text::string_of(b.as_slice()))
}

fn image_scan(n: &Node) -> (r: Result<(Option<String>, Option<String>, Option<String>), String>)
    ensures
        match image_attrs(node_view(*n).attrs, 0, (None, None, None)) {
            Ok(q) => r matches Ok(x) && (opt_view(x.0), opt_view(x.1), opt_view(x.2)) == q,
            Err(m) => r matches Err(x) && x@ == m,
        },
{
    let ghost av = attr_views(n.attrs@);
    assert(node_view(*n).attrs == av);
    let mut w: Option<String> = None;
    let mut h: Option<String> = None;
    let mut u: Option<String> = None;
    let mut i: usize = 0;
    while i < n.attrs.len()
        invariant
            av == attr_views(n.attrs@),
            node_view(*n).attrs == av,
            i <= n.attrs@.len(),
            image_attrs(av, 0, (None, None, None)) == image_attrs(av, i as int, (opt_view(w), opt_view(h), opt_view(u))),
        decreases n.attrs@.len() - i,
    {
        let k = n.attrs[i].0.as_str();
        let v = n.attrs[i].1.as_str();
        if str_eq(k, "width") || str_eq(k, "height") {
            if let Err(m) = crate::backend::skia::num(v, k) {
                return Err(m);
            }
            if str_eq(k, "width") {
                w = Some(copy_str(v));
            } else {
                h = Some(copy_str(v));
            }
        } else if str_eq(k, "preserveAspectRatio") {
            if !str_eq(v, "xMidYMid slice") {
                return Err(msg3("unsupported preserveAspectRatio `", v, "` in the skia-aot target"));
            }
        } else if str_eq(k, "href") {
            match embedded_of(v) {
                Some(b) => {
                    u = Some(b);
                },
                None => {
                    return Err(copy_str("the skia-aot target cannot draw a non-embedded image source"));
                },
            }
        } else {
            return Err(cannot_msg("image", k));
        }
        i += 1;
    }
    Ok((w, h, u))
}

impl<'a> Lower<'a> {
    /// An `<image>` layer — exactly four static attributes — as the decoded-
    /// at-mount payload alone.
    fn image_js(&mut self, n: &Node, pad: &str, out: &mut String) -> (r: Result<(), String>)
        ensures
            *final(self) == *old(self),
            match spec_image(node_view(*n), pad@) {
                Ok(t) => r is Ok && final(out)@ == old(out)@ + t,
                Err(m) => r matches Err(x) && x@ == m,
            },
    {
        reveal(spec_image);
        if n.children.len() > 0 {
            return Err(copy_str("unexpected children inside <image>"));
        }
        let (w, h, u) = match image_scan(n) {
            Ok(q) => q,
            Err(m) => {
                return Err(m);
            },
        };
        let (w, h, u) = match (w, h, u) {
            (Some(w), Some(h), Some(u)) => (w, h, u),
            _ => {
                return Err(copy_str("<image> without width/height/href"));
            },
        };
        push_str(out, pad);
        push_str(out, "{ k: 4, w: ");
        push_str(out, w.as_str());
        push_str(out, ", h: ");
        push_str(out, h.as_str());
        push_str(out, ", u: '");
        push_str(out, u.as_str());
        push_str(out, "' }");
        Ok(())
    }
}

proof fn lemma_kid_size(cs: Seq<NodeV>, k: int, i: int)
    requires
        0 <= i < k <= cs.len(),
    ensures
        crate::backend::rn::size(cs[i]) <= crate::backend::rn::kids_size(cs, k),
    decreases k,
{
    if i < k - 1 {
        lemma_kid_size(cs, k - 1, i);
    }
}

fn group_style_exec(v: &str, acc: &mut String) -> (r: Result<(), String>)
    ensures
        match group_style(crate::text::split_on(v@, ';'), 0, old(acc)@) {
            Ok(t) => r is Ok && final(acc)@ == t,
            Err(m) => r matches Err(x) && x@ == m,
        },
{
    let decls = split_semis(v);
    let ghost dv = views(decls@);
    let ghost start = acc@;
    proof {
        reveal_strlit("mix-blend-mode:");
    }
    let mut j: usize = 0;
    while j < decls.len()
        invariant
            dv == views(decls@),
            dv == crate::text::split_on(v@, ';'),
            start == old(acc)@,
            j <= decls@.len(),
            group_style(dv, 0, start) == group_style(dv, j as int, acc@),
        decreases decls@.len() - j,
    {
        let d = crate::text::string_of(decls[j].as_slice());
        assert(d@ == dv[j as int]);
        if decls[j].len() == 0 || str_eq(d.as_str(), "overflow:hidden") {
        } else if str_eq(d.as_str(), "display:none") {
            push_str(acc, ", hd: 1");
        } else {
            let dc = chars_of(d.as_str());
            proof {
                reveal_strlit("mix-blend-mode:");
            }
            if crate::text::str_at(dc.as_slice(), 0, "mix-blend-mode:") {
                assert("mix-blend-mode:"@.len() == 15);
                let kw = crate::text::string_of(crate::text::slice_chars(dc.as_slice(), 15, dc.len()).as_slice());
                assert(strip_prefix(d@, "mix-blend-mode:"@) == Some(kw@));
                match crate::backend::skia::blend_mode(kw.as_str()) {
                    Ok(b) => {
                        push_str(acc, ", bm: ");
                        let bd = crate::text::decimal_string(b as u64);
                        push_str(acc, bd.as_str());
                    },
                    Err(m) => {
                        return Err(m);
                    },
                }
            } else {
                assert(strip_prefix(d@, "mix-blend-mode:"@) is None);
                return Err(msg3("unsupported style `", d.as_str(), "` in the skia-aot target"));
            }
        }
        j += 1;
    }
    Ok(())
}

fn mask_scan(def: &Node) -> (r: Result<bool, String>)
    ensures
        match mask_attrs(node_view(*def).attrs, 0, true) {
            Ok(l) => r == Ok::<bool, String>(l),
            Err(m) => r matches Err(x) && x@ == m,
        },
{
    let ghost av = attr_views(def.attrs@);
    assert(node_view(*def).attrs == av);
    let mut luma = true;
    let mut i: usize = 0;
    while i < def.attrs.len()
        invariant
            av == attr_views(def.attrs@),
            node_view(*def).attrs == av,
            i <= def.attrs@.len(),
            mask_attrs(av, 0, true) == mask_attrs(av, i as int, luma),
        decreases def.attrs@.len() - i,
    {
        let k = def.attrs[i].0.as_str();
        let v = def.attrs[i].1.as_str();
        let kind = str_eq(k, "mask-type") || str_eq(k, "maskType");
        if str_eq(k, "id") || (str_eq(k, "maskUnits") && str_eq(v, "userSpaceOnUse")) || ((str_eq(k, "x") || str_eq(
            k,
            "y",
        )) && str_eq(v, "0")) {
        } else if kind && str_eq(v, "alpha") {
            luma = false;
        } else if kind && str_eq(v, "luminance") {
            luma = true;
        } else if str_eq(k, "width") || str_eq(k, "height") {
            if let Err(m) = crate::backend::skia::num(v, k) {
                return Err(m);
            }
        } else {
            let mut m = String::new();
            push_str(&mut m, "the skia-aot target cannot lower <mask ");
            push_str(&mut m, k);
            push_str(&mut m, "=\"");
            push_str(&mut m, v);
            push_str(&mut m, "\">");
            return Err(m);
        }
        i += 1;
    }
    Ok(luma)
}

fn copy_pad(pad: &str) -> (r: String)
    ensures
        r@ == pad@ + "  "@,
{
    let mut p = copy_str(pad);
    push_str(&mut p, "  ");
    p
}

impl<'a> Lower<'a> {
    /// Children of a drawable, definitions skipped (already indexed and
    /// resolved at their use sites).
    fn list_js(&mut self, children: &Vec<Node>, pad: &str, out: &mut String, budget: usize) -> (r: Result<(), String>)
        ensures
            final(self).defs == old(self).defs,
            final(self).bound == old(self).bound,
            match list_dl(old(self).cx(), crate::backend::rn::node_views(children@), children@.len() as int, pad@, budget as nat) {
                Ok((t, sl)) => r is Ok && final(out)@ == old(out)@ + t && final(self).slots@ == old(self).slots@ + sl,
                Err(m) => r matches Err(x) && x@ == m,
            },
        decreases budget, 2 * crate::backend::rn::kids_size(crate::backend::rn::node_views(children@), children@.len() as int) + 2,
    {
        let ghost cs = crate::backend::rn::node_views(children@);
        let ghost cx = self.cx();
        let ghost o0 = out@;
        let ghost s0 = self.slots@;
        let mut i: usize = 0;
        while i < children.len()
            invariant
                cs == crate::backend::rn::node_views(children@),
                cx == old(self).cx(),
                self.defs == old(self).defs,
                self.bound == old(self).bound,
                s0 == old(self).slots@,
                o0 == old(out)@,
                i <= children@.len(),
                list_dl(cx, cs, i as int, pad@, budget as nat) matches Ok((t, sl)) && out@ == o0 + t && self.slots@ == s0 + sl,
            decreases children@.len() - i,
        {
            assert(cs[i as int] == crate::backend::rn::node_view(children@[i as int]));
            if !is_def_tag(children[i].tag.as_str()) {
                proof {
                    lemma_kid_size(cs, cs.len() as int, i as int);
                }
                match self.node_js(&children[i], pad, out, budget) {
                    Ok(()) => {},
                    Err(m) => {
                        proof {
                            assert(self.cx() == cx);
                            lemma_list_stops(cx, cs, pad@, budget as nat, i as int + 1);
                        }
                        return Err(m);
                    },
                }
                let mut later = false;
                let mut j: usize = i + 1;
                while j < children.len()
                    invariant
                        cs == crate::backend::rn::node_views(children@),
                        i < j <= children@.len(),
                        later == (exists|m: int| i + 1 <= m < j && !def_tag(#[trigger] cs[m].tag)),
                    decreases children@.len() - j,
                {
                    assert(cs[j as int] == crate::backend::rn::node_view(children@[j as int]));
                    if !is_def_tag(children[j].tag.as_str()) {
                        assert(!def_tag(cs[j as int].tag));
                        later = true;
                    }
                    j += 1;
                }
                assert(later == drawn_after(cs, i + 1));
                if later {
                    push_str(out, ",\n");
                } else {
                    push_str(out, "\n");
                }
            }
            i += 1;
        }
        Ok(())
    }

    /// `mask="url(#id)"` → `{ luma?: 1, c: [..] }`.
    fn mask_js(&mut self, v: &str, pad: &str, budget: usize) -> (r: Result<String, String>)
        ensures
            final(self).defs == old(self).defs,
            final(self).bound == old(self).bound,
            match mask_dl(old(self).cx(), v@, pad@, budget as nat) {
                Ok((t, sl)) => r matches Ok(x) && x@ == t && final(self).slots@ == old(self).slots@ + sl,
                Err(m) => r matches Err(x) && x@ == m,
            },
        decreases budget, 0int,
    {
        let def = match self.lookup(v, "mask") {
            Ok(d) => d,
            Err(m) => {
                return Err(m);
            },
        };
        if !str_eq(def.tag.as_str(), "mask") {
            return Err(msg3("`", v, "` does not name a <mask>"));
        }
        let luma = match mask_scan(def) {
            Ok(l) => l,
            Err(m) => {
                return Err(m);
            },
        };
        if budget == 0 {
            return Err(copy_str("mask references form a cycle in the skia-aot target"));
        }
        let mut out = String::new();
        if luma {
            push_str(&mut out, "{ luma: 1, c: [\n");
        } else {
            push_str(&mut out, "{ c: [\n");
        }
        let inner = copy_pad(pad);
        assert(crate::backend::rn::node_views(def.children@) =~= node_view(*def).children);
        match self.list_js(&def.children, inner.as_str(), &mut out, budget - 1) {
            Ok(()) => {},
            Err(m) => {
                return Err(m);
            },
        }
        push_str(&mut out, pad);
        push_str(&mut out, "] }");
        Ok(out)
    }
}

proof fn lemma_list_stops(cx: Cx, cs: Seq<NodeV>, pad: Seq<char>, budget: nat, k: int)
    requires
        0 <= k <= cs.len(),
        list_dl(cx, cs, k, pad, budget) is Err,
    ensures
        list_dl(cx, cs, cs.len() as int, pad, budget) == list_dl(cx, cs, k, pad, budget),
    decreases cs.len() - k,
{
    if k < cs.len() {
        lemma_list_stops(cx, cs, pad, budget, k + 1);
    }
}

impl<'a> Lower<'a> {
    /// One node of the drawable tree.
    #[verifier::spinoff_prover]
    fn node_js(&mut self, n: &Node, pad: &str, out: &mut String, budget: usize) -> (r: Result<(), String>)
        ensures
            final(self).defs == old(self).defs,
            final(self).bound == old(self).bound,
            match node_dl(old(self).cx(), node_view(*n), pad@, budget as nat) {
                Ok((t, sl)) => r is Ok && final(out)@ == old(out)@ + t && final(self).slots@ == old(self).slots@ + sl,
                Err(m) => r matches Err(x) && x@ == m,
            },
        decreases budget, 2 * crate::backend::rn::size(node_view(*n)) + 1,
    {
        let ghost nv = node_view(*n);
        let ghost cx = self.cx();
        let ghost s0 = self.slots@;
        let tag = n.tag.as_str();
        if str_eq(tag, "g") {
            self.register(n);
            let mut t = copy_str(pad);
            push_str(&mut t, "{ k: 0");
            let bound_slot = match n.slot {
                Some(s) => if self.is_bound(s) {
                    Some(s)
                } else {
                    None
                },
                None => None,
            };
            if let Some(s) = bound_slot {
                push_str(&mut t, ", s: ");
                let d = crate::text::decimal_string(s as u64);
                push_str(&mut t, d.as_str());
            }
            let ghost head = t@;
            assert(head == pad@ + "{ k: 0"@ + match prim(cx.bound, nv) {
                Some(s) => ", s: "@ + crate::text::decimal(s as nat),
                None => Seq::<char>::empty(),
            });
            let ghost own = own_slot(nv);
            let ghost mut added: Seq<usize> = seq![];
            let ghost av = attr_views(n.attrs@);
            let mut i: usize = 0;
            while i < n.attrs.len()
                invariant
                    nv == node_view(*n),
                    av == attr_views(n.attrs@),
                    nv.attrs == av,
                    cx == old(self).cx(),
                    self.defs == old(self).defs,
                    self.bound == old(self).bound,
                    self.slots@ == s0 + own + added,
                    s0 == old(self).slots@,
                    nv.tag == "g"@,
                    own == own_slot(nv),
                    head == pad@ + "{ k: 0"@ + match prim(cx.bound, nv) {
                        Some(s) => ", s: "@ + crate::text::decimal(s as nat),
                        None => Seq::<char>::empty(),
                    },
                    i <= n.attrs@.len(),
                    group_attrs(cx, nv, 0, pad@, budget as nat, head, own) == group_attrs(
                        cx,
                        nv,
                        i as int,
                        pad@,
                        budget as nat,
                        t@,
                        own + added,
                    ),
                decreases n.attrs@.len() - i,
            {
                let k = n.attrs[i].0.as_str();
                let v = n.attrs[i].1.as_str();
                assert(av[i as int] == (k@, v@));
                let ghost t0 = t@;
                let ghost a0 = added;
                if str_eq(k, "transform") {
                    match crate::backend::skia::transform9(v) {
                        Ok(m) => {
                            push_str(&mut t, ", m: ");
                            push_str(&mut t, m.as_str());
                        },
                        Err(m) => {
                            return Err(m);
                        },
                    }
                } else if str_eq(k, "opacity") {
                    if let Err(m) = crate::backend::skia::num(v, "opacity") {
                        return Err(m);
                    }
                    push_str(&mut t, ", o: ");
                    push_str(&mut t, v);
                } else if str_eq(k, "display") && str_eq(v, "none") {
                    push_str(&mut t, ", hd: 1");
                } else if str_eq(k, "style") {
                    if let Err(m) = group_style_exec(v, &mut t) {
                        return Err(m);
                    }
                } else if str_eq(k, "clip-path") {
                    match self.clip_js(v) {
                        Ok(c) => {
                            push_str(&mut t, ", clip: ");
                            push_str(&mut t, c.as_str());
                            proof {
                                added = added + spec_clip(cx.defs, cx.bound, v@)->Ok_0.1;
                            }
                        },
                        Err(m) => {
                            return Err(m);
                        },
                    }
                } else if str_eq(k, "mask") {
                    match self.mask_js(v, pad, budget) {
                        Ok(c) => {
                            push_str(&mut t, ", mask: ");
                            push_str(&mut t, c.as_str());
                            proof {
                                added = added + mask_dl(cx, v@, pad@, budget as nat)->Ok_0.1;
                            }
                        },
                        Err(m) => {
                            return Err(m);
                        },
                    }
                } else if str_eq(k, "filter") {
                    match self.filter_js(v) {
                        Ok(c) => {
                            push_str(&mut t, ", ");
                            push_str(&mut t, c.as_str());
                            proof {
                                added = added + spec_filter(cx.defs, cx.bound, v@)->Ok_0.1;
                            }
                        },
                        Err(m) => {
                            return Err(m);
                        },
                    }
                } else {
                    return Err(cannot_msg("g", k));
                }
                assert(self.slots@ =~= s0 + own + added);
                assert(own + added =~= (own + a0) + (added.skip(a0.len() as int)));
                assert(group_attrs(cx, nv, i as int, pad@, budget as nat, t0, own + a0) == group_attrs(
                    cx,
                    nv,
                    i + 1,
                    pad@,
                    budget as nat,
                    t@,
                    own + added,
                ));
                i += 1;
            }
            let mut all = true;
            let mut j: usize = 0;
            while j < n.children.len()
                invariant
                    nv == node_view(*n),
                    j <= n.children@.len(),
                    all == (forall|m: int| 0 <= m < j ==> def_tag(#[trigger] nv.children[m].tag)),
                decreases n.children@.len() - j,
            {
                assert(nv.children[j as int] == node_view(n.children@[j as int]));
                if !is_def_tag(n.children[j].tag.as_str()) {
                    assert(!def_tag(nv.children[j as int].tag));
                    all = false;
                }
                j += 1;
            }
            if all {
                push_str(&mut t, ", c: [] }");
            } else {
                push_str(&mut t, ", c: [\n");
                let inner = copy_pad(pad);
                assert(crate::backend::rn::node_views(n.children@) =~= nv.children);
                match self.list_js(&n.children, inner.as_str(), &mut t, budget) {
                    Ok(()) => {},
                    Err(m) => {
                        return Err(m);
                    },
                }
                push_str(&mut t, pad);
                push_str(&mut t, "] }");
            }
            push_str(out, t.as_str());
            Ok(())
        } else if str_eq(tag, "path") || str_eq(tag, "rect") || str_eq(tag, "ellipse") {
            self.register(n);
            self.shape_js(n, pad, out)
        } else if str_eq(tag, "image") {
            self.register(n);
            self.image_js(n, pad, out)
        } else {
            Err(msg3("the skia-aot target cannot lower <", tag, ">"))
        }
    }
}

// ---------------------------------------------------------------------------
// The display list
// ---------------------------------------------------------------------------

/// The root `<svg>`'s attributes from `i` on: the first the draw walker
/// cannot honour. It assumes the design space starts at the origin and fits
/// `xMidYMid meet`.
pub open spec fn root_attrs(a: Seq<(Seq<char>, Seq<char>)>, i: int) -> Option<Seq<char>>
    decreases a.len() - i,
{
    if i < 0 || i >= a.len() {
        None
    } else {
        let (k, v) = a[i];
        if k == "viewBox"@ {
            if crate::text::starts_with(v, "0 0 "@) {
                root_attrs(a, i + 1)
            } else {
                Some("viewBox `"@ + v + "` does not start at the origin"@)
            }
        } else if k == "width"@ || k == "height"@ || k == "xmlns"@ {
            root_attrs(a, i + 1)
        } else if k == "preserveAspectRatio"@ {
            if v == "xMidYMid meet"@ {
                root_attrs(a, i + 1)
            } else {
                Some("unsupported preserveAspectRatio `"@ + v + "` (the player fits xMidYMid meet)"@)
            }
        } else if k == "style"@ {
            match root_style(crate::text::split_on(v, ';'), 0) {
                Some(m) => Some(m),
                None => root_attrs(a, i + 1),
            }
        } else {
            Some(cannot_attr("svg"@, k))
        }
    }
}

/// The root's `style` declarations from `j` on: the first that is not the
/// viewport clip.
pub open spec fn root_style(decls: Seq<Seq<char>>, j: int) -> Option<Seq<char>>
    decreases decls.len() - j,
{
    if j < 0 || j >= decls.len() {
        None
    } else if decls[j].len() == 0 || decls[j] == "overflow:hidden"@ {
        root_style(decls, j + 1)
    } else {
        Some("unsupported root style `"@ + decls[j] + "`"@)
    }
}

/// The first bound slot from `i` on that no lowered node carries.
pub open spec fn first_missing(bound: Seq<usize>, slots: Seq<usize>, i: int) -> Option<usize>
    decreases bound.len() - i,
{
    if i < 0 || i >= bound.len() {
        None
    } else if !slots.contains(bound[i]) {
        Some(bound[i])
    } else {
        first_missing(bound, slots, i + 1)
    }
}

/// Restructured markup as the display-list literal and the element count,
/// or why the markup cannot lower. The tree is slotted as baked, its matte
/// inversions lowered and its nested `<svg>`s flattened before anything is
/// drawn; a binding that lands on no drawable node fails loudly.
pub open spec fn spec_dl_from_markup(markup: Seq<char>, bound: Seq<usize>) -> Result<(Seq<char>, int), Seq<char>> {
    match crate::backend::rn::spec_parse_markup(markup) {
        Err(m) => Err(m),
        Ok(r0) => if r0.tag != "svg"@ {
            Err("the document root is <"@ + r0.tag + ">"@)
        } else {
            let (r1, count) = crate::backend::rn::slot_tree(r0, true, 0);
            match crate::backend::rn::lowered(r1) {
                (_, Some(m)) => Err(m),
                (r2, None) => match crate::backend::rn::spec_flatten_nested_svgs(r2) {
                    (_, Some(m)) => Err(m),
                    (r3, None) => match root_attrs(r3.attrs, 0) {
                        Some(m) => Err(m),
                        None => {
                            let defs = def_entries(r3);
                            let cx = Cx { defs, bound };
                            match list_dl(cx, r3.children, r3.children.len() as int, "  "@, defs.len()) {
                                Err(m) => Err(m),
                                Ok((t, sl)) => match first_missing(bound, sl, 0) {
                                    Some(b) => Err("binding addresses element "@ + crate::text::decimal(b as nat)
                                        + ", which is not a drawable node (defs subtree or past the tree)"@),
                                    None => Ok(("{ k: 0, c: [\n"@ + t + "] }"@, count)),
                                },
                            }
                        },
                    },
                },
            }
        },
    }
}

fn root_check(root: &Node) -> (r: Option<String>)
    ensures
        match root_attrs(node_view(*root).attrs, 0) {
            Some(m) => r matches Some(x) && x@ == m,
            None => r is None,
        },
{
    let ghost av = attr_views(root.attrs@);
    assert(node_view(*root).attrs == av);
    let mut i: usize = 0;
    while i < root.attrs.len()
        invariant
            av == attr_views(root.attrs@),
            node_view(*root).attrs == av,
            i <= root.attrs@.len(),
            root_attrs(av, 0) == root_attrs(av, i as int),
        decreases root.attrs@.len() - i,
    {
        let k = root.attrs[i].0.as_str();
        let v = root.attrs[i].1.as_str();
        assert(av[i as int] == (k@, v@));
        if str_eq(k, "viewBox") {
            if !crate::text::str_at(chars_of(v).as_slice(), 0, "0 0 ") {
                return Some(msg3("viewBox `", v, "` does not start at the origin"));
            }
        } else if str_eq(k, "width") || str_eq(k, "height") || str_eq(k, "xmlns") {
        } else if str_eq(k, "preserveAspectRatio") {
            if !str_eq(v, "xMidYMid meet") {
                return Some(msg3("unsupported preserveAspectRatio `", v, "` (the player fits xMidYMid meet)"));
            }
        } else if str_eq(k, "style") {
            let decls = split_semis(v);
            let ghost dv = views(decls@);
            assert(root_attrs(av, i as int) == match root_style(dv, 0) {
                Some(m) => Some(m),
                None => root_attrs(av, i + 1),
            });
            let mut j: usize = 0;
            while j < decls.len()
                invariant
                    dv == views(decls@),
                    dv == crate::text::split_on(v@, ';'),
                    av == attr_views(root.attrs@),
                    node_view(*root).attrs == av,
                    i < root.attrs@.len(),
                    root_attrs(av, 0) == root_attrs(av, i as int),
                    root_attrs(av, i as int) == match root_style(dv, 0) {
                        Some(m) => Some(m),
                        None => root_attrs(av, i + 1),
                    },
                    j <= decls@.len(),
                    root_style(dv, 0) == root_style(dv, j as int),
                decreases decls@.len() - j,
            {
                let d = crate::text::string_of(decls[j].as_slice());
                assert(d@ == dv[j as int]);
                if decls[j].len() > 0 && !str_eq(d.as_str(), "overflow:hidden") {
                    return Some(msg3("unsupported root style `", d.as_str(), "`"));
                }
                j += 1;
            }
        } else {
            return Some(cannot_msg("svg", k));
        }
        i += 1;
    }
    None
}

fn has_slot(slots: &Vec<usize>, b: usize) -> (r: bool)
    ensures
        r == slots@.contains(b),
{
    let mut i: usize = 0;
    while i < slots.len()
        invariant
            i <= slots@.len(),
            forall|j: int| 0 <= j < i ==> slots@[j] != b,
        decreases slots@.len() - i,
    {
        if slots[i] == b {
            assert(slots@[i as int] == b);
            return true;
        }
        i += 1;
    }
    false
}

/// The restructured markup → the display-list literal plus the element
/// count. `bound` holds the slots bindings write, in ascending order, each
/// once.
pub fn dl_from_markup(markup: &str, bound: &Vec<usize>) -> (r: Result<(String, usize), String>)
    requires
        markup@.len() < usize::MAX,
        !crate::backend::rn::overruns(markup@),
        crate::backend::rn::spec_parse_markup(markup@) matches Ok(n) ==> crate::backend::rn::size(n) <= usize::MAX,
        forall|i: int, j: int| 0 <= i < j < bound@.len() ==> bound@[i] < bound@[j],
    ensures
        match spec_dl_from_markup(markup@, bound@) {
            Ok((t, c)) => r matches Ok(x) && x.0@ == t && x.1 as int == c,
            Err(m) => r matches Err(x) && x@ == m,
        },
{
    let mut root = match crate::backend::rn::parse_markup(markup) {
        Ok(n) => n,
        Err(m) => {
            return Err(m);
        },
    };
    if !str_eq(root.tag.as_str(), "svg") {
        return Err(msg3("the document root is <", root.tag.as_str(), ">"));
    }
    let mut count: usize = 0;
    proof {
        crate::backend::rn::lemma_slots_follow_document_order(node_view(root), true, 0);
    }
    crate::backend::rn::assign_slots(&mut root, true, &mut count);
    if let Err(m) = crate::backend::rn::lower_invert_filters(&mut root) {
        return Err(m);
    }
    if let Err(m) = crate::backend::rn::flatten_nested_svgs(&mut root) {
        return Err(m);
    }
    if let Some(m) = root_check(&root) {
        return Err(m);
    }
    let mut defs: Vec<(&str, &Node)> = Vec::new();
    index_defs(&root, &mut defs);
    assert(defs_view(defs@) =~= def_entries(node_view(root)));
    let budget = defs.len();
    let mut lower = Lower { defs: &defs, bound, slots: Vec::new() };
    let mut dl = String::new();
    push_str(&mut dl, "{ k: 0, c: [\n");
    let pad = copy_str("  ");
    assert(crate::backend::rn::node_views(root.children@) =~= node_view(root).children);
    match lower.list_js(&root.children, pad.as_str(), &mut dl, budget) {
        Ok(()) => {},
        Err(m) => {
            return Err(m);
        },
    }
    push_str(&mut dl, "] }");
    let ghost sl = lower.slots@;
    let ghost tail = match first_missing(bound@, sl, 0) {
        Some(b) => Err("binding addresses element "@ + crate::text::decimal(b as nat)
            + ", which is not a drawable node (defs subtree or past the tree)"@),
        None => Ok::<(Seq<char>, int), Seq<char>>((dl@, count as int)),
    };
    assert(spec_dl_from_markup(markup@, bound@) == tail);
    let mut i: usize = 0;
    while i < bound.len()
        invariant
            spec_dl_from_markup(markup@, bound@) == tail,
            tail == match first_missing(bound@, sl, 0) {
                Some(b) => Err("binding addresses element "@ + crate::text::decimal(b as nat)
                    + ", which is not a drawable node (defs subtree or past the tree)"@),
                None => Ok::<(Seq<char>, int), Seq<char>>((dl@, count as int)),
            },
            sl == lower.slots@,
            i <= bound@.len(),
            first_missing(bound@, sl, 0) == first_missing(bound@, sl, i as int),
        decreases bound@.len() - i,
    {
        let b = bound[i];
        if !has_slot(&lower.slots, b) {
            let mut m = String::new();
            push_str(&mut m, "binding addresses element ");
            let d = crate::text::decimal_string(b as u64);
            push_str(&mut m, d.as_str());
            push_str(&mut m, ", which is not a drawable node (defs subtree or past the tree)");
            return Err(m);
        }
        i += 1;
    }
    Ok((dl, count))
}

} // verus!
