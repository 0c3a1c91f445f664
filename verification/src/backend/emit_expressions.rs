//! Compile each unique expression body into a JS function the runtime
//! dispatches to.
//!
//! A transpiled body runs against a fixed vocabulary — `value`, `time`,
//! `thisLayer`, `sum`, `clamp`, `loopOut`, … — which used to be introduced
//! wholesale in front of every body. Most expressions touch two or three of
//! those names, and the minifier cannot drop the rest: the `thisProperty` reads
//! are property accesses, which it must assume have side effects.
//!
//! So the preamble is emitted per expression, from what the body references.

use vstd::prelude::*;
use crate::backend::layers::{Plan, Surface};
use crate::caps::{Caps, EXPR_COMP, EXPR_PATH, EXPR_PROPERTY};
use crate::lines::{lines, split_lines, trim_start, trimmed_start, views};
use crate::text::{
    alphabetic, chars_of, is_alphabetic, is_word_char, occurs, push_char, push_chars, push_str,
    push_str_when, starts_with, str_at, str_in, str_views, string_of, string_views, text_when, word_char,
};

verus! {

broadcast use vstd::seq_lib::group_seq_properties;

// ---------------------------------------------------------------------------
// Words
// ---------------------------------------------------------------------------

/// The words finished so far and the one being read.
pub open spec fn mention_scan(s: Seq<char>) -> (Seq<Seq<char>>, Seq<char>)
    decreases s.len(),
{
    if s.len() == 0 {
        (seq![], seq![])
    } else {
        let (out, w) = mention_scan(s.drop_last());
        let c = s.last();
        if word_char(c) {
            (out, w.push(c))
        } else if w.len() > 0 {
            (out.push(w), seq![])
        } else {
            (out, seq![])
        }
    }
}

/// Every maximal run of identifier characters in a body, members included.
pub open spec fn spec_mentions(s: Seq<char>) -> Seq<Seq<char>> {
    let (out, w) = mention_scan(s);
    if w.len() > 0 {
        out.push(w)
    } else {
        out
    }
}

/// Every identifier-shaped word in a body, members included.
fn mentions(body: &str) -> (r: Vec<Vec<char>>)
    ensures
        views(r@) == spec_mentions(body@),
{
    let s = chars_of(body);
    let mut out: Vec<Vec<char>> = Vec::new();
    let mut word: Vec<char> = Vec::new();
    let mut i: usize = 0;
    while i < s.len()
        invariant
            s@ == body@,
            i <= s@.len(),
            mention_scan(s@.take(i as int)) == (views(out@), word@),
        decreases s@.len() - i,
    {
        assert(s@.take(i + 1).drop_last() =~= s@.take(i as int));
        let c = s[i];
        if is_word_char(c) {
            word.push(c);
        } else if word.len() > 0 {
            let ghost o = out@;
            let w = word;
            word = Vec::new();
            out.push(w);
            assert(views(out@) =~= views(o).push(out@.last()@));
        } else {
            word = Vec::new();
        }
        i += 1;
    }
    assert(s@.take(s@.len() as int) =~= s@);
    if word.len() > 0 {
        let ghost o = out@;
        out.push(word);
        assert(views(out@) =~= views(o).push(out@.last()@));
    }
    out
}

/// Whether some body mentions one of `names`.
pub open spec fn any_mention(bodies: Seq<String>, names: Seq<Seq<char>>) -> bool {
    exists|b: int, k: int|
        0 <= b < bodies.len() && 0 <= k < spec_mentions(bodies[b]@).len() && names.contains(
            #[trigger] spec_mentions(bodies[b]@)[k],
        )
}

/// The `thisProperty` vocabulary.
pub open spec fn property_words() -> Seq<Seq<char>> {
    seq!["thisProperty"@, "numKeys"@, "key"@, "nearestKey"@, "valueAtTime"@, "velocityAtTime"@, "loopOut"@]
}

/// The comp-space vocabulary.
pub open spec fn comp_words() -> Seq<Seq<char>> {
    seq!["thisComp"@, "toComp"@, "fromCompToSurface"@]
}

/// The path vocabulary, as After Effects writes it and as the layer pass
/// rewrites it.
pub open spec fn path_words() -> Seq<Seq<char>> {
    seq![
        "createPath"@, "pointOnPath"@, "tangentOnPath"@, "points"@, "inTangents"@, "outTangents"@,
        "isClosed"@, "lyPath"@, "lyPoints"@, "lyClosed"@,
    ]
}

/// The capabilities a set of bodies reaches for by name.
pub open spec fn spec_vocabulary(bodies: Seq<String>) -> Caps {
    (if any_mention(bodies, property_words()) { EXPR_PROPERTY } else { 0 }) | (if any_mention(
        bodies,
        comp_words(),
    ) {
        EXPR_COMP
    } else {
        0
    }) | (if any_mention(bodies, path_words()) { EXPR_PATH } else { 0 })
}

fn word_lists() -> (r: (Vec<&'static str>, Vec<&'static str>, Vec<&'static str>))
    ensures
        str_views(r.0@) == property_words(),
        str_views(r.1@) == comp_words(),
        str_views(r.2@) == path_words(),
{
    let mut p: Vec<&'static str> = Vec::new();
    p.push("thisProperty");
    p.push("numKeys");
    p.push("key");
    p.push("nearestKey");
    p.push("valueAtTime");
    p.push("velocityAtTime");
    p.push("loopOut");
    let mut c: Vec<&'static str> = Vec::new();
    c.push("thisComp");
    c.push("toComp");
    c.push("fromCompToSurface");
    let mut q: Vec<&'static str> = Vec::new();
    q.push("createPath");
    q.push("pointOnPath");
    q.push("tangentOnPath");
    q.push("points");
    q.push("inTangents");
    q.push("outTangents");
    q.push("isClosed");
    q.push("lyPath");
    q.push("lyPoints");
    q.push("lyClosed");
    assert(str_views(p@) =~= property_words());
    assert(str_views(c@) =~= comp_words());
    assert(str_views(q@) =~= path_words());
    (p, c, q)
}

/// Which parts of the expression vocabulary a module's bodies actually reach.
///
/// Every mention counts, members included: `path.pointOnPath(t)` needs no free
/// binding, but the runtime still has to provide the method. Over-retaining
/// costs bytes; under-retaining ships a module that throws only when the
/// expression runs.
pub fn vocabulary(bodies: &[String]) -> (r: Caps)
    ensures
        r == spec_vocabulary(bodies@),
{
    let (pw, cw, qw) = word_lists();
    let mut p = false;
    let mut c = false;
    let mut q = false;
    let mut b: usize = 0;
    while b < bodies.len()
        invariant
            str_views(pw@) == property_words(),
            str_views(cw@) == comp_words(),
            str_views(qw@) == path_words(),
            b <= bodies@.len(),
            p == any_mention(bodies@.take(b as int), property_words()),
            c == any_mention(bodies@.take(b as int), comp_words()),
            q == any_mention(bodies@.take(b as int), path_words()),
        decreases bodies@.len() - b,
    {
        let ms = mentions(bodies[b].as_str());
        let ghost m = spec_mentions(bodies@[b as int]@);
        let ghost (p0, c0, q0) = (p, c, q);
        let mut k: usize = 0;
        while k < ms.len()
            invariant
                str_views(pw@) == property_words(),
                str_views(cw@) == comp_words(),
                str_views(qw@) == path_words(),
                views(ms@) == m,
                k <= ms@.len(),
                p == (p0 || exists|j: int| 0 <= j < k && property_words().contains(#[trigger] m[j])),
                c == (c0 || exists|j: int| 0 <= j < k && comp_words().contains(#[trigger] m[j])),
                q == (q0 || exists|j: int| 0 <= j < k && path_words().contains(#[trigger] m[j])),
            decreases ms@.len() - k,
        {
            let w = string_of(ms[k].as_slice());
            assert(w@ == m[k as int]);
            if str_in(w.as_str(), pw.as_slice()) {
                p = true;
            }
            if str_in(w.as_str(), cw.as_slice()) {
                c = true;
            }
            if str_in(w.as_str(), qw.as_slice()) {
                q = true;
            }
            k += 1;
        }
        proof {
            let bs = bodies@.take(b + 1);
            assert(bs[b as int] == bodies@[b as int]);
            assert forall|ws: Seq<Seq<char>>| #![auto]
                any_mention(bs, ws) == (any_mention(bodies@.take(b as int), ws) || exists|j: int|
                    0 <= j < m.len() && ws.contains(#[trigger] m[j])) by {
                if any_mention(bs, ws) {
                    let (x, y) = choose|x: int, y: int|
                        0 <= x < bs.len() && 0 <= y < spec_mentions(bs[x]@).len() && ws.contains(
                            #[trigger] spec_mentions(bs[x]@)[y],
                        );
                    if x < b {
                        assert(bodies@.take(b as int)[x] == bs[x]);
                    } else {
                        assert(m[y] == spec_mentions(bs[x]@)[y]);
                    }
                }
                if any_mention(bodies@.take(b as int), ws) {
                    let (x, y) = choose|x: int, y: int|
                        0 <= x < bodies@.take(b as int).len() && 0 <= y < spec_mentions(
                            bodies@.take(b as int)[x]@,
                        ).len() && ws.contains(#[trigger] spec_mentions(bodies@.take(b as int)[x]@)[y]);
                    assert(bs[x] == bodies@.take(b as int)[x]);
                    assert(ws.contains(spec_mentions(bs[x]@)[y]));
                }
                if exists|j: int| 0 <= j < m.len() && ws.contains(#[trigger] m[j]) {
                    let j = choose|j: int| 0 <= j < m.len() && ws.contains(#[trigger] m[j]);
                    assert(spec_mentions(bs[b as int]@)[j] == m[j]);
                }
            }
        }
        b += 1;
    }
    assert(bodies@.take(bodies@.len() as int) =~= bodies@);
    (if p { EXPR_PROPERTY } else { 0 }) | (if c { EXPR_COMP } else { 0 }) | (if q { EXPR_PATH } else { 0 })
}

// ---------------------------------------------------------------------------
// Free identifiers
// ---------------------------------------------------------------------------

/// Where the identifier starting at `i` ends.
pub open spec fn ident_end(s: Seq<char>, i: int) -> int
    decreases s.len() - i,
{
    if i < 0 || i >= s.len() || !word_char(s[i]) {
        i
    } else {
        ident_end(s, i + 1)
    }
}

/// A character that can start an identifier.
pub open spec fn ident_start(c: char) -> bool {
    alphabetic(c) || c == '_' || c == '$'
}

/// The free identifiers of `s` from position `i`, inside a string literal
/// opened by `quote` if there is one.
pub open spec fn free_from(s: Seq<char>, i: int, quote: Option<char>) -> Seq<Seq<char>>
    decreases s.len() - i,
{
    if i < 0 || i >= s.len() {
        seq![]
    } else {
        let c = s[i];
        match quote {
            Some(q) => if c == '\\' {
                if s.len() - i <= 2 {
                    seq![]
                } else {
                    free_from(s, i + 2, quote)
                }
            } else if c == q {
                free_from(s, i + 1, None)
            } else {
                free_from(s, i + 1, quote)
            },
            None => if c == '\'' || c == '"' || c == '`' {
                free_from(s, i + 1, Some(c))
            } else if ident_start(c) {
                let e = ident_end(s, i);
                if e <= i || e > s.len() {
                    seq![]
                } else if i > 0 && s[i - 1] == '.' {
                    free_from(s, e, None)
                } else {
                    seq![s.subrange(i, e)] + free_from(s, e, None)
                }
            } else {
                free_from(s, i + 1, None)
            },
        }
    }
}

/// Identifiers the body uses as free names: string literals skipped, member
/// names (right after a `.`) skipped.
pub open spec fn spec_free(s: Seq<char>) -> Seq<Seq<char>> {
    free_from(s, 0, None)
}

proof fn lemma_ident_end(s: Seq<char>, i: int)
    requires
        0 <= i <= s.len(),
    ensures
        i <= ident_end(s, i) <= s.len(),
        forall|k: int| i <= k < ident_end(s, i) ==> word_char(#[trigger] s[k]),
        ident_end(s, i) < s.len() ==> !word_char(s[ident_end(s, i)]),
    decreases s.len() - i,
{
    if i < s.len() && word_char(s[i]) {
        lemma_ident_end(s, i + 1);
    }
}

/// Identifiers the body uses as free names.
///
/// String literals are skipped (property paths are full of words) and so are
/// member accesses: `path.pointOnPath(t)` needs no `pointOnPath` binding. Both
/// filters only ever remove candidates, and the member-access check looks only
/// at the character immediately before the name, which cannot misfire on a
/// genuine free reference.
fn free_identifiers(body: &str) -> (r: Vec<String>)
    ensures
        string_views(r@) == spec_free(body@),
{
    let s = chars_of(body);
    let mut out: Vec<String> = Vec::new();
    let mut i: usize = 0;
    let mut quote: Option<char> = None;
    while i < s.len()
        invariant
            s@ == body@,
            string_views(out@) + free_from(s@, i as int, quote) == spec_free(s@),
        decreases s@.len() - i,
    {
        let c = s[i];
        if let Some(q) = quote {
            if c == '\\' {
                if s.len() - i <= 2 {
                    assert(free_from(s@, i as int, quote) =~= Seq::<Seq<char>>::empty());
                    assert(free_from(s@, s@.len() as int, quote) =~= Seq::<Seq<char>>::empty());
                    i = s.len();
                } else {
                    i += 2;
                }
                continue;
            }
            if c == q {
                quote = None;
            }
            i += 1;
            continue;
        }
        if c == '\'' || c == '"' || c == '`' {
            quote = Some(c);
            i += 1;
            continue;
        }
        if is_alphabetic(c) || c == '_' || c == '$' {
            let start = i;
            proof {
                lemma_ident_end(s@, i as int);
            }
            while i < s.len() && is_word_char(s[i])
                invariant
                    s@ == body@,
                    start <= i <= s@.len(),
                    ident_end(s@, start as int) == ident_end(s@, i as int),
                decreases s@.len() - i,
            {
                i += 1;
            }
            assert(word_char(s@[start as int]));
            assert(ident_end(s@, i as int) == i);
            let preceded_by_dot = start > 0 && s[start - 1] == '.';
            if !preceded_by_dot {
                let ghost o = string_views(out@);
                let w = crate::text::slice_chars(s.as_slice(), start, i);
                out.push(string_of(w.as_slice()));
                assert(string_views(out@) =~= o.push(s@.subrange(start as int, i as int)));
            }
            continue;
        }
        i += 1;
    }
    assert(free_from(s@, i as int, quote) =~= Seq::<Seq<char>>::empty());
    out
}

// ---------------------------------------------------------------------------
// Bare helper calls
// ---------------------------------------------------------------------------

/// Helper names bodies may call by bare reference.
pub open spec fn helper_pool() -> Seq<Seq<char>> {
    seq![
        "sum"@, "sub"@, "mul"@, "div"@, "clamp"@, "radiansToDegrees"@, "degreesToRadians"@,
        "createPath"@, "pointOnPath"@, "tangentOnPath"@,
    ]
}

/// The free identifiers of every body, in order.
pub open spec fn all_free(bodies: Seq<String>) -> Seq<Seq<char>>
    decreases bodies.len(),
{
    if bodies.len() == 0 {
        seq![]
    } else {
        all_free(bodies.drop_last()) + spec_free(bodies.last()@)
    }
}

/// The names of `pool` among `names`, each once, in order of first appearance.
pub open spec fn first_seen(names: Seq<Seq<char>>, pool: Seq<Seq<char>>) -> Seq<Seq<char>>
    decreases names.len(),
{
    if names.len() == 0 {
        seq![]
    } else {
        let r = first_seen(names.drop_last(), pool);
        if pool.contains(names.last()) && !r.contains(names.last()) {
            r.push(names.last())
        } else {
            r
        }
    }
}

fn helper_names() -> (r: Vec<&'static str>)
    ensures
        str_views(r@) == helper_pool(),
{
    let mut r: Vec<&'static str> = Vec::new();
    r.push("sum");
    r.push("sub");
    r.push("mul");
    r.push("div");
    r.push("clamp");
    r.push("radiansToDegrees");
    r.push("degreesToRadians");
    r.push("createPath");
    r.push("pointOnPath");
    r.push("tangentOnPath");
    assert(str_views(r@) =~= helper_pool());
    r
}

/// The position of `n` in `list`, if it is there.
fn position_in(n: &str, list: &[&'static str]) -> (r: Option<usize>)
    ensures
        match r {
            Some(k) => k < list@.len() && list@[k as int]@ == n@,
            None => !str_views(list@).contains(n@),
        },
{
    let mut i: usize = 0;
    while i < list.len()
        invariant
            i <= list@.len(),
            forall|k: int| 0 <= k < i ==> list@[k]@ != n@,
        decreases list@.len() - i,
    {
        if crate::text::str_eq(list[i], n) {
            return Some(i);
        }
        i += 1;
    }
    proof {
        if str_views(list@).contains(n@) {
            let k = choose|k: int| 0 <= k < str_views(list@).len() && str_views(list@)[k] == n@;
            assert(list@[k]@ == n@);
        }
    }
    None
}

/// Helper names bodies call by bare reference, to add as shake roots, each
/// once, in order of first appearance.
///
/// The rewrite reports the names it introduces, but bodies also call utility
/// functions that pass through untouched — `clamp`, `sum`, `createPath`, ….
/// Scanning the shipped bodies for the full vocabulary catches both.
pub fn bare_helpers(bodies: &[String]) -> (r: Vec<&'static str>)
    ensures
        str_views(r@) == first_seen(all_free(bodies@), helper_pool()),
{
    let pool = helper_names();
    let mut found: Vec<&'static str> = Vec::new();
    let mut b: usize = 0;
    while b < bodies.len()
        invariant
            str_views(pool@) == helper_pool(),
            b <= bodies@.len(),
            str_views(found@) == first_seen(all_free(bodies@.take(b as int)), helper_pool()),
        decreases bodies@.len() - b,
    {
        assert(bodies@.take(b + 1).drop_last() =~= bodies@.take(b as int));
        let ids = free_identifiers(bodies[b].as_str());
        let ghost before = all_free(bodies@.take(b as int));
        let mut k: usize = 0;
        while k < ids.len()
            invariant
                str_views(pool@) == helper_pool(),
                k <= ids@.len(),
                str_views(found@) == first_seen(before + string_views(ids@).take(k as int), helper_pool()),
            decreases ids@.len() - k,
        {
            let ghost names = before + string_views(ids@).take(k + 1);
            assert(names.drop_last() =~= before + string_views(ids@).take(k as int));
            assert(names.last() == ids@[k as int]@);
            match position_in(ids[k].as_str(), pool.as_slice()) {
                Some(h) => {
                    let name = pool[h];
                    let ghost o = found@;
                    if !str_in(name, found.as_slice()) {
                        found.push(name);
                        assert(str_views(found@) =~= str_views(o).push(name@));
                    }
                    assert(helper_pool().contains(names.last())) by {
                        assert(str_views(pool@)[h as int] == names.last());
                    }
                },
                None => {},
            }
            k += 1;
        }
        assert(string_views(ids@).take(ids@.len() as int) =~= string_views(ids@));
        b += 1;
    }
    assert(bodies@.take(bodies@.len() as int) =~= bodies@);
    found
}

// ---------------------------------------------------------------------------
// Emitting a body
// ---------------------------------------------------------------------------

/// Whether a line declares `$bm_rt` itself.
pub open spec fn declares_line(l: Seq<char>) -> bool {
    let t = trim_start(l);
    starts_with(t, "var $bm_rt"@) || starts_with(t, "let $bm_rt"@) || starts_with(t, "const $bm_rt"@)
}

/// Whether some line of the body declares `$bm_rt`.
pub open spec fn spec_declares_bm_rt(body: Seq<char>) -> bool {
    exists|k: int| 0 <= k < lines(body).len() && declares_line(#[trigger] lines(body)[k])
}

fn declares_bm_rt(body: &str) -> (r: bool)
    ensures
        r == spec_declares_bm_rt(body@),
{
    let s = chars_of(body);
    let ls = split_lines(s.as_slice());
    let mut k: usize = 0;
    while k < ls.len()
        invariant
            s@ == body@,
            views(ls@) == lines(body@),
            k <= ls@.len(),
            forall|j: int| 0 <= j < k ==> !declares_line(#[trigger] lines(body@)[j]),
        decreases ls@.len() - k,
    {
        let t = trimmed_start(ls[k].as_slice());
        assert(ls@[k as int]@ == lines(body@)[k as int]);
        if str_at(t.as_slice(), 0, "var $bm_rt") || str_at(t.as_slice(), 0, "let $bm_rt") || str_at(
            t.as_slice(),
            0,
            "const $bm_rt",
        ) {
            return true;
        }
        k += 1;
    }
    false
}

/// One accessor of the `thisProperty` surface, when the body uses it: read
/// straight off `thisProperty` when every use has keys, the stub when none
/// does, and probed when they disagree.
pub open spec fn accessor(ids: Seq<Seq<char>>, keys: Option<bool>, name: Seq<char>, stub: Seq<char>) -> Seq<char> {
    if !ids.contains(name) {
        seq![]
    } else {
        match keys {
            Some(true) => "    const "@ + name + " = thisProperty."@ + name + ";\n"@,
            Some(false) => "    const "@ + name + " = "@ + stub + ";\n"@,
            None => "    const "@ + name + " = thisProperty."@ + name + " || ("@ + stub + ");\n"@,
        }
    }
}

/// Whether the uses have the key API: `None` when they disagree.
pub open spec fn keys_of(surface: Option<Surface>) -> Option<bool> {
    match surface {
        Some(s) => Some(!(s is Path)),
        None => None,
    }
}

/// The `numKeys` binding: a real count on the keyed surface (or when the uses
/// disagree), zero elsewhere.
pub open spec fn num_keys_line(surface: Option<Surface>) -> Seq<char> {
    match surface {
        Some(Surface::Path) | Some(Surface::Stub) => "    const numKeys = 0;\n"@,
        _ => "    const numKeys = thisProperty.numKeys;\n"@,
    }
}

/// The bindings in front of a body whose free identifiers are `ids`.
pub open spec fn preamble(ids: Seq<Seq<char>>, frame_duration: bool, surface: Option<Surface>) -> Seq<char> {
    let keys = keys_of(surface);
    text_when(ids.contains("time"@), "    const time = frame / ctx.frameRate;\n"@) + text_when(
        frame_duration,
        "    const frameDuration = 1 / ctx.frameRate;\n"@,
    ) + accessor(ids, keys, "nearestKey"@, "(t) => ({ index: 1, time: 0 })"@) + accessor(
        ids,
        keys,
        "key"@,
        "(n) => ({ time: 0, value: 0, index: n })"@,
    ) + accessor(ids, keys, "valueAtTime"@, "(t) => 0"@) + accessor(ids, keys, "velocityAtTime"@, "(t) => 0"@)
        + accessor(ids, keys, "loopOut"@, "(mode, n) => value"@) + text_when(
        ids.contains("numKeys"@),
        num_keys_line(surface),
    )
}

/// The body's lines, each indented four spaces and ended.
pub open spec fn indented(ls: Seq<Seq<char>>) -> Seq<char>
    decreases ls.len(),
{
    if ls.len() == 0 {
        seq![]
    } else {
        indented(ls.drop_last()) + "    "@ + ls.last() + seq!['\n']
    }
}

/// Whether the emitted function binds `thisProperty`: the body reads it, or
/// an accessor the preamble folded off it does.
pub open spec fn binds_surface(ids: Seq<Seq<char>>, pre: Seq<char>) -> bool {
    ids.contains("thisProperty"@) || occurs(pre, "thisProperty"@)
}

/// The opening of the function emitted for one body: the signature, the
/// `thisProperty` binding when needed, the preamble, and a `$bm_rt` slot
/// unless the body declares its own.
pub open spec fn emit_head(body: Seq<char>, frame_duration: bool, surface: Option<Surface>) -> Seq<char> {
    let ids = spec_free(body);
    let pre = preamble(ids, frame_duration, surface);
    "  function(value, thisLayer, $p, frame, ctx) {\n"@ + text_when(
        binds_surface(ids, pre),
        "    const thisProperty = thisPropertyFor(ctx, $p);\n"@,
    ) + pre + text_when(!spec_declares_bm_rt(body), "    var $bm_rt;\n"@)
}

/// The function emitted for one body, and whether it binds `thisProperty`.
pub open spec fn spec_emit_one(body: Seq<char>, frame_duration: bool, surface: Option<Surface>) -> (Seq<char>, bool) {
    let ids = spec_free(body);
    (
        emit_head(body, frame_duration, surface) + indented(lines(body)) + "    return $bm_rt;\n"@ + "  },\n"@,
        binds_surface(ids, preamble(ids, frame_duration, surface)),
    )
}

fn uses(ids: &Vec<String>, n: &str) -> (r: bool)
    ensures
        r == string_views(ids@).contains(n@),
{
    let mut i: usize = 0;
    while i < ids.len()
        invariant
            i <= ids@.len(),
            forall|k: int| 0 <= k < i ==> ids@[k]@ != n@,
        decreases ids@.len() - i,
    {
        if crate::text::str_eq(ids[i].as_str(), n) {
            assert(string_views(ids@)[i as int] == n@);
            return true;
        }
        i += 1;
    }
    proof {
        if string_views(ids@).contains(n@) {
            let k = choose|k: int| 0 <= k < string_views(ids@).len() && string_views(ids@)[k] == n@;
            assert(ids@[k]@ == n@);
        }
    }
    false
}

fn push_accessor(out: &mut String, ids: &Vec<String>, keys: Option<bool>, name: &str, stub: &str)
    ensures
        final(out)@ == old(out)@ + accessor(string_views(ids@), keys, name@, stub@),
{
    if !uses(ids, name) {
        assert(old(out)@ + accessor(string_views(ids@), keys, name@, stub@) =~= old(out)@);
        return;
    }
    push_str(out, "    const ");
    push_str(out, name);
    match keys {
        Some(true) => {
            push_str(out, " = thisProperty.");
            push_str(out, name);
            push_str(out, ";\n");
        },
        Some(false) => {
            push_str(out, " = ");
            push_str(out, stub);
            push_str(out, ";\n");
        },
        None => {
            push_str(out, " = thisProperty.");
            push_str(out, name);
            push_str(out, " || (");
            push_str(out, stub);
            push_str(out, ");\n");
        },
    }
}

fn build_preamble(ids: &Vec<String>, frame_duration: bool, surface: Option<Surface>) -> (r: String)
    ensures
        r@ == preamble(string_views(ids@), frame_duration, surface),
{
    let keys = match surface {
        Some(s) => Some(s.has_keys()),
        None => None,
    };
    let mut out = String::new();
    push_str_when(&mut out, uses(ids, "time"), "    const time = frame / ctx.frameRate;\n");
    push_str_when(&mut out, frame_duration, "    const frameDuration = 1 / ctx.frameRate;\n");
    push_accessor(&mut out, ids, keys, "nearestKey", "(t) => ({ index: 1, time: 0 })");
    push_accessor(&mut out, ids, keys, "key", "(n) => ({ time: 0, value: 0, index: n })");
    push_accessor(&mut out, ids, keys, "valueAtTime", "(t) => 0");
    push_accessor(&mut out, ids, keys, "velocityAtTime", "(t) => 0");
    push_accessor(&mut out, ids, keys, "loopOut", "(mode, n) => value");
    let line = match surface {
        Some(Surface::Path) | Some(Surface::Stub) => "    const numKeys = 0;\n",
        _ => "    const numKeys = thisProperty.numKeys;\n",
    };
    push_str_when(&mut out, uses(ids, "numKeys"), line);
    out
}

fn push_head(dst: &mut String, body: &str, frame_duration: bool, surface: Option<Surface>) -> (r: bool)
    ensures
        final(dst)@ == old(dst)@ + emit_head(body@, frame_duration, surface),
        r == binds_surface(spec_free(body@), preamble(spec_free(body@), frame_duration, surface)),
{
    let used = free_identifiers(body);
    let pre = build_preamble(&used, frame_duration, surface);
    let pc = chars_of(pre.as_str());
    let bound = uses(&used, "thisProperty") || crate::text::find_str(pc.as_slice(), "thisProperty");
    push_str(dst, "  function(value, thisLayer, $p, frame, ctx) {\n");
    push_str_when(dst, bound, "    const thisProperty = thisPropertyFor(ctx, $p);\n");
    push_str(dst, pre.as_str());
    push_str_when(dst, !declares_bm_rt(body), "    var $bm_rt;\n");
    bound
}

fn push_indented(dst: &mut String, body: &str)
    ensures
        final(dst)@ == old(dst)@ + indented(lines(body@)),
{
    let s = chars_of(body);
    let ls = split_lines(s.as_slice());
    let ghost start = dst@;
    let mut k: usize = 0;
    while k < ls.len()
        invariant
            views(ls@) == lines(body@),
            k <= ls@.len(),
            dst@ == start + indented(views(ls@).take(k as int)),
        decreases ls@.len() - k,
    {
        assert(views(ls@).take(k + 1).drop_last() =~= views(ls@).take(k as int));
        assert(views(ls@).take(k + 1).last() == ls@[k as int]@);
        push_str(dst, "    ");
        push_chars(dst, ls[k].as_slice());
        push_char(dst, '\n');
        k += 1;
    }
    assert(views(ls@).take(ls@.len() as int) =~= views(ls@));
}

/// Emit one body, with the preamble its (already rewritten) text needs.
///
/// `thisLayer` is the layer *record*; a resolved body reads it through free
/// functions. Returns whether the body ended up naming `thisPropertyFor`, so
/// the caller can add it to the shake roots: "the emitted text calls it" and
/// "the declaration ships" are the same fact rather than two lists that have
/// to agree.
pub fn emit_one(dst: &mut String, body: &str, plan: &Plan) -> (r: bool)
    ensures
        final(dst)@ == old(dst)@ + spec_emit_one(body@, plan.frame_duration, plan.surface).0,
        r == spec_emit_one(body@, plan.frame_duration, plan.surface).1,
{
    let bound = push_head(dst, body, plan.frame_duration, plan.surface);
    push_indented(dst, body);
    push_str(dst, "    return $bm_rt;\n");
    push_str(dst, "  },\n");
    bound
}

} // verus!
