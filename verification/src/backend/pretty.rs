//! Readable formatting for unminified output.
//!
//! Shipped output is one long line, which makes a compiler change invisible in
//! review. The same module printed through here is line-oriented: one SVG
//! element per line, so a diff points at the attribute that actually moved.
//! Only whitespace differs from what ships.

use vstd::prelude::*;
use crate::backend::emit::byte_len;
use crate::text::{chars_of, has_at, push_char, push_chars, push_str, starts_with, string_of};

verus! {

broadcast use vstd::seq_lib::group_seq_properties;

// ---------------------------------------------------------------------------
// Splitting markup into tags
// ---------------------------------------------------------------------------

/// The tags finished so far, the one being read, and whether the scan is
/// inside a double-quoted attribute value.
pub open spec fn tag_scan(s: Seq<char>) -> (Seq<Seq<char>>, Seq<char>, bool)
    decreases s.len(),
{
    if s.len() == 0 {
        (seq![], seq![], false)
    } else {
        let (out, cur, quoted) = tag_scan(s.drop_last());
        let c = s.last();
        let cur2 = cur.push(c);
        if c == '"' {
            (out, cur2, !quoted)
        } else if c == '>' && !quoted {
            (out.push(cur2), seq![], quoted)
        } else {
            (out, cur2, quoted)
        }
    }
}

/// Markup split after every `>` that closes a tag (one inside a quoted
/// attribute value does not), with whatever trails the last one.
pub open spec fn spec_split_tags(s: Seq<char>) -> Seq<Seq<char>> {
    let (out, cur, _) = tag_scan(s);
    if cur.len() > 0 {
        out.push(cur)
    } else {
        out
    }
}

/// The parts concatenated.
pub open spec fn concat(parts: Seq<Seq<char>>) -> Seq<char>
    decreases parts.len(),
{
    if parts.len() == 0 {
        seq![]
    } else {
        concat(parts.drop_last()) + parts.last()
    }
}

proof fn lemma_tag_scan_concat(s: Seq<char>)
    ensures
        concat(tag_scan(s).0) + tag_scan(s).1 == s,
    decreases s.len(),
{
    if s.len() > 0 {
        lemma_tag_scan_concat(s.drop_last());
        let (out, cur, quoted) = tag_scan(s.drop_last());
        assert(s =~= s.drop_last().push(s.last()));
        if s.last() == '>' && !quoted && s.last() != '"' {
            assert(out.push(cur.push(s.last())).drop_last() =~= out);
            assert(concat(out.push(cur.push(s.last()))) =~= concat(out) + cur.push(s.last()));
        }
    }
}

/// Concatenating the tags reproduces the markup exactly.
pub proof fn lemma_split_tags_concat(s: Seq<char>)
    ensures
        concat(spec_split_tags(s)) == s,
{
    lemma_tag_scan_concat(s);
    let (out, cur, _) = tag_scan(s);
    if cur.len() > 0 {
        assert(out.push(cur).drop_last() =~= out);
    } else {
        assert(concat(out) + cur =~= concat(out));
    }
}

/// Split markup after every tag. Generated markup has no text nodes, and `>`
/// inside an attribute value is quoted, so this is exact.
pub fn split_tags(m: &str) -> (r: Vec<String>)
    ensures
        r@.map_values(|t: String| t@) == spec_split_tags(m@),
{
    let s = chars_of(m);
    let mut out: Vec<String> = Vec::new();
    let mut cur: Vec<char> = Vec::new();
    let mut quoted = false;
    let mut i: usize = 0;
    while i < s.len()
        invariant
            s@ == m@,
            i <= s@.len(),
            tag_scan(s@.take(i as int)) == (out@.map_values(|t: String| t@), cur@, quoted),
        decreases s@.len() - i,
    {
        assert(s@.take(i + 1).drop_last() =~= s@.take(i as int));
        let c = s[i];
        cur.push(c);
        if c == '"' {
            quoted = !quoted;
        } else if c == '>' && !quoted {
            let ghost o = out@.map_values(|t: String| t@);
            out.push(string_of(cur.as_slice()));
            assert(out@.map_values(|t: String| t@) =~= o.push(cur@));
            cur = Vec::new();
        }
        i += 1;
    }
    assert(s@.take(s@.len() as int) =~= s@);
    if cur.len() > 0 {
        let ghost o = out@.map_values(|t: String| t@);
        out.push(string_of(cur.as_slice()));
        assert(out@.map_values(|t: String| t@) =~= o.push(cur@));
    }
    out
}

// ---------------------------------------------------------------------------
// Indenting by element depth
// ---------------------------------------------------------------------------

/// `n` levels of two-space indentation.
pub open spec fn pad(n: nat) -> Seq<char> {
    Seq::new(2 * n, |i: int| ' ')
}

/// Whether a tag closes an element.
pub open spec fn closing(t: Seq<char>) -> bool {
    starts_with(t, seq!['<', '/'])
}

/// Whether a tag opens an element that has children.
pub open spec fn opening(t: Seq<char>) -> bool {
    !closing(t) && starts_with(t, seq!['<']) && !(t.len() >= 2 && t.subrange(t.len() - 2, t.len() as int)
        == seq!['/', '>'])
}

/// The depth a tag sits at, given the depth after the tag before it.
pub open spec fn depth_at(d: nat, t: Seq<char>) -> nat {
    if closing(t) {
        if d > 0 { (d - 1) as nat } else { 0 }
    } else {
        d
    }
}

/// The depth after a tag.
pub open spec fn depth_after(d: nat, t: Seq<char>) -> nat {
    if opening(t) {
        depth_at(d, t) + 1
    } else {
        depth_at(d, t)
    }
}

/// The depth after the first `n` tags.
pub open spec fn depth_before(tags: Seq<Seq<char>>, n: int) -> nat
    decreases n,
{
    if n <= 0 {
        0
    } else {
        depth_after(depth_before(tags, n - 1), tags[n - 1])
    }
}

/// The standalone document: one tag per line, indented by depth.
pub open spec fn plain_text(tags: Seq<Seq<char>>, n: int) -> Seq<char>
    decreases n,
{
    if n <= 0 {
        seq![]
    } else {
        plain_text(tags, n - 1) + pad(depth_at(depth_before(tags, n - 1), tags[n - 1])) + tags[n - 1] + seq!['\n']
    }
}

/// The JS concatenation: one quoted tag per line, indented one level more than
/// its depth, joined by `+`.
pub open spec fn quoted_text(tags: Seq<Seq<char>>, qs: Seq<Seq<char>>, n: int) -> Seq<char>
    decreases n,
{
    if n <= 0 {
        seq![]
    } else {
        quoted_text(tags, qs, n - 1) + pad(depth_at(depth_before(tags, n - 1), tags[n - 1]) + 1) + qs[n - 1]
            + (if n < tags.len() { seq![' ', '+'] } else { seq![] }) + seq!['\n']
    }
}

fn push_pad(out: &mut String, n: usize)
    ensures
        final(out)@ == old(out)@ + pad(n as nat),
{
    let ghost o = out@;
    let mut i: usize = 0;
    while i < n
        invariant
            i <= n,
            out@ == o + pad(i as nat),
        decreases n - i,
    {
        push_char(out, ' ');
        push_char(out, ' ');
        assert(pad((i + 1) as nat) =~= pad(i as nat) + seq![' ', ' ']);
        i += 1;
    }
}

fn tag_kind(t: &[char]) -> (r: (bool, bool))
    ensures
        r.0 == closing(t@),
        r.1 == opening(t@),
{
    let mut close_pat: Vec<char> = Vec::new();
    close_pat.push('<');
    close_pat.push('/');
    let mut open_pat: Vec<char> = Vec::new();
    open_pat.push('<');
    let mut end_pat: Vec<char> = Vec::new();
    end_pat.push('/');
    end_pat.push('>');
    assert(close_pat@ =~= seq!['<', '/']);
    assert(open_pat@ =~= seq!['<']);
    assert(end_pat@ =~= seq!['/', '>']);
    let c = crate::text::chars_at(t, 0, close_pat.as_slice());
    let ends = t.len() >= 2 && crate::text::chars_at(t, t.len() - 2, end_pat.as_slice());
    (c, !c && crate::text::chars_at(t, 0, open_pat.as_slice()) && !ends)
}

/// Indent markup one element per line, as plain SVG — the standalone document
/// template.
pub fn markup_plain(m: &str) -> (r: String)
    ensures
        r@ == plain_text(spec_split_tags(m@), spec_split_tags(m@).len() as int),
{
    let tags = split_tags(m);
    let ghost ts = tags@.map_values(|t: String| t@);
    let mut out = String::new();
    let mut depth: usize = 0;
    let mut i: usize = 0;
    while i < tags.len()
        invariant
            ts == tags@.map_values(|t: String| t@),
            i <= tags@.len(),
            depth == depth_before(ts, i as int),
            depth <= i,
            out@ == plain_text(ts, i as int),
        decreases tags@.len() - i,
    {
        let tc = chars_of(tags[i].as_str());
        assert(tc@ == ts[i as int]);
        let (close, open) = tag_kind(tc.as_slice());
        if close {
            depth = if depth > 0 { depth - 1 } else { 0 };
        }
        push_pad(&mut out, depth);
        push_str(&mut out, tags[i].as_str());
        push_char(&mut out, '\n');
        if open {
            depth += 1;
        }
        i += 1;
    }
    out
}

/// Whether `s` holds neither a line feed nor a carriage return.
pub open spec fn one_line(s: Seq<char>) -> bool {
    forall|i: int| 0 <= i < s.len() ==> s[i] != '\n' && s[i] != '\r'
}

/// Line `i` of the standalone document, without its line ending.
pub open spec fn plain_line(tags: Seq<Seq<char>>, i: int) -> Seq<char> {
    pad(depth_at(depth_before(tags, i), tags[i])) + tags[i]
}

/// Line `i` of the JS concatenation when each tag is quoted as itself.
pub open spec fn quoted_line(tags: Seq<Seq<char>>, i: int) -> Seq<char> {
    seq![' ', ' '] + plain_line(tags, i) + if i + 1 < tags.len() {
        seq![' ', '+']
    } else {
        seq![]
    }
}

proof fn lemma_scan_partial(s: Seq<char>, l: Seq<char>)
    requires
        crate::lines::line_scan(s).1.len() == 0,
        one_line(l),
    ensures
        crate::lines::line_scan(s + l) == (crate::lines::line_scan(s).0, l),
    decreases l.len(),
{
    if l.len() == 0 {
        assert(s + l =~= s);
    } else {
        lemma_scan_partial(s, l.drop_last());
        assert((s + l).drop_last() =~= s + l.drop_last());
        assert(l.drop_last().push(l.last()) =~= l);
    }
}

proof fn lemma_scan_line(s: Seq<char>, l: Seq<char>)
    requires
        crate::lines::line_scan(s).1.len() == 0,
        one_line(l),
    ensures
        crate::lines::line_scan(s + l + seq!['\n']) == (crate::lines::line_scan(s).0.push(l), Seq::<char>::empty()),
{
    lemma_scan_partial(s, l);
    let t = s + l + seq!['\n'];
    assert(t.drop_last() =~= s + l);
    if l.len() > 0 {
        assert(l.last() != '\r');
    }
}

proof fn lemma_parts_one_line(parts: Seq<Seq<char>>)
    requires
        one_line(concat(parts)),
    ensures
        forall|k: int| 0 <= k < parts.len() ==> one_line(#[trigger] parts[k]),
    decreases parts.len(),
{
    if parts.len() > 0 {
        let c = concat(parts);
        let pre = concat(parts.drop_last());
        assert forall|i: int| 0 <= i < pre.len() implies pre[i] != '\n' && pre[i] != '\r' by {
            assert(c[i] == pre[i]);
        }
        lemma_parts_one_line(parts.drop_last());
        assert forall|i: int| 0 <= i < parts.last().len() implies parts.last()[i] != '\n' && parts.last()[i] != '\r' by {
            assert(c[pre.len() + i] == parts.last()[i]);
        }
        assert forall|k: int| 0 <= k < parts.len() implies one_line(#[trigger] parts[k]) by {
            if k < parts.len() - 1 {
                assert(parts[k] == parts.drop_last()[k]);
            }
        }
    }
}

proof fn lemma_text_lines(tags: Seq<Seq<char>>, n: int)
    requires
        0 <= n <= tags.len(),
        forall|k: int| 0 <= k < tags.len() ==> one_line(#[trigger] tags[k]),
    ensures
        crate::lines::line_scan(plain_text(tags, n)) == (Seq::new(n as nat, |i: int| plain_line(tags, i)), Seq::<char>::empty()),
        crate::lines::line_scan(quoted_text(tags, tags, n)) == (
            Seq::new(n as nat, |i: int| quoted_line(tags, i)),
            Seq::<char>::empty(),
        ),
    decreases n,
{
    if n == 0 {
        assert(crate::lines::line_scan(seq![]) == (Seq::<Seq<char>>::empty(), Seq::<char>::empty()));
        assert(Seq::new(0, |i: int| plain_line(tags, i)) =~= Seq::<Seq<char>>::empty());
        assert(Seq::new(0, |i: int| quoted_line(tags, i)) =~= Seq::<Seq<char>>::empty());
    } else {
        lemma_text_lines(tags, n - 1);
        let d = depth_at(depth_before(tags, n - 1), tags[n - 1]);
        assert(one_line(pad(d)));
        let pl = plain_line(tags, n - 1);
        assert(one_line(tags[n - 1]));
        assert(one_line(pl));
        lemma_scan_line(plain_text(tags, n - 1), pl);
        assert(plain_text(tags, n) =~= plain_text(tags, n - 1) + pl + seq!['\n']);
        assert(Seq::new((n - 1) as nat, |i: int| plain_line(tags, i)).push(pl) =~= Seq::new(
            n as nat,
            |i: int| plain_line(tags, i),
        ));
        let ql = quoted_line(tags, n - 1);
        assert(pad(d + 1) =~= seq![' ', ' '] + pad(d));
        assert(one_line(ql));
        lemma_scan_line(quoted_text(tags, tags, n - 1), ql);
        assert(quoted_text(tags, tags, n) =~= quoted_text(tags, tags, n - 1) + ql + seq!['\n']);
        assert(Seq::new((n - 1) as nat, |i: int| quoted_line(tags, i)).push(ql) =~= Seq::new(
            n as nat,
            |i: int| quoted_line(tags, i),
        ));
    }
}

/// Line for line, the JS concatenation with each tag quoted as itself is the
/// standalone document indented one level more, with ` +` ending every line
/// but the last — for markup on one line.
pub proof fn lemma_markup_lines(m: Seq<char>)
    requires
        one_line(m),
    ensures
        crate::lines::lines(plain_text(spec_split_tags(m), spec_split_tags(m).len() as int))
            == Seq::new(spec_split_tags(m).len(), |i: int| plain_line(spec_split_tags(m), i)),
        crate::lines::lines(quoted_text(spec_split_tags(m), spec_split_tags(m), spec_split_tags(m).len() as int))
            == Seq::new(spec_split_tags(m).len(), |i: int| quoted_line(spec_split_tags(m), i)),
{
    let tags = spec_split_tags(m);
    lemma_split_tags_concat(m);
    lemma_parts_one_line(tags);
    lemma_text_lines(tags, tags.len() as int);
}

/// Whether `q` is something `quote` can give for the tag `t`.
pub open spec fn quotes_tag<F: Fn(&str) -> String>(quote: F, t: Seq<char>, q: Seq<char>) -> bool {
    exists|s: &str, r: String| #[trigger] call_ensures(quote, (s,), r) && s@ == t && r@ == q
}

/// Whether `qs` are what `quote` gives for each of `tags`.
pub open spec fn quoted_by<F: Fn(&str) -> String>(quote: F, tags: Seq<Seq<char>>, qs: Seq<Seq<char>>) -> bool {
    &&& qs.len() == tags.len()
    &&& forall|i: int| 0 <= i < tags.len() ==> #[trigger] quotes_tag(quote, tags[i], qs[i])
}

/// Render baked markup as an indented JS string concatenation — one element
/// per line, nested by depth, each tag written by `quote`. Concatenating the
/// parts reproduces the original string exactly.
pub fn markup<F: Fn(&str) -> String>(m: &str, quote: F) -> (r: String)
    requires
        forall|s: &str| call_requires(quote, (s,)),
    ensures
        exists|qs: Seq<Seq<char>>| #[trigger] quoted_by(quote, spec_split_tags(m@), qs)
            && r@ == quoted_text(spec_split_tags(m@), qs, spec_split_tags(m@).len() as int),
{
    let tags = split_tags(m);
    let ghost ts = tags@.map_values(|t: String| t@);
    let ghost mut qs: Seq<Seq<char>> = seq![];
    let mut out = String::new();
    let mut depth: usize = 0;
    let mut i: usize = 0;
    while i < tags.len()
        invariant
            forall|s: &str| call_requires(quote, (s,)),
            ts == tags@.map_values(|t: String| t@),
            i <= tags@.len(),
            depth == depth_before(ts, i as int),
            depth <= i,
            qs.len() == i,
            forall|k: int| 0 <= k < i ==> #[trigger] quotes_tag(quote, ts[k], qs[k]),
            out@ == quoted_text(ts, qs, i as int),
        decreases tags@.len() - i,
    {
        let tc = chars_of(tags[i].as_str());
        assert(tc@ == ts[i as int]);
        let (close, open) = tag_kind(tc.as_slice());
        if close {
            depth = if depth > 0 { depth - 1 } else { 0 };
        }
        push_pad(&mut out, depth + 1);
        let arg = tags[i].as_str();
        let q = quote(arg);
        proof {
            let qs0 = qs;
            qs = qs.push(q@);
            assert forall|k: int| 0 <= k < i + 1 implies #[trigger] quotes_tag(quote, ts[k], qs[k]) by {
                if k < i {
                    assert(qs[k] == qs0[k]);
                } else {
                    assert(qs[k] == q@);
                    assert(arg@ == ts[k]);
                    assert(call_ensures(quote, (arg,), q));
                }
            }
            assert(quoted_text(ts, qs0, i as int) == quoted_text(ts, qs, i as int)) by {
                lemma_quoted_prefix(ts, qs0, qs, i as int);
            }
        }
        push_str(&mut out, q.as_str());
        if i + 1 < tags.len() {
            push_char(&mut out, ' ');
            push_char(&mut out, '+');
        }
        push_char(&mut out, '\n');
        assert(out@ =~= quoted_text(ts, qs, i + 1));
        if open {
            depth += 1;
        }
        i += 1;
    }
    assert(quoted_by(quote, ts, qs));
    out
}

proof fn lemma_quoted_prefix(tags: Seq<Seq<char>>, a: Seq<Seq<char>>, b: Seq<Seq<char>>, n: int)
    requires
        0 <= n <= a.len(),
        n <= b.len(),
        forall|k: int| 0 <= k < n ==> a[k] == b[k],
    ensures
        quoted_text(tags, a, n) == quoted_text(tags, b, n),
    decreases n,
{
    if n > 0 {
        lemma_quoted_prefix(tags, a, b, n - 1);
    }
}

// ---------------------------------------------------------------------------
// JSON, kept inline while it fits
// ---------------------------------------------------------------------------

/// Width past which a JSON container is broken across lines. Small arrays —
/// coordinate pairs, easing handles, one binding's arguments — stay inline,
/// which is both shorter and easier to scan than one element per line.
pub const INLINE_WIDTH: usize = 96;

/// A JSON value as the layout reads it: each scalar by its compact text.
pub enum Json {
    /// A number, by its compact text.
    Number(String),
    /// `null`, a boolean or a string, by its compact text.
    Scalar(String),
    Array(Vec<Json>),
    /// Each entry's key as written, the same key as compact JSON (quoted and
    /// escaped), and its value, in the map's order.
    Object(Vec<(String, String, Json)>),
}

/// The content of a [`Json`] value.
pub enum JsonV {
    Number(Seq<char>),
    Scalar(Seq<char>),
    Array(Seq<JsonV>),
    Object(Seq<(Seq<char>, Seq<char>, JsonV)>),
}

/// The content of a value, all the way down.
pub open spec fn json_view(v: Json) -> JsonV
    decreases v,
{
    match v {
        Json::Number(t) => JsonV::Number(t@),
        Json::Scalar(t) => JsonV::Scalar(t@),
        Json::Array(items) => JsonV::Array(
            Seq::new(
                items@.len(),
                |i: int| if 0 <= i < items@.len() { json_view(items@[i]) } else { JsonV::Scalar(seq![]) },
            ),
        ),
        Json::Object(es) => JsonV::Object(
            Seq::new(
                es@.len(),
                |i: int| if 0 <= i < es@.len() {
                    (es@[i].0@, es@[i].1@, json_view(es@[i].2))
                } else {
                    (seq![], seq![], JsonV::Scalar(seq![]))
                },
            ),
        ),
    }
}

/// The compact text of a value: no whitespace at all.
pub open spec fn compact(v: JsonV) -> Seq<char>
    decreases v, 0int,
{
    match v {
        JsonV::Number(t) => t,
        JsonV::Scalar(t) => t,
        JsonV::Array(items) => seq!['['] + compact_items(items, items.len() as int) + seq![']'],
        JsonV::Object(es) => seq!['{'] + compact_entries(es, es.len() as int) + seq!['}'],
    }
}

/// The first `n` items, compact, joined by commas.
pub open spec fn compact_items(items: Seq<JsonV>, n: int) -> Seq<char>
    decreases items, n,
{
    if n <= 0 || n > items.len() {
        seq![]
    } else if n == 1 {
        compact(items[0])
    } else {
        compact_items(items, n - 1) + seq![','] + compact(items[n - 1])
    }
}

/// One entry, compact: the quoted key, a colon, the value.
pub open spec fn compact_entry(e: (Seq<char>, Seq<char>, JsonV)) -> Seq<char>
    decreases e, 1int,
{
    e.1 + seq![':'] + compact(e.2)
}

/// The first `n` entries, compact, joined by commas.
pub open spec fn compact_entries(es: Seq<(Seq<char>, Seq<char>, JsonV)>, n: int) -> Seq<char>
    decreases es, n,
{
    if n <= 0 || n > es.len() {
        seq![]
    } else if n == 1 {
        compact_entry(es[0])
    } else {
        compact_entries(es, n - 1) + seq![','] + compact_entry(es[n - 1])
    }
}

/// Values in a value, counting itself: what recursion over one spends.
pub open spec fn json_size(v: JsonV) -> nat
    decreases v, 0int,
{
    match v {
        JsonV::Array(items) => 1 + items_size(items, items.len() as int),
        JsonV::Object(es) => 1 + entries_size(es, es.len() as int),
        _ => 1,
    }
}

/// Values in the first `n` items.
pub open spec fn items_size(items: Seq<JsonV>, n: int) -> nat
    decreases items, n,
{
    if n <= 0 || n > items.len() {
        0
    } else {
        items_size(items, n - 1) + json_size(items[n - 1])
    }
}

/// Values in the first `n` entries.
pub open spec fn entries_size(es: Seq<(Seq<char>, Seq<char>, JsonV)>, n: int) -> nat
    decreases es, n,
{
    if n <= 0 || n > es.len() {
        0
    } else {
        entries_size(es, n - 1) + json_size(es[n - 1].2)
    }
}

proof fn lemma_items_size_each(items: Seq<JsonV>, n: int)
    requires
        0 <= n <= items.len(),
    ensures
        forall|i: int| 0 <= i < n ==> json_size(#[trigger] items[i]) <= items_size(items, n),
    decreases n,
{
    if n > 0 {
        lemma_items_size_each(items, n - 1);
    }
}

proof fn lemma_entries_size_each(es: Seq<(Seq<char>, Seq<char>, JsonV)>, n: int)
    requires
        0 <= n <= es.len(),
    ensures
        forall|i: int| 0 <= i < n ==> json_size((#[trigger] es[i]).2) <= entries_size(es, n),
    decreases n,
{
    if n > 0 {
        lemma_entries_size_each(es, n - 1);
    }
}

/// The compact text of a value.
fn compact_of(v: &Json) -> (r: String)
    ensures
        r@ == compact(json_view(*v)),
    decreases json_size(json_view(*v)),
{
    match v {
        Json::Number(t) => t.clone(),
        Json::Scalar(t) => t.clone(),
        Json::Array(items) => {
            let ghost vs = match json_view(*v) {
                JsonV::Array(w) => w,
                _ => seq![],
            };
            proof {
                lemma_items_size_each(vs, vs.len() as int);
            }
            let mut out = String::new();
            push_char(&mut out, '[');
            let mut i: usize = 0;
            while i < items.len()
                invariant
                    i <= items@.len(),
                    vs.len() == items@.len(),
                    forall|k: int| 0 <= k < items@.len() ==> #[trigger] vs[k] == json_view(items@[k]),
                    out@ == seq!['['] + compact_items(vs, i as int),
                    forall|k: int| 0 <= k < vs.len() ==> json_size(#[trigger] vs[k]) < json_size(json_view(*v)),
                decreases items@.len() - i,
            {
                if i > 0 {
                    push_char(&mut out, ',');
                }
                let c = compact_of(&items[i]);
                push_str(&mut out, c.as_str());
                assert(vs[i as int] == json_view(items@[i as int]));
                i += 1;
            }
            push_char(&mut out, ']');
            out
        },
        Json::Object(es) => {
            let ghost vs = match json_view(*v) {
                JsonV::Object(w) => w,
                _ => seq![],
            };
            proof {
                lemma_entries_size_each(vs, vs.len() as int);
            }
            let mut out = String::new();
            push_char(&mut out, '{');
            let mut i: usize = 0;
            while i < es.len()
                invariant
                    i <= es@.len(),
                    vs.len() == es@.len(),
                    forall|k: int| 0 <= k < es@.len() ==> #[trigger] vs[k] == (es@[k].0@, es@[k].1@, json_view(es@[k].2)),
                    out@ == seq!['{'] + compact_entries(vs, i as int),
                    forall|k: int| 0 <= k < vs.len() ==> json_size((#[trigger] vs[k]).2) < json_size(json_view(*v)),
                decreases es@.len() - i,
            {
                let ghost o = out@;
                if i > 0 {
                    push_char(&mut out, ',');
                }
                let ghost sep = out@;
                assert(vs[i as int] == (es@[i as int].0@, es@[i as int].1@, json_view(es@[i as int].2)));
                push_str(&mut out, es[i].1.as_str());
                push_char(&mut out, ':');
                let c = compact_of(&es[i].2);
                push_str(&mut out, c.as_str());
                proof {
                    let e = compact_entry(vs[i as int]);
                    assert(e == es@[i as int].1@ + seq![':'] + c@);
                    assert(out@ =~= sep + e);
                    if i == 0 {
                        assert(compact_entries(vs, 1) == e);
                        assert(out@ =~= seq!['{'] + e);
                    } else {
                        assert(sep =~= o + seq![',']);
                        assert(compact_entries(vs, i as int + 1) == compact_entries(vs, i as int) + seq![','] + e);
                        assert(out@ =~= seq!['{'] + compact_entries(vs, i as int + 1));
                    }
                }
                i += 1;
            }
            push_char(&mut out, '}');
            out
        },
    }
}

// ---------------------------------------------------------------------------
// The layout
// ---------------------------------------------------------------------------

/// Whether a value holds others.
pub open spec fn is_container(v: JsonV) -> bool {
    v is Array || v is Object
}

/// Whether every item is a number.
pub open spec fn all_numbers(items: Seq<JsonV>) -> bool {
    forall|i: int| 0 <= i < items.len() ==> #[trigger] items[i] is Number
}

/// Whether a value's compact text fits on a line already indented by
/// `indent`.
pub open spec fn fits(v: JsonV, indent: nat) -> bool {
    byte_len(compact(v)) + indent <= INLINE_WIDTH
}

/// A value laid out at `indent`: compact while it fits or is a scalar; an
/// array of numbers wrapped like prose; any other container one entry per
/// line, each a level deeper.
pub open spec fn layout(v: JsonV, indent: nat) -> Seq<char>
    decreases v, 0int,
{
    if fits(v, indent) || !is_container(v) {
        compact(v)
    } else {
        match v {
            JsonV::Array(items) => if all_numbers(items) {
                wrapped(items, indent)
            } else {
                seq!['[', '\n'] + layout_items(items, items.len() as int, indent) + pad(indent / 2) + seq![']']
            },
            JsonV::Object(es) => seq!['{', '\n'] + layout_entries(es, es.len() as int, indent) + pad(indent / 2)
                + seq!['}'],
            _ => compact(v),
        }
    }
}

/// The first `n` items of a broken array, one per line.
pub open spec fn layout_items(items: Seq<JsonV>, n: int, indent: nat) -> Seq<char>
    decreases items, n,
{
    if n <= 0 || n > items.len() {
        seq![]
    } else {
        layout_items(items, n - 1, indent) + pad(indent / 2 + 1) + layout(items[n - 1], indent + 2) + (if n
            < items.len() {
            seq![',']
        } else {
            seq![]
        }) + seq!['\n']
    }
}

/// The first `n` entries of a broken object, one per line: the key as
/// written, quoted, then the value laid out a level deeper.
pub open spec fn layout_entries(es: Seq<(Seq<char>, Seq<char>, JsonV)>, n: int, indent: nat) -> Seq<char>
    decreases es, n,
{
    if n <= 0 || n > es.len() {
        seq![]
    } else {
        layout_entries(es, n - 1, indent) + pad(indent / 2 + 1) + seq!['"'] + es[n - 1].0 + seq!['"', ':', ' ']
            + layout(es[n - 1].2, indent + 2) + (if n < es.len() {
            seq![',']
        } else {
            seq![]
        }) + seq!['\n']
    }
}

/// The text and the column after the first `k` numbers of a wrapped array.
///
/// A number that would run past the width starts a new line, unless it
/// already starts one; the space after a comma is only written when the next
/// number stays on the line, so no line ends in whitespace.
pub open spec fn wrap_state(items: Seq<JsonV>, k: int, indent: nat) -> (Seq<char>, int)
    decreases k,
{
    let p = (2 * (indent / 2 + 1)) as int;
    if k <= 0 || k > items.len() {
        (seq![], p)
    } else {
        let (s, col) = wrap_state(items, k - 1, indent);
        let t = compact(items[k - 1]);
        let tl = byte_len(t) as int;
        let broke = col + tl > INLINE_WIDTH && col > p;
        let s1 = if broke {
            s + seq!['\n'] + pad(indent / 2 + 1)
        } else {
            s
        };
        let c1 = if broke {
            p
        } else {
            col
        };
        let s2 = s1 + t;
        let c2 = c1 + tl;
        if k < items.len() {
            if c2 + 2 + byte_len(compact(items[k])) <= INLINE_WIDTH {
                (s2 + seq![',', ' '], c2 + 2)
            } else {
                (s2 + seq![','], c2 + 1)
            }
        } else {
            (s2, c2)
        }
    }
}

/// An array of numbers broken across lines and wrapped like prose.
pub open spec fn wrapped(items: Seq<JsonV>, indent: nat) -> Seq<char> {
    seq!['[', '\n'] + pad(indent / 2 + 1) + wrap_state(items, items.len() as int, indent).0 + seq!['\n'] + pad(
        indent / 2,
    ) + seq![']']
}

proof fn lemma_byte_len_concat(a: Seq<char>, b: Seq<char>)
    ensures
        byte_len(a + b) == byte_len(a) + byte_len(b),
    decreases a.len(),
{
    if a.len() > 0 {
        assert((a + b)[0] == a[0]);
        assert((a + b).drop_first() =~= a.drop_first() + b);
        lemma_byte_len_concat(a.drop_first(), b);
    } else {
        assert(a + b =~= b);
    }
}

proof fn lemma_items_text_each(items: Seq<JsonV>, n: int)
    requires
        0 <= n <= items.len(),
    ensures
        forall|i: int| 0 <= i < n ==> byte_len(compact(#[trigger] items[i])) <= byte_len(compact_items(items, n)),
    decreases n,
{
    if n > 1 {
        lemma_items_text_each(items, n - 1);
        let prev = compact_items(items, n - 1);
        lemma_byte_len_concat(prev, seq![',']);
        lemma_byte_len_concat(prev + seq![','], compact(items[n - 1]));
    }
}

proof fn lemma_entries_text_each(es: Seq<(Seq<char>, Seq<char>, JsonV)>, n: int)
    requires
        0 <= n <= es.len(),
    ensures
        forall|i: int| 0 <= i < n ==> byte_len(compact((#[trigger] es[i]).2)) <= byte_len(compact_entries(es, n)),
    decreases n,
{
    if n > 0 {
        lemma_entries_text_each(es, n - 1);
        let e = es[n - 1];
        assert(compact_entry(e) == e.1 + seq![':'] + compact(e.2));
        lemma_byte_len_concat(e.1, seq![':']);
        lemma_byte_len_concat(e.1 + seq![':'], compact(e.2));
        if n == 1 {
            assert(compact_entries(es, n) == compact_entry(e));
        }
        if n > 1 {
            assert(compact_entries(es, n) == compact_entries(es, n - 1) + seq![','] + compact_entry(e));
            let prev = compact_entries(es, n - 1);
            lemma_byte_len_concat(prev, seq![',']);
            lemma_byte_len_concat(prev + seq![','], compact_entry(e));
        }
    }
}

/// Each item of a container is no longer, compact, than the container.
proof fn lemma_child_text(v: JsonV)
    ensures
        v matches JsonV::Array(items) ==> forall|i: int|
            0 <= i < items.len() ==> byte_len(compact(#[trigger] items[i])) <= byte_len(compact(v)),
        v matches JsonV::Object(es) ==> forall|i: int|
            0 <= i < es.len() ==> byte_len(compact((#[trigger] es[i]).2)) <= byte_len(compact(v)),
{
    match v {
        JsonV::Array(items) => {
            lemma_items_text_each(items, items.len() as int);
            let inner = compact_items(items, items.len() as int);
            lemma_byte_len_concat(seq!['['], inner);
            lemma_byte_len_concat(seq!['['] + inner, seq![']']);
        },
        JsonV::Object(es) => {
            lemma_entries_text_each(es, es.len() as int);
            let inner = compact_entries(es, es.len() as int);
            lemma_byte_len_concat(seq!['{'], inner);
            lemma_byte_len_concat(seq!['{'] + inner, seq!['}']);
        },
        _ => {},
    }
}

/// Whether every item is a number.
fn all_numbers_exec(items: &Vec<Json>, vs: Ghost<Seq<JsonV>>) -> (r: bool)
    requires
        vs@.len() == items@.len(),
        forall|k: int| 0 <= k < items@.len() ==> #[trigger] vs@[k] == json_view(items@[k]),
    ensures
        r == all_numbers(vs@),
{
    let mut i: usize = 0;
    while i < items.len()
        invariant
            i <= items@.len(),
            vs@.len() == items@.len(),
            forall|k: int| 0 <= k < items@.len() ==> #[trigger] vs@[k] == json_view(items@[k]),
            forall|k: int| 0 <= k < i ==> #[trigger] vs@[k] is Number,
        decreases items@.len() - i,
    {
        assert(vs@[i as int] == json_view(items@[i as int]));
        match &items[i] {
            Json::Number(_) => {},
            _ => {
                assert(!(vs@[i as int] is Number));
                return false;
            },
        }
        i += 1;
    }
    true
}

/// A wrapped array of numbers.
fn write_numbers(items: &Vec<Json>, vs: Ghost<Seq<JsonV>>, indent: usize, out: &mut String)
    requires
        vs@.len() == items@.len(),
        forall|k: int| 0 <= k < items@.len() ==> #[trigger] vs@[k] == json_view(items@[k]),
        forall|k: int| 0 <= k < vs@.len() ==> byte_len(compact(#[trigger] vs@[k])) <= usize::MAX,
        indent + 2 <= usize::MAX,
    ensures
        final(out)@ == old(out)@ + wrapped(vs@, indent as nat),
{
    let ghost o = old(out)@;
    let ghost ind = indent as nat;
    let half = indent / 2 + 1;
    push_str(out, "[\n");
    proof {
        reveal_strlit("[\n");
    }
    push_pad(out, half);
    let p: u128 = 2 * (half as u128);
    let mut col: u128 = p;
    let mut i: usize = 0;
    while i < items.len()
        invariant
            i <= items@.len(),
            vs@.len() == items@.len(),
            forall|k: int| 0 <= k < items@.len() ==> #[trigger] vs@[k] == json_view(items@[k]),
            forall|k: int| 0 <= k < vs@.len() ==> byte_len(compact(#[trigger] vs@[k])) <= usize::MAX,
            indent + 2 <= usize::MAX,
            half == indent / 2 + 1,
            ind == indent as nat,
            p == 2 * (indent / 2 + 1),
            out@ == o + seq!['[', '\n'] + pad(half as nat) + wrap_state(vs@, i as int, ind).0,
            col as int == wrap_state(vs@, i as int, ind).1,
            col <= 2 * (usize::MAX as u128) + 2,
        decreases items@.len() - i,
    {
        let ghost st = wrap_state(vs@, i as int, ind);
        let ghost prefix = o + seq!['[', '\n'] + pad(half as nat);
        let t = compact_of(&items[i]);
        assert(vs@[i as int] == json_view(items@[i as int]));
        let tl = t.as_str().len() as u128;
        assert(tl == byte_len(t@));
        let broke = col + tl > (INLINE_WIDTH as u128) && col > p;
        let ghost s1 = if broke {
            st.0 + seq!['\n'] + pad(half as nat)
        } else {
            st.0
        };
        if broke {
            push_char(out, '\n');
            push_pad(out, half);
            col = p;
        }
        assert(out@ =~= prefix + s1);
        push_str(out, t.as_str());
        assert(out@ =~= prefix + (s1 + t@));
        col = col + tl;
        let ghost s2 = s1 + t@;
        if i + 1 < items.len() {
            push_char(out, ',');
            col = col + 1;
            let next = compact_of(&items[i + 1]);
            assert(vs@[i as int + 1] == json_view(items@[i as int + 1]));
            let nl = next.as_str().len() as u128;
            assert(nl == byte_len(compact(vs@[i as int + 1])));
            if col + 1 + nl <= (INLINE_WIDTH as u128) {
                push_char(out, ' ');
                col = col + 1;
                assert(out@ =~= prefix + (s2 + seq![',', ' ']));
            } else {
                assert(out@ =~= prefix + (s2 + seq![',']));
            }
        }
        proof {
            let ns = wrap_state(vs@, i as int + 1, ind);
            assert(out@ =~= prefix + ns.0);
        }
        i += 1;
    }
    push_char(out, '\n');
    push_pad(out, indent / 2);
    push_char(out, ']');
    proof {
        assert(out@ =~= o + wrapped(vs@, ind));
    }
}

/// A value laid out at `indent`.
#[verifier::spinoff_prover]
#[verifier::rlimit(40)]
fn write_json(v: &Json, indent: usize, out: &mut String)
    requires
        byte_len(compact(json_view(*v))) <= usize::MAX,
        indent + 2 * json_size(json_view(*v)) <= usize::MAX,
    ensures
        final(out)@ == old(out)@ + layout(json_view(*v), indent as nat),
    decreases json_size(json_view(*v)),
{
    let ghost jv = json_view(*v);
    let ghost ind = indent as nat;
    let ghost o = old(out)@;
    proof {
        lemma_child_text(jv);
    }
    let c = compact_of(v);
    let clen = c.as_str().len();
    assert(clen == byte_len(c@));
    let container = match v {
        Json::Array(_) => true,
        Json::Object(_) => true,
        _ => false,
    };
    assert(container == is_container(jv));
    if (clen as u128) + (indent as u128) <= (INLINE_WIDTH as u128) || !container {
        push_str(out, c.as_str());
        return;
    }
    let half = indent / 2 + 1;
    match v {
        Json::Array(items) => {
            let ghost vs = match jv {
                JsonV::Array(w) => w,
                _ => seq![],
            };
            proof {
                lemma_items_size_each(vs, vs.len() as int);
            }
            if all_numbers_exec(items, Ghost(vs)) {
                write_numbers(items, Ghost(vs), indent, out);
                return;
            }
            push_str(out, "[\n");
            proof {
                reveal_strlit("[\n");
            }
            let mut i: usize = 0;
            while i < items.len()
                invariant
                    i <= items@.len(),
                    vs.len() == items@.len(),
                    jv == json_view(*v),
                    jv == JsonV::Array(vs),
                    forall|k: int| 0 <= k < items@.len() ==> #[trigger] vs[k] == json_view(items@[k]),
                    forall|k: int| 0 <= k < vs.len() ==> json_size(#[trigger] vs[k]) < json_size(jv),
                    forall|k: int| 0 <= k < vs.len() ==> byte_len(compact(#[trigger] vs[k])) <= byte_len(compact(jv)),
                    byte_len(compact(jv)) <= usize::MAX,
                    indent + 2 * json_size(jv) <= usize::MAX,
                    half == indent / 2 + 1,
                    ind == indent as nat,
                    out@ == o + seq!['[', '\n'] + layout_items(vs, i as int, ind),
                decreases items@.len() - i,
            {
                let ghost before = out@;
                assert(vs[i as int] == json_view(items@[i as int]));
                push_pad(out, half);
                write_json(&items[i], indent + 2, out);
                let ghost item = layout(vs[i as int], ind + 2);
                assert(out@ =~= before + pad(half as nat) + item);
                if i + 1 < items.len() {
                    push_char(out, ',');
                }
                push_char(out, '\n');
                proof {
                    let comma = if i + 1 < vs.len() { seq![','] } else { seq![] };
                    assert(out@ =~= before + pad(half as nat) + item + comma + seq!['\n']);
                    assert(layout_items(vs, i as int + 1, ind) == layout_items(vs, i as int, ind) + pad(ind / 2 + 1) + item + comma + seq!['\n']);
                    assert(out@ =~= o + seq!['[', '\n'] + layout_items(vs, i as int + 1, ind));
                }
                i += 1;
            }
            push_pad(out, indent / 2);
            push_char(out, ']');
            proof {
                assert(out@ =~= o + layout(jv, ind));
            }
        },
        Json::Object(es) => {
            let ghost vs = match jv {
                JsonV::Object(w) => w,
                _ => seq![],
            };
            proof {
                lemma_entries_size_each(vs, vs.len() as int);
            }
            push_str(out, "{\n");
            proof {
                reveal_strlit("{\n");
            }
            let mut i: usize = 0;
            while i < es.len()
                invariant
                    i <= es@.len(),
                    vs.len() == es@.len(),
                    jv == json_view(*v),
                    jv == JsonV::Object(vs),
                    forall|k: int| 0 <= k < es@.len() ==> #[trigger] vs[k] == (es@[k].0@, es@[k].1@, json_view(es@[k].2)),
                    forall|k: int| 0 <= k < vs.len() ==> json_size((#[trigger] vs[k]).2) < json_size(jv),
                    forall|k: int| 0 <= k < vs.len() ==> byte_len(compact((#[trigger] vs[k]).2)) <= byte_len(compact(jv)),
                    byte_len(compact(jv)) <= usize::MAX,
                    indent + 2 * json_size(jv) <= usize::MAX,
                    half == indent / 2 + 1,
                    ind == indent as nat,
                    out@ == o + seq!['{', '\n'] + layout_entries(vs, i as int, ind),
                decreases es@.len() - i,
            {
                let ghost before = out@;
                assert(vs[i as int] == (es@[i as int].0@, es@[i as int].1@, json_view(es@[i as int].2)));
                push_pad(out, half);
                push_char(out, '"');
                push_str(out, es[i].0.as_str());
                push_str(out, "\": ");
                proof {
                    reveal_strlit("\": ");
                }
                write_json(&es[i].2, indent + 2, out);
                let ghost item = layout(vs[i as int].2, ind + 2);
                let ghost head = pad(half as nat) + seq!['"'] + vs[i as int].0 + seq!['"', ':', ' '];
                assert(out@ =~= before + head + item);
                if i + 1 < es.len() {
                    push_char(out, ',');
                }
                push_char(out, '\n');
                proof {
                    let comma = if i + 1 < vs.len() { seq![','] } else { seq![] };
                    assert(out@ =~= before + head + item + comma + seq!['\n']);
                    assert(layout_entries(vs, i as int + 1, ind) == layout_entries(vs, i as int, ind) + pad(ind / 2 + 1) + seq!['"'] + vs[i as int].0 + seq!['"', ':', ' '] + item + comma + seq!['\n']);
                    assert(out@ =~= o + seq!['{', '\n'] + layout_entries(vs, i as int + 1, ind));
                }
                i += 1;
            }
            push_pad(out, indent / 2);
            push_char(out, '}');
            proof {
                assert(out@ =~= o + layout(jv, ind));
            }
        },
        _ => {},
    }
}

/// Render a JSON value with containers kept inline while they fit.
pub fn json(v: &Json, indent: usize) -> (r: String)
    requires
        byte_len(compact(json_view(*v))) <= usize::MAX,
        indent + 2 * json_size(json_view(*v)) <= usize::MAX,
    ensures
        r@ == layout(json_view(*v), indent as nat),
{
    let mut out = String::new();
    write_json(v, indent, &mut out);
    out
}

// ---------------------------------------------------------------------------
// Only whitespace differs
// ---------------------------------------------------------------------------

/// A text without its spaces and line breaks.
pub open spec fn visible(s: Seq<char>) -> Seq<char>
    decreases s.len(),
{
    if s.len() == 0 {
        seq![]
    } else {
        visible(s.drop_last()) + if s.last() == ' ' || s.last() == '\n' {
            seq![]
        } else {
            seq![s.last()]
        }
    }
}

/// Every key of a value, at any depth, is compact JSON as nothing more than
/// itself in double quotes: it needs no escaping.
pub open spec fn plain_keys(v: JsonV) -> bool
    decreases v, 0int,
{
    match v {
        JsonV::Array(items) => plain_items(items, items.len() as int),
        JsonV::Object(es) => plain_entries(es, es.len() as int),
        _ => true,
    }
}

pub open spec fn plain_items(items: Seq<JsonV>, n: int) -> bool
    decreases items, n,
{
    if n <= 0 || n > items.len() {
        true
    } else {
        plain_items(items, n - 1) && plain_keys(items[n - 1])
    }
}

pub open spec fn plain_entries(es: Seq<(Seq<char>, Seq<char>, JsonV)>, n: int) -> bool
    decreases es, n,
{
    if n <= 0 || n > es.len() {
        true
    } else {
        plain_entries(es, n - 1) && es[n - 1].1 == seq!['"'] + es[n - 1].0 + seq!['"'] && plain_keys(es[n - 1].2)
    }
}

proof fn lemma_visible_concat(a: Seq<char>, b: Seq<char>)
    ensures
        visible(a + b) == visible(a) + visible(b),
    decreases b.len(),
{
    if b.len() == 0 {
        assert(a + b =~= a);
        assert(visible(a) + visible(b) =~= visible(a));
    } else {
        assert((a + b).drop_last() =~= a + b.drop_last());
        assert((a + b).last() == b.last());
        lemma_visible_concat(a, b.drop_last());
        assert(visible(a + b) =~= visible(a) + visible(b));
    }
}

proof fn lemma_visible_pad(n: nat)
    ensures
        visible(pad(n)) == Seq::<char>::empty(),
    decreases n,
{
    if n > 0 {
        lemma_visible_pad((n - 1) as nat);
        assert(pad(n) =~= pad((n - 1) as nat) + seq![' ', ' ']);
        lemma_visible_concat(pad((n - 1) as nat), seq![' ', ' ']);
        assert(seq![' '].drop_last() =~= Seq::<char>::empty());
        assert(visible(Seq::<char>::empty()) =~= Seq::<char>::empty());
        assert(seq![' '].last() == ' ');
        assert(visible(seq![' ']) =~= Seq::<char>::empty());
        assert(seq![' ', ' '].drop_last() =~= seq![' ']);
        assert(visible(seq![' ', ' ']) =~= Seq::<char>::empty());
    }
}

proof fn lemma_visible_shown(s: Seq<char>)
    requires
        forall|i: int| 0 <= i < s.len() ==> s[i] != ' ' && s[i] != '\n',
    ensures
        visible(s) == s,
    decreases s.len(),
{
    if s.len() > 0 {
        lemma_visible_shown(s.drop_last());
        assert(s.drop_last() + seq![s.last()] =~= s);
    }
}

/// The visible text of the first `n` items laid out one per line: the compact
/// items joined by commas, with the comma that follows the last of them when
/// more come.
proof fn lemma_items_visible(items: Seq<JsonV>, n: int, indent: nat)
    requires
        0 <= n <= items.len(),
        plain_items(items, n),
    ensures
        visible(layout_items(items, n, indent)) == visible(compact_items(items, n)) + if 0 < n < items.len() {
            seq![',']
        } else {
            seq![]
        },
    decreases items, n, 0int,
{
    if n > 0 {
        lemma_items_visible(items, n - 1, indent);
        let m = n - 1;
        let item = layout(items[m], indent + 2);
        lemma_layout_visible(items[m], indent + 2);
        let comma: Seq<char> = if n < items.len() { seq![','] } else { seq![] };
        let prev = layout_items(items, m, indent);
        let p = pad(indent / 2 + 1);
        lemma_visible_concat(prev + p + item + comma, seq!['\n']);
        lemma_visible_concat(prev + p + item, comma);
        lemma_visible_concat(prev + p, item);
        lemma_visible_concat(prev, p);
        lemma_visible_pad(indent / 2 + 1);
        lemma_visible_shown(comma);
        assert(visible(seq!['\n']) =~= Seq::<char>::empty()) by {
            assert(seq!['\n'].drop_last() =~= Seq::<char>::empty());
        }
        if m > 0 {
            let ci = compact_items(items, m);
            lemma_visible_concat(ci + seq![','], compact(items[m]));
            lemma_visible_concat(ci, seq![',']);
            lemma_visible_shown(seq![',']);
        }
        assert(visible(layout_items(items, n, indent)) =~= visible(compact_items(items, n)) + comma);
    }
}

/// The visible text of the first `n` entries laid out one per line.
proof fn lemma_entries_visible(es: Seq<(Seq<char>, Seq<char>, JsonV)>, n: int, indent: nat)
    requires
        0 <= n <= es.len(),
        plain_entries(es, n),
    ensures
        visible(layout_entries(es, n, indent)) == visible(compact_entries(es, n)) + if 0 < n < es.len() {
            seq![',']
        } else {
            seq![]
        },
    decreases es, n, 0int,
{
    if n > 0 {
        lemma_entries_visible(es, n - 1, indent);
        let m = n - 1;
        let e = es[m];
        let line = entry_line(e, indent);
        lemma_entry_line_visible(e, indent);
        let comma: Seq<char> = if n < es.len() { seq![','] } else { seq![] };
        let prev = layout_entries(es, m, indent);
        assert(layout_entries(es, n, indent) =~= prev + line + comma + seq!['\n']);
        lemma_visible_concat(prev + line + comma, seq!['\n']);
        lemma_visible_concat(prev + line, comma);
        lemma_visible_concat(prev, line);
        lemma_visible_shown(comma);
        assert(visible(seq!['\n']) =~= Seq::<char>::empty()) by {
            assert(seq!['\n'].drop_last() =~= Seq::<char>::empty());
        }
        let ce = compact_entry(e);
        if m > 0 {
            let ci = compact_entries(es, m);
            lemma_visible_concat(ci + seq![','], ce);
            lemma_visible_concat(ci, seq![',']);
            lemma_visible_shown(seq![',']);
        }
        assert(visible(layout_entries(es, n, indent)) =~= visible(compact_entries(es, n)) + comma);
    }
}

/// One entry of a broken object, before its comma: the padding, the key as
/// written in quotes, and the value laid out a level deeper.
pub open spec fn entry_line(e: (Seq<char>, Seq<char>, JsonV), indent: nat) -> Seq<char> {
    pad(indent / 2 + 1) + seq!['"'] + e.0 + seq!['"', ':', ' '] + layout(e.2, indent + 2)
}

proof fn lemma_entry_line_visible(e: (Seq<char>, Seq<char>, JsonV), indent: nat)
    requires
        e.1 == seq!['"'] + e.0 + seq!['"'],
        plain_keys(e.2),
    ensures
        visible(entry_line(e, indent)) == visible(compact_entry(e)),
    decreases e, 0int,
{
    let p = pad(indent / 2 + 1);
    let item = layout(e.2, indent + 2);
    lemma_layout_visible(e.2, indent + 2);
    let key = seq!['"'] + e.0 + seq!['"'];
    lemma_visible_pad(indent / 2 + 1);
    assert(entry_line(e, indent) =~= p + (key + seq![':', ' ']) + item);
    lemma_visible_concat(p + (key + seq![':', ' ']), item);
    lemma_visible_concat(p, key + seq![':', ' ']);
    lemma_visible_concat(key, seq![':', ' ']);
    assert(visible(seq![':', ' ']) =~= seq![':']) by {
        assert(seq![':', ' '].drop_last() =~= seq![':']);
        lemma_visible_shown(seq![':']);
    }
    assert(compact_entry(e) == key + seq![':'] + compact(e.2));
    lemma_visible_concat(key + seq![':'], compact(e.2));
    lemma_visible_concat(key, seq![':']);
    lemma_visible_shown(seq![':']);
}

/// The visible text after the first `k` numbers of a wrapped array.
proof fn lemma_wrap_visible(items: Seq<JsonV>, k: int, indent: nat)
    requires
        0 <= k <= items.len(),
    ensures
        visible(wrap_state(items, k, indent).0) == visible(compact_items(items, k)) + if 0 < k < items.len() {
            seq![',']
        } else {
            seq![]
        },
    decreases k,
{
    if k > 0 {
        lemma_wrap_visible(items, k - 1, indent);
        let (s, col) = wrap_state(items, k - 1, indent);
        let t = compact(items[k - 1]);
        let p = pad(indent / 2 + 1);
        lemma_visible_pad(indent / 2 + 1);
        lemma_visible_concat(s + seq!['\n'], p);
        lemma_visible_concat(s, seq!['\n']);
        assert(visible(seq!['\n']) =~= Seq::<char>::empty()) by {
            assert(seq!['\n'].drop_last() =~= Seq::<char>::empty());
        }
        assert(visible(s + seq!['\n'] + p) == visible(s));
        lemma_visible_concat(s, t);
        lemma_visible_concat(s + seq!['\n'] + p, t);
        lemma_visible_concat(s + t, seq![',', ' ']);
        lemma_visible_concat(s + seq!['\n'] + p + t, seq![',', ' ']);
        lemma_visible_concat(s + t, seq![',']);
        lemma_visible_concat(s + seq!['\n'] + p + t, seq![',']);
        lemma_visible_shown(seq![',']);
        assert(visible(seq![',', ' ']) =~= seq![',']) by {
            assert(seq![',', ' '].drop_last() =~= seq![',']);
        }
        if k > 1 {
            let ci = compact_items(items, k - 1);
            lemma_visible_concat(ci + seq![','], t);
            lemma_visible_concat(ci, seq![',']);
        }
        let comma: Seq<char> = if k < items.len() { seq![','] } else { seq![] };
        assert(visible(wrap_state(items, k, indent).0) =~= visible(compact_items(items, k)) + comma);
    }
}

/// Laying a value out changes only whitespace: with its spaces and line
/// breaks taken out, the readable text is the compact one with its spaces and
/// line breaks taken out. This holds wherever every key needs no escaping,
/// since a broken object writes its keys as they are.
pub proof fn lemma_layout_visible(v: JsonV, indent: nat)
    requires
        plain_keys(v),
    ensures
        visible(layout(v, indent)) == visible(compact(v)),
    decreases v, 1int,
{
    if !(fits(v, indent) || !is_container(v)) {
        match v {
            JsonV::Array(items) => {
                let n = items.len() as int;
                let inner = compact_items(items, n);
                lemma_visible_concat(seq!['['] + inner, seq![']']);
                lemma_visible_concat(seq!['['], inner);
                lemma_visible_shown(seq!['[']);
                lemma_visible_shown(seq![']']);
                lemma_visible_pad(indent / 2);
                lemma_visible_pad(indent / 2 + 1);
                assert(visible(seq!['[', '\n']) =~= seq!['[']) by {
                    assert(seq!['[', '\n'].drop_last() =~= seq!['[']);
                }
                assert(visible(seq!['\n']) =~= Seq::<char>::empty()) by {
                    assert(seq!['\n'].drop_last() =~= Seq::<char>::empty());
                }
                if all_numbers(items) {
                    lemma_wrap_visible(items, n, indent);
                    let w = wrap_state(items, n, indent).0;
                    let a = seq!['[', '\n'] + pad(indent / 2 + 1);
                    lemma_visible_concat(seq!['[', '\n'], pad(indent / 2 + 1));
                    lemma_visible_concat(a, w);
                    lemma_visible_concat(a + w, seq!['\n']);
                    lemma_visible_concat(a + w + seq!['\n'], pad(indent / 2));
                    lemma_visible_concat(a + w + seq!['\n'] + pad(indent / 2), seq![']']);
                } else {
                    lemma_items_visible(items, n, indent);
                    let li = layout_items(items, n, indent);
                    lemma_visible_concat(seq!['[', '\n'], li);
                    lemma_visible_concat(seq!['[', '\n'] + li, pad(indent / 2));
                    lemma_visible_concat(seq!['[', '\n'] + li + pad(indent / 2), seq![']']);
                }
            },
            JsonV::Object(es) => {
                let n = es.len() as int;
                lemma_entries_visible(es, n, indent);
                let inner = compact_entries(es, n);
                lemma_visible_concat(seq!['{'] + inner, seq!['}']);
                lemma_visible_concat(seq!['{'], inner);
                lemma_visible_shown(seq!['{']);
                lemma_visible_shown(seq!['}']);
                lemma_visible_pad(indent / 2);
                assert(visible(seq!['{', '\n']) =~= seq!['{']) by {
                    assert(seq!['{', '\n'].drop_last() =~= seq!['{']);
                }
                let le = layout_entries(es, n, indent);
                lemma_visible_concat(seq!['{', '\n'], le);
                lemma_visible_concat(seq!['{', '\n'] + le, pad(indent / 2));
                lemma_visible_concat(seq!['{', '\n'] + le + pad(indent / 2), seq!['}']);
            },
            _ => {},
        }
    }
}

} // verus!
