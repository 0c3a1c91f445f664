//! Reference resolution: turn `effect('Position - Overshoot')('ADBE Slider
//! Control-0001')` into `effect(2)(0)`.
//!
//! Almost nothing in an expression string table is a layer name — the rest is
//! After Effects effect and parameter names, shipped so that a body can look at
//! runtime for something the compiler resolved at build time. Each one is
//! paid for three times over: the literal in the body, the name on the effect
//! in the payload, and the linear search that matches them up.
//!
//! Only the *owning* layer's effects are resolved, which is what a bare
//! `effect(…)` and `thisLayer.effect(…)` both mean.
//!
//! Bodies are deduplicated, so one is shared by every layer it was applied to
//! and a rewrite has to be right for all of them. The indices are resolved once
//! per using layer and the rewrite only happens if they all agree.
//!
//! Spans here count characters, not bytes.

use vstd::prelude::*;
pub use crate::expr::syntax::{branches, refs};
use crate::ir::{Effect, EffectParam};
use crate::lines::{lines, split_lines, views};
use crate::text::insert_sorted;
use crate::text::{
    chars_eq, chars_of, decimal, decimal_chars, has_at, lemma_lex_total, lemma_lex_trans, lex_less, lex_lt,
    push_chars, slice_chars, starts_with, strictly_sorted, string_of,
};

verus! {

broadcast use vstd::seq_lib::group_seq_properties;

/// A range of a body, in characters: `start..end`. Bodies are held as
/// character sequences here, so positions count characters, not the bytes of
/// the UTF-8 text; the two agree on ASCII bodies, and the parser's byte ranges
/// are turned into character ranges by `span_of` before they reach a `Span`.
#[derive(Clone, Copy, PartialEq, Eq, Structural, Debug)]
pub struct Span {
    pub start: usize,
    pub end: usize,
}

impl Span {
    /// The span `start..end`.
    pub fn new(start: usize, end: usize) -> (r: Span)
        ensures
            r.start == start,
            r.end == end,
    {
        Span { start, end }
    }
}

// ---------------------------------------------------------------------------
// Splicing replacements into a body
// ---------------------------------------------------------------------------

/// A replacement: the characters `start..end` become `text`.
pub type Cut = (int, int, Seq<char>);

/// Whether the cuts are well-formed for `body`: each lies inside it (an
/// empty one is an insertion), no two overlap, and no two start at one place.
pub open spec fn cuts_ok(body: Seq<char>, cuts: Seq<Cut>) -> bool {
    &&& forall|k: int| 0 <= k < cuts.len() ==> 0 <= (#[trigger] cuts[k]).0 <= cuts[k].1 <= body.len()
    &&& forall|a: int, b: int|
        0 <= a < cuts.len() && 0 <= b < cuts.len() && a != b ==> ((#[trigger] cuts[a]).1 <= (#[trigger] cuts[b]).0
            || cuts[b].1 <= cuts[a].0) && cuts[a].0 != cuts[b].0
}

/// Whether some cut starts at `p`.
pub open spec fn starts_cut(cuts: Seq<Cut>, p: int) -> bool {
    exists|k: int| 0 <= k < cuts.len() && (#[trigger] cuts[k]).0 == p
}

/// `body` from position `p` on, with every cut replaced by its text: the
/// text of an empty cut goes in before the character it starts at.
pub open spec fn splice(body: Seq<char>, cuts: Seq<Cut>, p: int) -> Seq<char>
    decreases body.len() + 1 - p,
{
    if p < 0 || p > body.len() {
        seq![]
    } else if starts_cut(cuts, p) {
        let k = choose|k: int| 0 <= k < cuts.len() && (#[trigger] cuts[k]).0 == p;
        if cuts[k].1 == p {
            cuts[k].2 + if p < body.len() {
                seq![body[p]] + splice(body, cuts, p + 1)
            } else {
                seq![]
            }
        } else if p < cuts[k].1 <= body.len() {
            cuts[k].2 + splice(body, cuts, cuts[k].1)
        } else {
            seq![]
        }
    } else if p == body.len() {
        seq![]
    } else {
        seq![body[p]] + splice(body, cuts, p + 1)
    }
}

/// The order in which cuts are listed does not matter: two well-formed lists
/// holding the same cuts splice a body alike.
pub proof fn lemma_splice_order(body: Seq<char>, a: Seq<Cut>, b: Seq<Cut>, p: int)
    requires
        cuts_ok(body, a),
        cuts_ok(body, b),
        forall|c: Cut| a.contains(c) <==> b.contains(c),
    ensures
        splice(body, a, p) == splice(body, b, p),
    decreases body.len() + 1 - p,
{
    if 0 <= p <= body.len() {
        if starts_cut(a, p) {
            let k = choose|k: int| 0 <= k < a.len() && (#[trigger] a[k]).0 == p;
            assert(a.contains(a[k]));
            assert(b.contains(a[k]));
            let i = choose|i: int| 0 <= i < b.len() && b[i] == a[k];
            assert(b[i].0 == p);
            assert(starts_cut(b, p));
            let m = choose|m: int| 0 <= m < b.len() && (#[trigger] b[m]).0 == p;
            if m != i {
                assert(b[m].0 != b[i].0);
            }
            if a[k].1 == p {
                if p < body.len() {
                    lemma_splice_order(body, a, b, p + 1);
                }
            } else if p < a[k].1 <= body.len() {
                lemma_splice_order(body, a, b, a[k].1);
            }
        } else {
            assert(!starts_cut(b, p)) by {
                if starts_cut(b, p) {
                    let m = choose|m: int| 0 <= m < b.len() && (#[trigger] b[m]).0 == p;
                    assert(b.contains(b[m]));
                    assert(a.contains(b[m]));
                    let j = choose|j: int| 0 <= j < a.len() && a[j] == b[m];
                    assert(a[j].0 == p);
                }
            }
            if p < body.len() {
                lemma_splice_order(body, a, b, p + 1);
            }
        }
    }
}

/// The view of exec cuts.
pub open spec fn cut_views(cuts: Seq<(usize, usize, Vec<char>)>) -> Seq<Cut> {
    cuts.map_values(|c: (usize, usize, Vec<char>)| (c.0 as int, c.1 as int, c.2@))
}

/// Replace every cut in `body`.
pub fn apply_cuts(body: &[char], cuts: &Vec<(usize, usize, Vec<char>)>) -> (r: Vec<char>)
    requires
        cuts_ok(body@, cut_views(cuts@)),
    ensures
        r@ == splice(body@, cut_views(cuts@), 0),
{
    let ghost cs = cut_views(cuts@);
    let mut out: Vec<char> = Vec::new();
    let mut p: usize = 0;
    let mut done = false;
    while !done
        invariant
            cs == cut_views(cuts@),
            cuts_ok(body@, cs),
            p <= body@.len(),
            !done ==> out@ + splice(body@, cs, p as int) == splice(body@, cs, 0),
            done ==> out@ == splice(body@, cs, 0),
        decreases (body@.len() - p) * 2 + if done { 0int } else { 1int },
    {
        let mut found: Option<usize> = None;
        let mut k: usize = 0;
        while k < cuts.len()
            invariant
                cs == cut_views(cuts@),
                k <= cuts@.len(),
                match found {
                    Some(f) => f < cuts@.len() && cuts@[f as int].0 == p,
                    None => forall|j: int| 0 <= j < k ==> (#[trigger] cuts@[j]).0 != p,
                },
            decreases cuts@.len() - k,
        {
            if found.is_none() && cuts[k].0 == p {
                found = Some(k);
            }
            k += 1;
        }
        let ghost o = out@;
        match found {
            Some(f) => {
                proof {
                    assert(cs[f as int].0 == p);
                    assert(starts_cut(cs, p as int));
                    let kc = choose|k: int| 0 <= k < cs.len() && (#[trigger] cs[k]).0 == p as int;
                    if kc != f as int {
                        assert(cs[kc].0 != cs[f as int].0);
                    }
                }
                let mut t = slice_chars(cuts[f].2.as_slice(), 0, cuts[f].2.len());
                assert(t@ =~= cs[f as int].2);
                out.append(&mut t);
                if cuts[f].1 == p {
                    if p < body.len() {
                        out.push(body[p]);
                        assert(out@ + splice(body@, cs, p + 1) =~= o + (cs[f as int].2 + (seq![body@[p as int]]
                            + splice(body@, cs, p + 1))));
                        p += 1;
                    } else {
                        assert(out@ =~= o + cs[f as int].2);
                        assert(out@ =~= o + splice(body@, cs, p as int));
                        done = true;
                    }
                } else {
                    p = cuts[f].1;
                }
            },
            None => {
                proof {
                    assert(!starts_cut(cs, p as int)) by {
                        if starts_cut(cs, p as int) {
                            let kc = choose|k: int| 0 <= k < cs.len() && (#[trigger] cs[k]).0 == p as int;
                            assert(cuts@[kc].0 == p);
                        }
                    }
                }
                if p < body.len() {
                    out.push(body[p]);
                    assert(out@ + splice(body@, cs, p + 1) =~= o + (seq![body@[p as int]] + splice(body@, cs, p + 1)));
                    p += 1;
                } else {
                    assert(splice(body@, cs, p as int) =~= Seq::<char>::empty());
                    assert(out@ =~= o + splice(body@, cs, p as int));
                    done = true;
                }
            },
        }
    }
    out
}

/// Whether `cuts` can be spliced into `body`: every range lies inside it,
/// overlaps no other, and starts where no other starts.
pub fn cuts_fit(body: &[char], cuts: &Vec<(usize, usize, Vec<char>)>) -> (r: bool)
    ensures
        r == cuts_ok(body@, cut_views(cuts@)),
{
    let ghost cs = cut_views(cuts@);
    let mut a: usize = 0;
    while a < cuts.len()
        invariant
            cs == cut_views(cuts@),
            a <= cuts@.len(),
            forall|k: int| 0 <= k < a ==> 0 <= (#[trigger] cs[k]).0 <= cs[k].1 <= body@.len(),
            forall|x: int, y: int|
                0 <= x < a && 0 <= y < cuts@.len() && x != y ==> ((#[trigger] cs[x]).1 <= (#[trigger] cs[y]).0
                    || cs[y].1 <= cs[x].0) && cs[x].0 != cs[y].0,
        decreases cuts@.len() - a,
    {
        if !(cuts[a].0 <= cuts[a].1 && cuts[a].1 <= body.len()) {
            assert(!(0 <= cs[a as int].0 <= cs[a as int].1 <= body@.len()));
            return false;
        }
        let mut b: usize = 0;
        while b < cuts.len()
            invariant
                cs == cut_views(cuts@),
                a < cuts@.len(),
                b <= cuts@.len(),
                forall|y: int|
                    0 <= y < b && a != y ==> ((#[trigger] cs[y]).1 <= cs[a as int].0 || cs[a as int].1 <= cs[y].0)
                        && cs[a as int].0 != cs[y].0,
            decreases cuts@.len() - b,
        {
            if a != b && !((cuts[a].1 <= cuts[b].0 || cuts[b].1 <= cuts[a].0) && cuts[a].0 != cuts[b].0) {
                assert(!((cs[a as int].1 <= cs[b as int].0 || cs[b as int].1 <= cs[a as int].0) && cs[a as int].0 != cs[b as int].0));
                return false;
            }
            b += 1;
        }
        a += 1;
    }
    true
}

// ---------------------------------------------------------------------------
// References
// ---------------------------------------------------------------------------

/// A group of name literals the compiler can replace with indices.
///
/// Both forms resolve to a flat list of numbers parallel to the spans of
/// [`Ref::spans`], so the agreement check across a shared body's uses is a
/// list comparison and the rewrite is a splice.
#[derive(Debug)]
pub enum Ref {
    /// `effect('name')('param')` — the literals are right there.
    Direct { name: Span, param: Span, name_str: String, param_str: String },
    /// `var names = ['a', 'b', …]` indexed into `effect(names[i])('param')`.
    ///
    /// After Effects generates this for anything applied across a set of
    /// layers: the names are constants, the loop bound is `names.length`, and
    /// only the index varies. Replacing the elements with effect indices makes
    /// the lookup positional without touching the loop.
    Table { elems: Vec<(Span, String)>, param: Span, param_str: String },
}

/// The literals a reference would replace, in body order.
pub open spec fn ref_spans(r: &Ref) -> Seq<Span> {
    match r {
        Ref::Direct { name, param, .. } => seq![*name, *param],
        Ref::Table { elems, param, .. } => elems@.map_values(|e: (Span, String)| e.0).push(*param),
    }
}

impl Ref {
    /// The literals this reference would replace, in body order.
    pub fn spans(&self) -> (r: Vec<Span>)
        ensures
            r@ == ref_spans(self),
    {
        match self {
            Ref::Direct { name, param, .. } => {
                let mut v: Vec<Span> = Vec::new();
                v.push(*name);
                v.push(*param);
                assert(v@ =~= seq![*name, *param]);
                v
            },
            Ref::Table { elems, param, .. } => {
                let mut v: Vec<Span> = Vec::new();
                let mut i: usize = 0;
                while i < elems.len()
                    invariant
                        i <= elems@.len(),
                        v@ == elems@.map_values(|e: (Span, String)| e.0).take(i as int),
                    decreases elems@.len() - i,
                {
                    v.push(elems[i].0);
                    assert(v@ =~= elems@.map_values(|e: (Span, String)| e.0).take(i + 1));
                    i += 1;
                }
                v.push(*param);
                assert(v@ =~= elems@.map_values(|e: (Span, String)| e.0).push(*param));
                v
            },
        }
    }
}

// ---------------------------------------------------------------------------
// Resolving against a layer's effects
// ---------------------------------------------------------------------------

/// Whether an item called `name` (display name) or `match_name` answers to `n`.
pub open spec fn answers(name: Option<String>, match_name: Option<String>, n: Seq<char>) -> bool {
    (name matches Some(x) && x@ == n) || (match_name matches Some(x) && x@ == n)
}

/// Whether effect `i` is the one and only effect answering to `n`.
pub open spec fn sole_effect_at(effects: Seq<Effect>, n: Seq<char>, i: int) -> bool {
    &&& 0 <= i < effects.len()
    &&& answers(effects[i].name, effects[i].match_name, n)
    &&& forall|j: int| 0 <= j < effects.len() && j != i
        ==> !answers(#[trigger] effects[j].name, effects[j].match_name, n)
}

/// Whether parameter `i` is the one and only parameter answering to `n`.
pub open spec fn sole_param_at(params: Seq<EffectParam>, n: Seq<char>, i: int) -> bool {
    &&& 0 <= i < params.len()
    &&& answers(params[i].name, params[i].match_name, n)
    &&& forall|j: int| 0 <= j < params.len() && j != i
        ==> !answers(#[trigger] params[j].name, params[j].match_name, n)
}

/// The index of the one effect answering to `n`; `None` when none does or
/// more than one does.
pub open spec fn sole_effect(effects: Seq<Effect>, n: Seq<char>) -> Option<int> {
    if exists|i: int| sole_effect_at(effects, n, i) {
        Some(choose|i: int| sole_effect_at(effects, n, i))
    } else {
        None
    }
}

/// The index of the one parameter answering to `n`; `None` when none does or
/// more than one does.
pub open spec fn sole_param(params: Seq<EffectParam>, n: Seq<char>) -> Option<int> {
    if exists|i: int| sole_param_at(params, n, i) {
        Some(choose|i: int| sole_param_at(params, n, i))
    } else {
        None
    }
}

/// The effect index and parameter slot that `effect(name)(param)` reaches.
pub open spec fn lookup(effects: Seq<Effect>, name: Seq<char>, param: Seq<char>) -> Option<(int, int)> {
    match sole_effect(effects, name) {
        None => None,
        Some(e) => match sole_param(effects[e].parameters@, param) {
            None => None,
            Some(p) => Some((e, p)),
        },
    }
}

/// A table's element indices so far, and the parameter slot they share.
pub open spec fn table_lookup(elems: Seq<(Span, String)>, effects: Seq<Effect>, param: Seq<char>) -> Option<(Seq<u32>, Option<int>)>
    decreases elems.len(),
{
    if elems.len() == 0 {
        Some((seq![], None))
    } else {
        match table_lookup(elems.drop_last(), effects, param) {
            None => None,
            Some((es, slot)) => match lookup(effects, elems.last().1@, param) {
                None => None,
                Some((e, p)) => if slot matches Some(q) && q != p {
                    None
                } else {
                    Some((es.push(e as u32), Some(p)))
                },
            },
        }
    }
}

/// What [`Ref::resolve`] gives against one layer's effects.
pub open spec fn spec_resolve(r: &Ref, effects: Seq<Effect>) -> Option<Seq<u32>> {
    match r {
        Ref::Direct { name_str, param_str, .. } => match lookup(effects, name_str@, param_str@) {
            Some((e, p)) => Some(seq![e as u32, p as u32]),
            None => None,
        },
        Ref::Table { elems, param_str, .. } => match table_lookup(elems@, effects, param_str@) {
            Some((es, Some(p))) => Some(es.push(p as u32)),
            _ => None,
        },
    }
}

/// Whether every index a lookup can produce fits a `u32`.
pub open spec fn indexable(effects: Seq<Effect>) -> bool {
    &&& effects.len() <= u32::MAX
    &&& forall|i: int| 0 <= i < effects.len() ==> (#[trigger] effects[i]).parameters@.len() <= u32::MAX
}

fn answers_to(name: &Option<String>, match_name: &Option<String>, n: &str) -> (r: bool)
    ensures
        r == answers(*name, *match_name, n@),
{
    let a = match name {
        Some(x) => crate::text::str_eq(x.as_str(), n),
        None => false,
    };
    if a {
        return true;
    }
    match match_name {
        Some(x) => crate::text::str_eq(x.as_str(), n),
        None => false,
    }
}

fn effect_index(effects: &[Effect], name: &str) -> (r: Option<u32>)
    requires
        effects@.len() <= u32::MAX,
    ensures
        match sole_effect(effects@, name@) {
            Some(i) => r == Some(i as u32),
            None => r is None,
        },
{
    let mut found: Option<u32> = None;
    let mut i: usize = 0;
    while i < effects.len()
        invariant
            effects@.len() <= u32::MAX,
            i <= effects@.len(),
            match found {
                None => forall|j: int| 0 <= j < i ==> !answers(#[trigger] effects@[j].name, effects@[j].match_name, name@),
                Some(f) => f < i && answers(effects@[f as int].name, effects@[f as int].match_name, name@)
                    && forall|j: int| 0 <= j < i && j != f ==> !answers(#[trigger] effects@[j].name, effects@[j].match_name, name@),
            },
        decreases effects@.len() - i,
    {
        if answers_to(&effects[i].name, &effects[i].match_name, name) {
            if let Some(f) = found {
                proof {
                    assert forall|k: int| !sole_effect_at(effects@, name@, k) by {
                        if sole_effect_at(effects@, name@, k) {
                            if k != f as int {
                                assert(!answers(effects@[f as int].name, effects@[f as int].match_name, name@));
                            } else {
                                assert(!answers(effects@[i as int].name, effects@[i as int].match_name, name@));
                            }
                        }
                    }
                }
                return None;
            }
            found = Some(i as u32);
        }
        i += 1;
    }
    proof {
        match found {
            Some(f) => {
                assert(sole_effect_at(effects@, name@, f as int));
                assert forall|k: int| sole_effect_at(effects@, name@, k) implies k == f as int by {
                    if k != f as int {
                        assert(!answers(effects@[k].name, effects@[k].match_name, name@));
                    }
                }
            },
            None => {
                assert forall|k: int| !sole_effect_at(effects@, name@, k) by {
                    if 0 <= k < effects@.len() {
                        assert(!answers(effects@[k].name, effects@[k].match_name, name@));
                    }
                }
            },
        }
    }
    found
}

fn param_index(ps: &[EffectParam], name: &str) -> (r: Option<u32>)
    requires
        ps@.len() <= u32::MAX,
    ensures
        match sole_param(ps@, name@) {
            Some(i) => r == Some(i as u32),
            None => r is None,
        },
{
    let mut found: Option<u32> = None;
    let mut i: usize = 0;
    while i < ps.len()
        invariant
            ps@.len() <= u32::MAX,
            i <= ps@.len(),
            match found {
                None => forall|j: int| 0 <= j < i ==> !answers(#[trigger] ps@[j].name, ps@[j].match_name, name@),
                Some(f) => f < i && answers(ps@[f as int].name, ps@[f as int].match_name, name@)
                    && forall|j: int| 0 <= j < i && j != f ==> !answers(#[trigger] ps@[j].name, ps@[j].match_name, name@),
            },
        decreases ps@.len() - i,
    {
        if answers_to(&ps[i].name, &ps[i].match_name, name) {
            if let Some(f) = found {
                proof {
                    assert forall|k: int| !sole_param_at(ps@, name@, k) by {
                        if sole_param_at(ps@, name@, k) {
                            if k != f as int {
                                assert(!answers(ps@[f as int].name, ps@[f as int].match_name, name@));
                            } else {
                                assert(!answers(ps@[i as int].name, ps@[i as int].match_name, name@));
                            }
                        }
                    }
                }
                return None;
            }
            found = Some(i as u32);
        }
        i += 1;
    }
    proof {
        match found {
            Some(f) => {
                assert(sole_param_at(ps@, name@, f as int));
                assert forall|k: int| sole_param_at(ps@, name@, k) implies k == f as int by {
                    if k != f as int {
                        assert(!answers(ps@[k].name, ps@[k].match_name, name@));
                    }
                }
            },
            None => {
                assert forall|k: int| !sole_param_at(ps@, name@, k) by {
                    if 0 <= k < ps@.len() {
                        assert(!answers(ps@[k].name, ps@[k].match_name, name@));
                    }
                }
            },
        }
    }
    found
}

/// The effect index and parameter slot of `effect(name)(param)`.
fn lookup_exec(effects: &[Effect], name: &str, param: &str) -> (r: Option<(u32, u32)>)
    requires
        indexable(effects@),
    ensures
        match lookup(effects@, name@, param@) {
            Some((e, p)) => r == Some((e as u32, p as u32)),
            None => r is None,
        },
{
    let e = match effect_index(effects, name) {
        Some(e) => e,
        None => {
            return None;
        },
    };
    assert(effects@[e as int].parameters@.len() <= u32::MAX);
    match param_index(effects[e as usize].parameters.as_slice(), param) {
        Some(p) => Some((e, p)),
        None => None,
    }
}

impl Ref {
    /// Indices for each span, against one layer's effects.
    ///
    /// `None` whenever anything is ambiguous or absent — two effects answering
    /// to one name, a parameter that is not on the effect, or a table whose
    /// effects disagree about where the parameter sits.
    pub fn resolve(&self, effects: &[Effect]) -> (r: Option<Vec<u32>>)
        requires
            indexable(effects@),
        ensures
            match spec_resolve(self, effects@) {
                Some(v) => r matches Some(x) && x@ == v,
                None => r is None,
            },
    {
        match self {
            Ref::Direct { name_str, param_str, .. } => {
                match lookup_exec(effects, name_str.as_str(), param_str.as_str()) {
                    Some((e, p)) => {
                        let mut v: Vec<u32> = Vec::new();
                        v.push(e);
                        v.push(p);
                        assert(v@ =~= seq![e, p]);
                        Some(v)
                    },
                    None => None,
                }
            },
            Ref::Table { elems, param_str, .. } => {
                let mut out: Vec<u32> = Vec::new();
                let mut slot: Option<u32> = None;
                let mut i: usize = 0;
                while i < elems.len()
                    invariant
                        indexable(effects@),
                        i <= elems@.len(),
                        spec_resolve(self, effects@) == match table_lookup(elems@, effects@, param_str@) {
                            Some((es, Some(p))) => Some(es.push(p as u32)),
                            _ => None,
                        },
                        table_lookup(elems@.take(i as int), effects@, param_str@) == Some((
                            out@,
                            match slot {
                                Some(q) => Some(q as int),
                                None => None,
                            },
                        )),
                        slot matches Some(q) ==> q <= u32::MAX,
                    decreases elems@.len() - i,
                {
                    assert(elems@.take(i + 1).drop_last() =~= elems@.take(i as int));
                    assert(elems@.take(i + 1).last() == elems@[i as int]);
                    let (e, p) = match lookup_exec(effects, elems[i].1.as_str(), param_str.as_str()) {
                        Some(ep) => ep,
                        None => {
                            proof {
                                lemma_table_lookup_none(elems@, effects@, param_str@, i as int + 1);
                            }
                            return None;
                        },
                    };
                    if let Some(q) = slot {
                        if q != p {
                            proof {
                                lemma_table_lookup_none(elems@, effects@, param_str@, i as int + 1);
                            }
                            return None;
                        }
                    }
                    slot = Some(p);
                    out.push(e);
                    i += 1;
                }
                assert(elems@.take(elems@.len() as int) =~= elems@);
                match slot {
                    Some(p) => {
                        out.push(p);
                        Some(out)
                    },
                    None => None,
                }
            },
        }
    }
}

/// Once a prefix of a table fails to resolve, the whole table does.
proof fn lemma_table_lookup_none(elems: Seq<(Span, String)>, effects: Seq<Effect>, param: Seq<char>, n: int)
    requires
        0 <= n <= elems.len(),
        table_lookup(elems.take(n), effects, param) is None,
    ensures
        table_lookup(elems, effects, param) is None,
    decreases elems.len() - n,
{
    if n < elems.len() {
        assert(elems.take(n + 1).drop_last() =~= elems.take(n));
        lemma_table_lookup_none(elems, effects, param, n + 1);
    } else {
        assert(elems.take(n) =~= elems);
    }
}

// ---------------------------------------------------------------------------
// Rewriting
// ---------------------------------------------------------------------------

/// The cuts one resolved reference makes: each span paired with its index, as
/// far as both lists go.
pub open spec fn pair_cuts(spans: Seq<Span>, values: Seq<u32>) -> Seq<Cut> {
    Seq::new(
        if spans.len() <= values.len() { spans.len() } else { values.len() },
        |i: int| (spans[i].start as int, spans[i].end as int, decimal(values[i] as nat)),
    )
}

/// The cuts of every resolved reference, in order.
pub open spec fn rewrite_cuts(resolved: Seq<(Seq<Span>, Seq<u32>)>) -> Seq<Cut>
    decreases resolved.len(),
{
    if resolved.len() == 0 {
        seq![]
    } else {
        rewrite_cuts(resolved.drop_last()) + pair_cuts(resolved.last().0, resolved.last().1)
    }
}

/// The view of the resolved references handed to [`rewrite`].
pub open spec fn resolved_views(resolved: Seq<(&Ref, Vec<u32>)>) -> Seq<(Seq<Span>, Seq<u32>)> {
    resolved.map_values(|p: (&Ref, Vec<u32>)| (ref_spans(p.0), p.1@))
}

fn rewrite_cut_list(resolved: &[(&Ref, Vec<u32>)]) -> (r: Vec<(usize, usize, Vec<char>)>)
    ensures
        cut_views(r@) == rewrite_cuts(resolved_views(resolved@)),
{
    let ghost rv = resolved_views(resolved@);
    let mut out: Vec<(usize, usize, Vec<char>)> = Vec::new();
    let mut i: usize = 0;
    while i < resolved.len()
        invariant
            rv == resolved_views(resolved@),
            i <= resolved@.len(),
            cut_views(out@) == rewrite_cuts(rv.take(i as int)),
        decreases resolved@.len() - i,
    {
        assert(rv.take(i + 1).drop_last() =~= rv.take(i as int));
        let spans = resolved[i].0.spans();
        let values = &resolved[i].1;
        let ghost before = cut_views(out@);
        let ghost pc = pair_cuts(spans@, values@);
        let mut j: usize = 0;
        while j < spans.len() && j < values.len()
            invariant
                pc == pair_cuts(spans@, values@),
                j <= spans@.len(),
                j <= values@.len(),
                cut_views(out@) == before + pc.take(j as int),
            decreases spans@.len() - j,
        {
            let text = decimal_chars(values[j] as u64);
            let ghost o = cut_views(out@);
            out.push((spans[j].start, spans[j].end, text));
            assert(cut_views(out@) =~= o.push(pc[j as int]));
            assert(pc.take(j + 1) =~= pc.take(j as int).push(pc[j as int]));
            j += 1;
        }
        assert(pc.take(j as int) =~= pc);
        assert(rv.take(i + 1).last() == (spans@, values@));
        i += 1;
    }
    assert(rv.take(resolved@.len() as int) =~= rv);
    out
}

/// Whether the resolved references can be spliced into `body`.
pub fn rewrite_fits(body: &str, resolved: &[(&Ref, Vec<u32>)]) -> (r: bool)
    ensures
        r == cuts_ok(body@, rewrite_cuts(resolved_views(resolved@))),
{
    let b = chars_of(body);
    let cuts = rewrite_cut_list(resolved);
    cuts_fit(b.as_slice(), &cuts)
}

/// Splice resolved indices into the body, replacing each name literal with
/// its index in decimal.
pub fn rewrite(body: &str, resolved: &[(&Ref, Vec<u32>)]) -> (r: String)
    requires
        cuts_ok(body@, rewrite_cuts(resolved_views(resolved@))),
    ensures
        r@ == splice(body@, rewrite_cuts(resolved_views(resolved@)), 0),
{
    let b = chars_of(body);
    let cuts = rewrite_cut_list(resolved);
    let out = apply_cuts(b.as_slice(), &cuts);
    string_of(out.as_slice())
}

/// The cuts of decided branches.
pub open spec fn branch_cuts(decided: Seq<(Span, String)>) -> Seq<Cut> {
    decided.map_values(|d: (Span, String)| (d.0.start as int, d.0.end as int, d.1@))
}

fn branch_cut_list(decided: &[(Span, String)]) -> (r: Vec<(usize, usize, Vec<char>)>)
    ensures
        cut_views(r@) == branch_cuts(decided@),
{
    let mut out: Vec<(usize, usize, Vec<char>)> = Vec::new();
    let mut i: usize = 0;
    while i < decided.len()
        invariant
            i <= decided@.len(),
            cut_views(out@) == branch_cuts(decided@).take(i as int),
        decreases decided@.len() - i,
    {
        let t = chars_of(decided[i].1.as_str());
        let ghost o = cut_views(out@);
        out.push((decided[i].0.start, decided[i].0.end, t));
        assert(cut_views(out@) =~= o.push(branch_cuts(decided@)[i as int]));
        assert(branch_cuts(decided@).take(i + 1) =~= branch_cuts(decided@).take(i as int).push(branch_cuts(decided@)[i as int]));
        i += 1;
    }
    assert(branch_cuts(decided@).take(decided@.len() as int) =~= branch_cuts(decided@));
    out
}

/// Whether the decided branches can be spliced into `body`.
pub fn branches_fit(body: &str, decided: &[(Span, String)]) -> (r: bool)
    ensures
        r == cuts_ok(body@, branch_cuts(decided@)),
{
    let b = chars_of(body);
    let cuts = branch_cut_list(decided);
    cuts_fit(b.as_slice(), &cuts)
}

/// Splice decided branches in: each statement's span becomes the text of the
/// arm it takes.
pub fn take_branches(body: &str, decided: &[(Span, String)]) -> (r: String)
    requires
        cuts_ok(body@, branch_cuts(decided@)),
    ensures
        r@ == splice(body@, branch_cuts(decided@), 0),
{
    let b = chars_of(body);
    let cuts = branch_cut_list(decided);
    let out = apply_cuts(b.as_slice(), &cuts);
    string_of(out.as_slice())
}


// ---------------------------------------------------------------------------
// Branch folding
// ---------------------------------------------------------------------------

/// An `if` whose test the compiler may be able to decide.
///
/// Bodymovin guards a great deal behind conditions made entirely of things the
/// compiler knows — an effect checkbox, a keyframe count — and leaves the guard
/// in the shipped body. Paying for it at runtime costs the test, the string
/// literals in it, and the effect names those literals keep alive.
pub struct Branch {
    /// The whole `if (…) … else …` statement.
    pub stmt: Span,
    /// Its test, as source, so it can be evaluated on its own.
    pub test: String,
    /// The statements of the arm taken when the test holds.
    pub taken: Span,
    /// The statements of the `else` arm, when there is one.
    pub other: Option<Span>,
}

/// A line without one level (four spaces) of block indentation.
pub open spec fn outdent(line: Seq<char>) -> Seq<char> {
    if starts_with(line, "    "@) {
        line.skip(4)
    } else {
        line
    }
}

/// The lines joined back with `\n`, every one but the first outdented.
pub open spec fn dedent_lines(ls: Seq<Seq<char>>) -> Seq<char>
    decreases ls.len(),
{
    if ls.len() == 0 {
        seq![]
    } else if ls.len() == 1 {
        ls[0]
    } else {
        dedent_lines(ls.drop_last()) + seq!['\n'] + outdent(ls.last())
    }
}

/// Pull an arm back out one level of block indentation. Only the continuation
/// lines need it — the first begins where the statement does.
pub open spec fn spec_dedent(src: Seq<char>) -> Seq<char> {
    dedent_lines(lines(src))
}

fn dedent(src: &[char]) -> (r: Vec<char>)
    ensures
        r@ == spec_dedent(src@),
{
    let ls = split_lines(src);
    let mut out: Vec<char> = Vec::new();
    let mut i: usize = 0;
    proof {
        reveal_strlit("    ");
    }
    while i < ls.len()
        invariant
            i <= ls@.len(),
            views(ls@) == lines(src@),
            out@ == dedent_lines(views(ls@).take(i as int)),
            "    "@.len() == 4,
        decreases ls@.len() - i,
    {
        assert(views(ls@).take(i + 1).drop_last() =~= views(ls@).take(i as int));
        assert(views(ls@).take(i + 1).last() == ls@[i as int]@);
        let line = ls[i].as_slice();
        if i > 0 {
            out.push('\n');
            let stripped = if crate::text::str_at(line, 0, "    ") {
                slice_chars(line, 4, line.len())
            } else {
                slice_chars(line, 0, line.len())
            };
            let ghost o = out@;
            let mut st = stripped;
            let ghost sv = st@;
            out.append(&mut st);
            assert(out@ =~= o + sv);
        } else {
            let mut l = slice_chars(line, 0, line.len());
            let ghost o = out@;
            out.append(&mut l);
            assert(views(ls@).take(1) =~= seq![ls@[0]@]);
        }
        i += 1;
    }
    assert(views(ls@).take(ls@.len() as int) =~= views(ls@));
    out
}

/// The arm a decided test selects.
pub open spec fn chosen_arm(b: &Branch, decided: bool) -> Option<Span> {
    if decided {
        Some(b.taken)
    } else {
        b.other
    }
}

impl Branch {
    /// The source that replaces the statement, once the test is `decided`.
    ///
    /// An arm is usually a block, and splicing the block in whole would leave
    /// its braces behind wrapping nothing; the arm spans reach inside it, so
    /// what lands is the statements themselves. Nothing at all when the arm is
    /// an empty block, and `None` when the test is false and there is no
    /// `else`.
    pub fn arm(&self, body: &str, decided: bool) -> (r: Option<(Span, String)>)
        requires
            match chosen_arm(self, decided) {
                Some(a) => a.start < a.end ==> a.end <= body@.len(),
                None => true,
            },
        ensures
            chosen_arm(self, decided) is None ==> r is None,
            chosen_arm(self, decided) matches Some(a) ==> (r matches Some((s, t)) && s == self.stmt && t@ == (
                if a.start >= a.end {
                    Seq::<char>::empty()
                } else {
                    spec_dedent(body@.subrange(a.start as int, a.end as int))
                }
            )),
    {
        let arm = if decided {
            self.taken
        } else {
            match self.other {
                Some(o) => o,
                None => {
                    return None;
                },
            }
        };
        if arm.start >= arm.end {
            return Some((self.stmt, String::new()));
        }
        let b = chars_of(body);
        let src = slice_chars(b.as_slice(), arm.start, arm.end);
        let d = dedent(src.as_slice());
        Some((self.stmt, string_of(d.as_slice())))
    }
}

// ---------------------------------------------------------------------------
// String literals
// ---------------------------------------------------------------------------

/// A quote character that opens a JS string literal.
pub open spec fn is_quote(c: char) -> bool {
    c == '\'' || c == '"' || c == '`'
}

/// The literal scan: literals found, the literal being read (with its
/// quote), and whether the previous character was a backslash inside it.
pub open spec fn lit_scan(s: Seq<char>) -> (Set<Seq<char>>, Option<(char, Seq<char>)>, bool)
    decreases s.len(),
{
    if s.len() == 0 {
        (Set::empty(), None, false)
    } else {
        let (out, open, escaped) = lit_scan(s.drop_last());
        let c = s.last();
        match open {
            None => if is_quote(c) {
                (out, Some((c, seq![])), false)
            } else {
                (out, None, false)
            },
            Some((q, lit)) => if escaped {
                (out, Some((q, lit.push(c))), false)
            } else if c == '\\' {
                (out, Some((q, lit)), true)
            } else if c == q {
                (out.insert(lit), None, false)
            } else {
                (out, Some((q, lit.push(c))), false)
            },
        }
    }
}

/// Every string literal in a body, whatever it is used for: the characters
/// between a quote and the next unescaped quote of the same kind, an escape
/// standing for the character it escapes. A literal the body never closes
/// runs to the end.
pub open spec fn spec_literals(body: Seq<char>) -> Set<Seq<char>> {
    let (out, open, _) = lit_scan(body);
    match open {
        Some((_, lit)) => out.insert(lit),
        None => out,
    }
}


/// Every string literal in a body, whatever it is used for, in code-point
/// order and without repeats.
///
/// Deliberately lexical rather than syntactic. This decides whether a name can
/// be dropped from the payload, so a syntactic scan that missed one construct
/// would drop a name the body still looks up. Scanning for quotes cannot miss a
/// construct, only misread one, and a misread keeps a name that is not needed.
///
/// Matching whole literals rather than substrings matters more than it looks:
/// `'ADBE Layer Control'` is a substring of `'ADBE Layer Control-0001'`, so a
/// substring test would keep every effect name whose parameter is still looked
/// up by name.
pub fn literals(body: &str) -> (r: Vec<String>)
    ensures
        strictly_sorted(r@.map_values(|s: String| s@)),
        r@.map_values(|s: String| s@).to_set() == spec_literals(body@),
{
    let b = chars_of(body);
    let mut out: Vec<Vec<char>> = Vec::new();
    let mut open: Option<(char, Vec<char>)> = None;
    let mut escaped = false;
    let mut i: usize = 0;
    while i < b.len()
        invariant
            b@ == body@,
            i <= b@.len(),
            strictly_sorted(views(out@)),
            lit_scan(b@.take(i as int)) == (
                views(out@).to_set(),
                match open {
                    Some((q, l)) => Some((q, l@)),
                    None => None,
                },
                escaped,
            ),
        decreases b@.len() - i,
    {
        assert(b@.take(i + 1).drop_last() =~= b@.take(i as int));
        let c = b[i];
        match open {
            None => {
                if c == '\'' || c == '"' || c == '`' {
                    open = Some((c, Vec::new()));
                } else {
                    open = None;
                }
                escaped = false;
            },
            Some((q, mut lit)) => {
                if escaped {
                    lit.push(c);
                    open = Some((q, lit));
                    escaped = false;
                } else if c == '\\' {
                    open = Some((q, lit));
                    escaped = true;
                } else if c == q {
                    insert_sorted(&mut out, lit);
                    open = None;
                } else {
                    lit.push(c);
                    open = Some((q, lit));
                }
            },
        }
        i += 1;
    }
    assert(b@.take(b@.len() as int) =~= b@);
    match open {
        Some((_, lit)) => insert_sorted(&mut out, lit),
        None => {},
    }
    let mut res: Vec<String> = Vec::new();
    let mut k: usize = 0;
    while k < out.len()
        invariant
            k <= out@.len(),
            res@.map_values(|s: String| s@) == views(out@).take(k as int),
        decreases out@.len() - k,
    {
        let st = string_of(out[k].as_slice());
        let ghost r0 = res@.map_values(|s: String| s@);
        res.push(st);
        assert(res@.map_values(|s: String| s@) =~= r0.push(out@[k as int]@));
        assert(views(out@).take(k + 1) =~= views(out@).take(k as int).push(out@[k as int]@));
        k += 1;
    }
    assert(views(out@).take(out@.len() as int) =~= views(out@));
    res
}

// ---------------------------------------------------------------------------
// Words
// ---------------------------------------------------------------------------

/// Whether the text around `s[i..i + n]` leaves it a whole identifier: the
/// neighbours on both sides, where there are any, cannot continue one.
pub open spec fn word_edges(s: Seq<char>, i: int, n: int) -> bool {
    &&& (i == 0 || !crate::text::word_char(s[i - 1]))
    &&& (i + n >= s.len() || !crate::text::word_char(s[i + n]))
}

/// Whether one of the occurrences of `w` that `str::match_indices` reports
/// from `i` on — left to right, each search resuming after the previous
/// match — stands as a whole identifier.
pub open spec fn word_matches(s: Seq<char>, w: Seq<char>, i: int) -> bool
    decreases s.len() + 1 - i,
{
    if i < 0 || i > s.len() {
        false
    } else if has_at(s, i, w) {
        word_edges(s, i, w.len() as int) || word_matches(s, w, i + if w.len() == 0 { 1 } else { w.len() as int })
    } else {
        word_matches(s, w, i + 1)
    }
}

/// Whether `src` uses `word` as an identifier rather than inside a longer one.
pub fn mentions_word(src: &str, word: &str) -> (r: bool)
    ensures
        r == word_matches(src@, word@, 0),
{
    let s = chars_of(src);
    let w = chars_of(word);
    let step: usize = if w.len() == 0 { 1 } else { w.len() };
    let mut i: usize = 0;
    while i <= s.len()
        invariant
            s@ == src@,
            w@ == word@,
            step as int == (if w@.len() == 0 { 1 } else { w@.len() as int }),
            word_matches(s@, w@, 0) == word_matches(s@, w@, i as int),
        decreases s@.len() + 1 - i,
    {
        if crate::text::chars_at(s.as_slice(), i, w.as_slice()) {
            let before = i == 0 || !crate::text::is_word_char(s[i - 1]);
            let after = i + w.len() >= s.len() || !crate::text::is_word_char(s[i + w.len()]);
            if before && after {
                return true;
            }
            if step > s.len() - i {
                proof {
                    assert(!word_matches(s@, w@, i + step));
                }
                return false;
            }
            i = i + step;
        } else {
            if i == s.len() {
                assert(!word_matches(s@, w@, i as int + 1));
                return false;
            }
            i = i + 1;
        }
    }
    false
}

// ---------------------------------------------------------------------------
// Tables
// ---------------------------------------------------------------------------

/// What the reference walk gathers from a body on its way through.
pub struct Out {
    /// The references found so far.
    pub refs: Vec<Ref>,
    /// Arrays of string literals, by variable name: a map, each name once.
    pub arrays: Vec<(String, Vec<(Span, String)>)>,
    /// `effect(x[…])('param')` uses: the array's name, and the parameter
    /// literal's span and text.
    pub indexed: Vec<(String, Span, String)>,
    /// Every use of an identifier, by name and span.
    pub idents: Vec<(String, Span)>,
    /// The identifier uses the walk understands: `x.length`, and `x[i]`
    /// inside an `effect(…)` call.
    pub accounted: Vec<Span>,
}

/// Where the array named `name` sits, if there is one.
pub open spec fn array_at(arrays: Seq<(String, Vec<(Span, String)>)>, name: Seq<char>) -> Option<int> {
    if exists|j: int| 0 <= j < arrays.len() && (#[trigger] arrays[j]).0@ == name {
        Some(choose|j: int| 0 <= j < arrays.len() && (#[trigger] arrays[j]).0@ == name)
    } else {
        None
    }
}

/// Every array name occurs once.
pub open spec fn names_unique(arrays: Seq<(String, Vec<(Span, String)>)>) -> bool {
    forall|a: int, b: int| 0 <= a < b < arrays.len() ==> (#[trigger] arrays[a]).0@ != (#[trigger] arrays[b]).0@
}

/// A reference as contracts see it: its spans, and its literals as text.
pub enum RefV {
    Direct { name: Span, param: Span, name_str: Seq<char>, param_str: Seq<char> },
    Table { elems: Seq<(Span, Seq<char>)>, param: Span, param_str: Seq<char> },
}

/// The elements of a table as contracts see them.
pub open spec fn elems_view(elems: Seq<(Span, String)>) -> Seq<(Span, Seq<char>)> {
    elems.map_values(|e: (Span, String)| (e.0, e.1@))
}

impl View for Ref {
    type V = RefV;

    open spec fn view(&self) -> RefV {
        match self {
            Ref::Direct { name, param, name_str, param_str } => RefV::Direct {
                name: *name,
                param: *param,
                name_str: name_str@,
                param_str: param_str@,
            },
            Ref::Table { elems, param, param_str } => RefV::Table {
                elems: elems_view(elems@),
                param: *param,
                param_str: param_str@,
            },
        }
    }
}

/// What a walk has gathered, as contracts see it.
#[verifier::ext_equal]
pub struct Gather {
    pub refs: Seq<RefV>,
    pub arrays: Seq<(Seq<char>, Seq<(Span, Seq<char>)>)>,
    pub indexed: Seq<(Seq<char>, Span, Seq<char>)>,
    pub idents: Seq<(Seq<char>, Span)>,
    pub accounted: Seq<Span>,
}

/// The arrays of a walk as contracts see them.
pub open spec fn arrays_view(arrays: Seq<(String, Vec<(Span, String)>)>) -> Seq<(Seq<char>, Seq<(Span, Seq<char>)>)> {
    arrays.map_values(|a: (String, Vec<(Span, String)>)| (a.0@, elems_view(a.1@)))
}

impl View for Out {
    type V = Gather;

    open spec fn view(&self) -> Gather {
        Gather {
            refs: self.refs@.map_values(|r: Ref| r@),
            arrays: arrays_view(self.arrays@),
            indexed: self.indexed@.map_values(|x: (String, Span, String)| (x.0@, x.1, x.2@)),
            idents: self.idents@.map_values(|x: (String, Span)| (x.0@, x.1)),
            accounted: self.accounted@,
        }
    }
}

/// Where the array named `name` sits among gathered arrays, if anywhere.
pub open spec fn named_at(arrays: Seq<(Seq<char>, Seq<(Span, Seq<char>)>)>, name: Seq<char>) -> Option<int> {
    if exists|j: int| 0 <= j < arrays.len() && (#[trigger] arrays[j]).0 == name {
        Some(choose|j: int| 0 <= j < arrays.len() && (#[trigger] arrays[j]).0 == name)
    } else {
        None
    }
}

/// Where names are unique, finding an array by name means the same whether
/// the arrays are read as values or as contracts see them.
pub proof fn lemma_named_at(arrays: Seq<(String, Vec<(Span, String)>)>, name: Seq<char>)
    requires
        names_unique(arrays),
    ensures
        named_at(arrays_view(arrays), name) == array_at(arrays, name),
{
    let v = arrays_view(arrays);
    if exists|j: int| 0 <= j < arrays.len() && (#[trigger] arrays[j]).0@ == name {
        let j = choose|j: int| 0 <= j < arrays.len() && (#[trigger] arrays[j]).0@ == name;
        assert(v[j].0 == name);
        let k = choose|k: int| 0 <= k < v.len() && (#[trigger] v[k]).0 == name;
        assert(arrays[k].0@ == name);
        if j < k {
            assert(arrays[j].0@ != arrays[k].0@);
        } else if k < j {
            assert(arrays[k].0@ != arrays[j].0@);
        }
    } else {
        assert forall|k: int| 0 <= k < v.len() implies (#[trigger] v[k]).0 != name by {
            assert(v[k].0 == arrays[k].0@);
        }
    }
}

/// Whether an identifier named `name` is used anywhere the walk did not
/// account for: compared, returned, passed on — read as a string.
pub open spec fn escapes(idents: Seq<(Seq<char>, Span)>, accounted: Seq<Span>, name: Seq<char>) -> bool {
    exists|k: int| 0 <= k < idents.len() && (#[trigger] idents[k]).0 == name && !accounted.contains(idents[k].1)
}

/// The table references the indexed uses from `i` on make, appended to
/// `refs`. Each array serves one use; a name that escapes keeps its array
/// out of the rewrite.
pub open spec fn tables_from(
    ix: Seq<(Seq<char>, Span, Seq<char>)>,
    i: int,
    arrays: Seq<(Seq<char>, Seq<(Span, Seq<char>)>)>,
    idents: Seq<(Seq<char>, Span)>,
    accounted: Seq<Span>,
    refs: Seq<RefV>,
) -> Seq<RefV>
    decreases ix.len() - i,
{
    if i < 0 || i >= ix.len() {
        refs
    } else {
        let (name, param, ps) = ix[i];
        match named_at(arrays, name) {
            None => tables_from(ix, i + 1, arrays, idents, accounted, refs),
            Some(j) => {
                let rest = arrays.remove(j);
                if escapes(idents, accounted, name) {
                    tables_from(ix, i + 1, rest, idents, accounted, refs)
                } else {
                    tables_from(ix, i + 1, rest, idents, accounted, refs.push(RefV::Table { elems: arrays[j].1, param, param_str: ps }))
                }
            },
        }
    }
}

/// The references a finished walk yields: those it found, then the tables.
pub open spec fn finished(g: Gather) -> Seq<RefV> {
    tables_from(g.indexed, 0, g.arrays, g.idents, g.accounted, g.refs)
}

impl Out {
    /// Nothing gathered yet.
    pub fn new() -> (r: Out)
        ensures
            r.refs@.len() == 0,
            r.arrays@.len() == 0,
            r.indexed@.len() == 0,
            r.idents@.len() == 0,
            r.accounted@.len() == 0,
    {
        Out { refs: Vec::new(), arrays: Vec::new(), indexed: Vec::new(), idents: Vec::new(), accounted: Vec::new() }
    }

    /// Record the array declared as `name`, replacing an earlier one of the
    /// same name.
    pub fn insert_array(&mut self, name: String, elems: Vec<(Span, String)>)
        requires
            names_unique(old(self).arrays@),
        ensures
            names_unique(final(self).arrays@),
            final(self).refs == old(self).refs,
            final(self).indexed == old(self).indexed,
            final(self).idents == old(self).idents,
            final(self).accounted == old(self).accounted,
            match array_at(old(self).arrays@, name@) {
                Some(j) => final(self).arrays@ == old(self).arrays@.update(j, (name, elems)),
                None => final(self).arrays@ == old(self).arrays@.push((name, elems)),
            },
    {
        let mut j: usize = 0;
        while j < self.arrays.len()
            invariant
                self.arrays == old(self).arrays,
                self.refs == old(self).refs,
                self.indexed == old(self).indexed,
                self.idents == old(self).idents,
                self.accounted == old(self).accounted,
                names_unique(self.arrays@),
                j <= self.arrays@.len(),
                forall|q: int| 0 <= q < j ==> (#[trigger] self.arrays@[q]).0@ != name@,
            decreases self.arrays@.len() - j,
        {
            if chars_eq(chars_of(self.arrays[j].0.as_str()).as_slice(), chars_of(name.as_str()).as_slice()) {
                proof {
                    let c = choose|q: int| 0 <= q < self.arrays@.len() && (#[trigger] self.arrays@[q]).0@ == name@;
                    assert(self.arrays@[j as int].0@ == name@);
                    if c != j as int {
                        if c < j as int {
                            assert(self.arrays@[c].0@ != name@);
                        } else {
                            assert(self.arrays@[j as int].0@ != self.arrays@[c].0@);
                        }
                    }
                }
                let ghost before = self.arrays@;
                self.arrays.set(j, (name, elems));
                assert forall|a: int, b: int| 0 <= a < b < self.arrays@.len() implies (#[trigger] self.arrays@[a]).0@
                    != (#[trigger] self.arrays@[b]).0@ by {
                    if a != j as int && b != j as int {
                        assert(before[a].0@ != before[b].0@);
                    } else if a == j as int {
                        assert(before[a].0@ != before[b].0@);
                    } else {
                        assert(before[a].0@ != before[b].0@);
                    }
                }
                return;
            }
            j += 1;
        }
        let ghost before = self.arrays@;
        self.arrays.push((name, elems));
        assert forall|a: int, b: int| 0 <= a < b < self.arrays@.len() implies (#[trigger] self.arrays@[a]).0@
            != (#[trigger] self.arrays@[b]).0@ by {
            if b < before.len() {
                assert(before[a].0@ != before[b].0@);
            } else {
                assert(before[a].0@ != name@);
            }
        }
    }
}

fn name_escapes(out: &Out, name: &str) -> (r: bool)
    ensures
        r == escapes(out@.idents, out@.accounted, name@),
{
    let mut k: usize = 0;
    while k < out.idents.len()
        invariant
            k <= out.idents@.len(),
            forall|q: int| 0 <= q < k ==> !((#[trigger] out.idents@[q]).0@ == name@ && !out.accounted@.contains(out.idents@[q].1)),
        decreases out.idents@.len() - k,
    {
        if crate::text::str_eq(out.idents[k].0.as_str(), name) {
            let s = out.idents[k].1;
            let mut a: usize = 0;
            let mut seen = false;
            while a < out.accounted.len()
                invariant
                    a <= out.accounted@.len(),
                    seen == (exists|q: int| 0 <= q < a && out.accounted@[q] == s),
                decreases out.accounted@.len() - a,
            {
                if out.accounted[a] == s {
                    seen = true;
                }
                a += 1;
            }
            if !seen {
                assert(out@.idents[k as int].0 == name@ && !out@.accounted.contains(out@.idents[k as int].1));
                return true;
            }
        }
        k += 1;
    }
    assert forall|q: int| 0 <= q < out@.idents.len() implies !((#[trigger] out@.idents[q]).0 == name@
        && !out@.accounted.contains(out@.idents[q].1)) by {
        assert(out@.idents[q] == (out.idents@[q].0@, out.idents@[q].1));
    }
    false
}

fn array_pos(arrays: &Vec<(String, Vec<(Span, String)>)>, name: &str) -> (r: Option<usize>)
    requires
        names_unique(arrays@),
    ensures
        r matches Some(k) ==> array_at(arrays@, name@) == Some(k as int) && k < arrays@.len(),
        r is None ==> array_at(arrays@, name@) is None,
{
    let mut j: usize = 0;
    while j < arrays.len()
        invariant
            names_unique(arrays@),
            j <= arrays@.len(),
            forall|q: int| 0 <= q < j ==> (#[trigger] arrays@[q]).0@ != name@,
        decreases arrays@.len() - j,
    {
        if crate::text::str_eq(arrays[j].0.as_str(), name) {
            proof {
                let c = choose|q: int| 0 <= q < arrays@.len() && (#[trigger] arrays@[q]).0@ == name@;
                assert(arrays@[j as int].0@ == name@);
                if c != j as int {
                    if c < j as int {
                        assert(arrays@[c].0@ != name@);
                    } else {
                        assert(arrays@[j as int].0@ != arrays@[c].0@);
                    }
                }
            }
            return Some(j);
        }
        j += 1;
    }
    None
}

/// Turn each array indexed into `effect(…)` into one table reference, unless
/// the array's name escapes: used anywhere the walk did not account for, it
/// could be read as a string, and swapping numbers in would change what the
/// body computes.
pub fn tables(out: &mut Out)
    requires
        names_unique(old(out).arrays@),
    ensures
        final(out)@.refs == finished(old(out)@),
        final(out).indexed@.len() == 0,
        final(out).idents == old(out).idents,
        final(out).accounted == old(out).accounted,
{
    let ghost g = out@;
    let ghost ix = out.indexed@;
    let n = out.indexed.len();
    let mut indexed: Vec<(String, Span, String)> = Vec::new();
    std::mem::swap(&mut indexed, &mut out.indexed);
    assert(indexed@ == ix);
    let mut i: usize = 0;
    while indexed.len() > 0
        invariant
            ix.len() == n,
            g.indexed == ix.map_values(|x: (String, Span, String)| (x.0@, x.1, x.2@)),
            ix.len() == i + indexed@.len(),
            indexed@ == ix.skip(i as int),
            out.indexed@.len() == 0,
            out.idents == old(out).idents,
            out.accounted == old(out).accounted,
            names_unique(out.arrays@),
            finished(g) == tables_from(g.indexed, i as int, out@.arrays, out@.idents, out@.accounted, out@.refs),
        decreases indexed@.len(),
    {
        let (name, param, param_str) = indexed.remove(0);
        assert(ix[i as int] == (name, param, param_str));
        assert(g.indexed[i as int] == (name@, param, param_str@));
        let ghost before = out@;
        proof {
            lemma_named_at(out.arrays@, name@);
        }
        match array_pos(&out.arrays, name.as_str()) {
            None => {
                assert(tables_from(g.indexed, i as int, before.arrays, before.idents, before.accounted, before.refs)
                    == tables_from(g.indexed, i + 1, out@.arrays, out@.idents, out@.accounted, out@.refs));
            },
            Some(j) => {
                let ghost exact = out.arrays@;
                let (_, elems) = out.arrays.remove(j);
                assert(out.arrays@ == exact.remove(j as int));
                assert forall|a: int, b: int| 0 <= a < b < out.arrays@.len() implies (#[trigger] out.arrays@[a]).0@
                    != (#[trigger] out.arrays@[b]).0@ by {
                    let a0 = if a < j as int { a } else { a + 1 };
                    let b0 = if b < j as int { b } else { b + 1 };
                    assert(out.arrays@[a] == exact[a0]);
                    assert(out.arrays@[b] == exact[b0]);
                    assert(exact[a0].0@ != exact[b0].0@);
                }
                assert(out@.arrays =~= before.arrays.remove(j as int));
                assert(elems == exact[j as int].1);
                assert(before.arrays[j as int].1 == elems_view(elems@));
                let esc = name_escapes(out, name.as_str());
                if !esc {
                    out.refs.push(Ref::Table { elems, param, param_str });
                    assert(out@.refs =~= before.refs.push(RefV::Table { elems: before.arrays[j as int].1, param, param_str: g.indexed[i as int].2 }));
                }
                assert(tables_from(g.indexed, i as int, before.arrays, before.idents, before.accounted, before.refs)
                    == tables_from(g.indexed, i + 1, out@.arrays, out@.idents, out@.accounted, out@.refs));
            },
        }
        assert(indexed@ =~= ix.skip(i + 1));
        i += 1;
    }
}

} // verus!
