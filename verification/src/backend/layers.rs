//! Resolving the layers an expression body reaches, at compile time.
//!
//! An After Effects body addresses other layers by name
//! (`thisComp.layer('wire')`) or through a layer-control effect, and reads them
//! through a method surface — `.position`, `.toComp(p)`, `.effect(n)(p)`. None
//! of it has to happen at runtime: the planner already knows every layer, so
//! each body is rewritten so that every layer reference is a slot in the owning
//! record's own table and every access is a free call:
//!
//! ```text
//! thisComp.layer('wire').toComp(p)  →  toComp(lyAt(thisLayer, 8), p, frame)
//! ```
//!
//! Two spellings, because bodies are deduplicated across every property they
//! were applied to and a literal has to be right for all of them: `lyAt` when
//! every using property agrees on the absolute slot, `lyRel` when only the
//! offset from the owner agrees. A mechanical scan of the finished text
//! ([`verify`]) has the last word, so an optimistic walk cannot ship a body it
//! only thought it had rewritten.

pub mod index;
pub mod rewrite;

use vstd::prelude::*;
use crate::backend::emit_expressions::{all_free, bare_helpers, emit_one, first_seen, helper_pool, spec_emit_one};
use crate::text::{
    ascii_alnum, ascii_digit, chars_at, chars_of, decimal, has_at, insert_name, is_word_char, push_str,
    signed_decimal, str_views, strictly_sorted, string_views, word_char,
};

verus! {

// ---------------------------------------------------------------------------
// Where a body's properties live
// ---------------------------------------------------------------------------

/// Which record table a property is addressed against: the document's own, or
/// one precomp's, whose indices are local to it.
#[derive(Clone, Copy, PartialEq, Eq, Structural, Debug)]
pub enum Table {
    Doc,
    Asset(u32),
}

/// What `thisProperty` is, for a property carrying a body.
#[derive(Clone, Copy, PartialEq, Eq, Structural, Debug)]
pub enum Surface {
    /// A keyframed value source: the key / velocity / loop API, and a real
    /// `numKeys`.
    Keyed,
    /// A path value source: the geometry accessors, and none of the key ones.
    Path,
    /// Anything else. The key API is stubbed, so it answers rather than being
    /// absent.
    Stub,
}

impl Surface {
    /// Whether `key`, `nearestKey`, `valueAtTime`, `velocityAtTime` and
    /// `loopOut` exist on it.
    pub fn has_keys(self) -> (r: bool)
        ensures
            r == !(self is Path),
    {
        !matches!(self, Surface::Path)
    }
}

/// One property carrying an expression: which table it is addressed against,
/// which record owns it, which composition that record sits in, and what
/// `thisProperty` will be there.
#[derive(Clone, Copy, PartialEq, Eq, Structural, Debug)]
pub struct Site {
    pub table: Table,
    pub owner: u32,
    pub scope: u32,
    pub surface: Surface,
}

// ---------------------------------------------------------------------------
// Agreeing on a spelling
// ---------------------------------------------------------------------------

/// What one using property's copy of a reference resolves to.
#[derive(Clone, Copy, PartialEq, Eq, Structural, Debug)]
pub enum Target {
    /// A record, by index into that use's table.
    Rec(u32),
    /// The lookup succeeded and found nothing.
    NoLayer,
    /// There was no effect or parameter to ask.
    NoEffect,
}

/// How a resolved reference is written into a body.
///
/// There is no spelling for a reference that resolved to nothing: a body that
/// read a member off one threw and fell back to the property's own value, and
/// nothing written here would reproduce that.
#[derive(Clone, Copy, PartialEq, Eq, Structural, Debug)]
pub enum Handle {
    /// The same absolute slot for every use.
    At(u32),
    /// The same offset from the owner for every use.
    Rel(i64),
}

/// The text a handle is written as.
pub open spec fn spec_emit(h: Handle) -> Seq<char> {
    match h {
        Handle::At(i) => "lyAt(thisLayer, "@ + decimal(i as nat) + ")"@,
        Handle::Rel(d) => "lyRel(thisLayer, "@ + signed_decimal(d as int) + ")"@,
    }
}

impl Handle {
    /// The call that yields the referenced record.
    pub fn emit(&self) -> (r: String)
        ensures
            r@ == spec_emit(*self),
    {
        let mut out = String::new();
        match self {
            Handle::At(i) => {
                push_str(&mut out, "lyAt(thisLayer, ");
                let n = crate::text::decimal_string(*i as u64);
                push_str(&mut out, n.as_str());
            },
            Handle::Rel(d) => {
                push_str(&mut out, "lyRel(thisLayer, ");
                let n = crate::text::signed_decimal_string(*d);
                push_str(&mut out, n.as_str());
            },
        }
        push_str(&mut out, ")");
        out
    }

    /// The runtime helper the spelling calls, as a shake root.
    pub fn helper(&self) -> (r: &'static str)
        ensures
            r@ == match *self {
                Handle::At(_) => "lyAt"@,
                Handle::Rel(_) => "lyRel"@,
            },
    {
        match self {
            Handle::At(_) => "lyAt",
            Handle::Rel(_) => "lyRel",
        }
    }
}

/// The record a target names, if it names one.
pub open spec fn slot(t: Target) -> Option<u32> {
    match t {
        Target::Rec(r) => Some(r),
        _ => None,
    }
}

/// The offset of a use's record from its owner.
pub open spec fn delta(u: (Site, Target)) -> int {
    match u.1 {
        Target::Rec(r) => r - u.0.owner,
        _ => 0,
    }
}

/// The one spelling every use agrees on, if there is one.
///
/// Absolute when every use sits in the same table and resolves to the same
/// target; otherwise relative when every use is the same distance from its
/// owner; otherwise nothing. A use that resolved to no record refuses it all.
pub open spec fn spec_agree(u: Seq<(Site, Target)>) -> Option<Handle> {
    if u.len() == 0 {
        None
    } else if exists|i: int| 0 <= i < u.len() && (#[trigger] u[i]).1 !is Rec {
        None
    } else if (forall|i: int| 0 <= i < u.len() ==> (#[trigger] u[i]).0.table == u[0].0.table)
        && (forall|i: int| 0 <= i < u.len() ==> (#[trigger] u[i]).1 == u[0].1) {
        Some(Handle::At(u[0].1->Rec_0))
    } else if forall|i: int| 0 <= i < u.len() ==> delta(#[trigger] u[i]) == delta(u[0]) {
        Some(Handle::Rel(delta(u[0]) as i64))
    } else {
        None
    }
}

/// Fold one resolution per use into a single spelling, or refuse.
///
/// Resolve once per user, compare, and take nothing on a disagreement.
/// Absolute is tried first because it is shorter and because it survives a
/// reference crossing tables; the delta is what rescues a body shared by many
/// inlined copies of one precomp, where no absolute literal is valid at all.
pub fn agree(per_use: &[(Site, Target)]) -> (r: Option<Handle>)
    ensures
        r == spec_agree(per_use@),
{
    let u = per_use;
    if u.len() == 0 {
        return None;
    }
    let mut i: usize = 0;
    while i < u.len()
        invariant
            i <= u@.len(),
            u@ == per_use@,
            forall|k: int| 0 <= k < i ==> (#[trigger] u@[k]).1 is Rec,
        decreases u@.len() - i,
    {
        if !matches!(u[i].1, Target::Rec(_)) {
            assert(u@[i as int].1 !is Rec);
            assert(exists|k: int| 0 <= k < u@.len() && (#[trigger] u@[k]).1 !is Rec);
            return None;
        }
        i += 1;
    }
    let first = u[0];
    let mut same = true;
    let mut j: usize = 0;
    while j < u.len()
        invariant
            j <= u@.len(),
            u@ == per_use@,
            first == u@[0],
            same == forall|k: int| 0 <= k < j ==> (#[trigger] u@[k]).0.table == first.0.table && u@[k].1 == first.1,
        decreases u@.len() - j,
    {
        if !(u[j].0.table == first.0.table && u[j].1 == first.1) {
            same = false;
        }
        j += 1;
    }
    if same {
        proof {
            assert(forall|k: int| 0 <= k < u@.len() ==> (#[trigger] u@[k]).0.table == u@[0].0.table);
            assert(forall|k: int| 0 <= k < u@.len() ==> (#[trigger] u@[k]).1 == u@[0].1);
        }
        if let Target::Rec(r) = first.1 {
            return Some(Handle::At(r));
        }
        return None;
    }
    let ghost not_same = !((forall|k: int| 0 <= k < u@.len() ==> (#[trigger] u@[k]).0.table == u@[0].0.table)
        && (forall|k: int| 0 <= k < u@.len() ==> (#[trigger] u@[k]).1 == u@[0].1));
    proof {
        if !not_same {
            assert(forall|k: int| 0 <= k < u@.len() ==> (#[trigger] u@[k]).0.table == first.0.table && u@[k].1 == first.1);
        }
    }
    let d: i64 = match first.1 {
        Target::Rec(r) => r as i64 - first.0.owner as i64,
        _ => 0,
    };
    let mut k: usize = 0;
    while k < u.len()
        invariant
            k <= u@.len(),
            u@ == per_use@,
            first == u@[0],
            d == delta(first),
            not_same,
            not_same == !((forall|k: int| 0 <= k < u@.len() ==> (#[trigger] u@[k]).0.table == u@[0].0.table)
                && (forall|k: int| 0 <= k < u@.len() ==> (#[trigger] u@[k]).1 == u@[0].1)),
            forall|m: int| 0 <= m < u@.len() ==> (#[trigger] u@[m]).1 is Rec,
            forall|m: int| 0 <= m < k ==> delta(#[trigger] u@[m]) == d,
        decreases u@.len() - k,
    {
        let e: i64 = match u[k].1 {
            Target::Rec(r) => r as i64 - u[k].0.owner as i64,
            _ => 0,
        };
        if e != d {
            assert(delta(u@[k as int]) != delta(u@[0]));
            return None;
        }
        k += 1;
    }
    Some(Handle::Rel(d))
}


// ---------------------------------------------------------------------------
// Rewritten bodies
// ---------------------------------------------------------------------------

/// What the backend needs to emit one body.
pub struct Plan {
    pub body: String,
    /// Runtime symbols the rewritten body calls, as shake roots: a set, kept
    /// in code-point order.
    pub helpers: Vec<&'static str>,
    /// `thisComp.frameDuration` was rewritten to a bare name.
    pub frame_duration: bool,
    /// What `thisProperty` is, when every property using this body agrees;
    /// `None` when they do not.
    pub surface: Option<Surface>,
}

/// The expression table for one scene: the source, plus what emitting it
/// costs.
pub struct Exprs {
    /// The whole `const E = [ … ];` declaration.
    pub src: String,
    /// Runtime symbols the bodies call, as shake roots and extern imports: a
    /// set, kept in code-point order.
    pub helpers: Vec<&'static str>,
    /// The finished body texts, for the analyses that decide what the payload
    /// can drop.
    pub bodies: Vec<String>,
}


/// The functions emitted for the plans, in order.
pub open spec fn emitted(plans: Seq<Plan>) -> Seq<char>
    decreases plans.len(),
{
    if plans.len() == 0 {
        seq![]
    } else {
        emitted(plans.drop_last()) + spec_emit_one(
            plans.last().body@,
            plans.last().frame_duration,
            plans.last().surface,
        ).0
    }
}

/// Whether some plan's body binds `thisProperty`.
pub open spec fn any_surface(plans: Seq<Plan>) -> bool {
    exists|i: int| 0 <= i < plans.len() && (#[trigger] spec_emit_one(plans[i].body@, plans[i].frame_duration, plans[i].surface)).1
}

/// Every helper some plan reports.
pub open spec fn plan_helpers(plans: Seq<Plan>) -> Set<Seq<char>> {
    Set::new(|n: Seq<char>| exists|i: int, k: int| 0 <= i < plans.len() && 0 <= k < plans[i].helpers@.len()
        && (#[trigger] plans[i].helpers@[k])@ == n)
}

/// The runtime symbols a table's bodies call: the `thisProperty` builder when
/// some body binds it, what the rewrite reported, and the helpers the shipped
/// bodies call by bare name.
pub open spec fn table_helpers(plans: Seq<Plan>, bodies: Seq<String>) -> Set<Seq<char>> {
    (if any_surface(plans) { set!["thisPropertyFor"@] } else { Set::empty() }) + plan_helpers(plans)
        + first_seen(all_free(bodies), helper_pool()).to_set()
}

/// Planned bodies to the `const E = [ … ];` table for one scene, with the
/// runtime symbols they call and the texts that ship.
///
/// What ships, not what the IR held: the analyses that decide whether a name
/// can leave the payload run on these bodies, and a lookup the rewrite removed
/// is a lookup nothing performs any more.
pub fn emit_table(plans: &[Plan]) -> (r: Exprs)
    ensures
        r.src@ == "const E = [\n"@ + emitted(plans@) + "];\n"@,
        string_views(r.bodies@) == plans@.map_values(|p: Plan| p.body@),
        strictly_sorted(str_views(r.helpers@)),
        str_views(r.helpers@).to_set() == table_helpers(plans@, r.bodies@),
{
    let mut src = String::new();
    push_str(&mut src, "const E = [\n");
    let ghost head = src@;
    let mut helpers: Vec<&'static str> = Vec::new();
    let mut bodies: Vec<String> = Vec::new();
    let mut i: usize = 0;
    assert(str_views(helpers@).to_set() =~= Set::<Seq<char>>::empty());
    while i < plans.len()
        invariant
            i <= plans@.len(),
            src@ == head + emitted(plans@.take(i as int)),
            head == "const E = [\n"@,
            string_views(bodies@) == plans@.take(i as int).map_values(|p: Plan| p.body@),
            strictly_sorted(str_views(helpers@)),
            str_views(helpers@).to_set() == (if any_surface(plans@.take(i as int)) {
                set!["thisPropertyFor"@]
            } else {
                Set::empty()
            }) + plan_helpers(plans@.take(i as int)),
        decreases plans@.len() - i,
    {
        let ghost pt = plans@.take(i + 1);
        assert(pt.drop_last() =~= plans@.take(i as int));
        assert(pt.last() == plans@[i as int]);
        let plan = &plans[i];
        let ghost before = str_views(helpers@).to_set();
        let bound = emit_one(&mut src, plan.body.as_str(), plan);
        if bound {
            insert_name(&mut helpers, "thisPropertyFor");
        }
        let mut k: usize = 0;
        while k < plan.helpers.len()
            invariant
                k <= plan.helpers@.len(),
                strictly_sorted(str_views(helpers@)),
                str_views(helpers@).to_set() == before + (if bound { set!["thisPropertyFor"@] } else { Set::empty() })
                    + Set::new(|n: Seq<char>| exists|j: int| 0 <= j < k && (#[trigger] plan.helpers@[j])@ == n),
            decreases plan.helpers@.len() - k,
        {
            let ghost h0 = str_views(helpers@).to_set();
            insert_name(&mut helpers, plan.helpers[k]);
            assert(str_views(helpers@).to_set() =~= before + (if bound { set!["thisPropertyFor"@] } else { Set::empty() })
                + Set::new(|n: Seq<char>| exists|j: int| 0 <= j < k + 1 && (#[trigger] plan.helpers@[j])@ == n)) by {
                assert(plan.helpers@[k as int]@ == plan.helpers@[k as int]@);
            }
            k += 1;
        }
        let ghost o = string_views(bodies@);
        bodies.push(plan.body.clone());
        assert(string_views(bodies@) =~= o.push(plan.body@));
        assert(pt.map_values(|p: Plan| p.body@) =~= plans@.take(i as int).map_values(|p: Plan| p.body@).push(plan.body@));
        proof {
            let s1 = str_views(helpers@).to_set();
            let goal = (if any_surface(pt) { set!["thisPropertyFor"@] } else { Set::empty() }) + plan_helpers(pt);
            assert forall|n: Seq<char>| s1.contains(n) <==> goal.contains(n) by {
                if plan_helpers(pt).contains(n) {
                    let (a, b) = choose|a: int, b: int| 0 <= a < pt.len() && 0 <= b < pt[a].helpers@.len()
                        && (#[trigger] pt[a].helpers@[b])@ == n;
                    if a < i {
                        assert(plans@.take(i as int)[a] == pt[a]);
                        assert(plan_helpers(plans@.take(i as int)).contains(n));
                    } else {
                        assert(plan.helpers@[b]@ == n);
                    }
                }
                if plan_helpers(plans@.take(i as int)).contains(n) {
                    let (a, b) = choose|a: int, b: int| 0 <= a < plans@.take(i as int).len()
                        && 0 <= b < plans@.take(i as int)[a].helpers@.len()
                        && (#[trigger] plans@.take(i as int)[a].helpers@[b])@ == n;
                    assert(pt[a] == plans@.take(i as int)[a]);
                    assert(pt[a].helpers@[b]@ == n);
                }
                if exists|j: int| 0 <= j < plan.helpers@.len() && (#[trigger] plan.helpers@[j])@ == n {
                    let j = choose|j: int| 0 <= j < plan.helpers@.len() && (#[trigger] plan.helpers@[j])@ == n;
                    assert(pt[i as int].helpers@[j]@ == n);
                }
                if any_surface(pt) {
                    let a = choose|a: int| 0 <= a < pt.len()
                        && (#[trigger] spec_emit_one(pt[a].body@, pt[a].frame_duration, pt[a].surface)).1;
                    if a < i {
                        assert(plans@.take(i as int)[a] == pt[a]);
                    }
                }
                if any_surface(plans@.take(i as int)) {
                    let a = choose|a: int| 0 <= a < plans@.take(i as int).len()
                        && (#[trigger] spec_emit_one(plans@.take(i as int)[a].body@, plans@.take(i as int)[a].frame_duration, plans@.take(i as int)[a].surface)).1;
                    assert(pt[a] == plans@.take(i as int)[a]);
                }
                if bound {
                    assert(spec_emit_one(pt[i as int].body@, pt[i as int].frame_duration, pt[i as int].surface).1);
                }
            }
            assert(s1 =~= goal);
        }
        i += 1;
    }
    assert(plans@.take(plans@.len() as int) =~= plans@);
    push_str(&mut src, "];\n");
    let bare = bare_helpers(bodies.as_slice());
    let ghost before = str_views(helpers@).to_set();
    let mut k: usize = 0;
    while k < bare.len()
        invariant
            k <= bare@.len(),
            strictly_sorted(str_views(helpers@)),
            str_views(helpers@).to_set() == before + str_views(bare@).take(k as int).to_set(),
        decreases bare@.len() - k,
    {
        insert_name(&mut helpers, bare[k]);
        assert(str_views(bare@).take(k + 1) =~= str_views(bare@).take(k as int).push(bare@[k as int]@));
        proof {
            let t1 = str_views(bare@).take(k + 1);
            let t0 = str_views(bare@).take(k as int);
            let x = bare@[k as int]@;
            assert forall|y: Seq<char>| t1.to_set().contains(y) <==> t0.to_set().insert(x).contains(y) by {
                if t1.contains(y) {
                    let j = choose|j: int| 0 <= j < t1.len() && t1[j] == y;
                    if j < k {
                        assert(t0[j] == y);
                    }
                }
                if t0.contains(y) {
                    let j = choose|j: int| 0 <= j < t0.len() && t0[j] == y;
                    assert(t1[j] == y);
                }
                if y == x {
                    assert(t1[k as int] == y);
                }
            }
            assert(t1.to_set() =~= t0.to_set().insert(x));
        }
        k += 1;
    }
    assert(str_views(bare@).take(bare@.len() as int) =~= str_views(bare@));
    assert(str_views(helpers@).to_set() =~= table_helpers(plans@, bodies@));
    Exprs { src, helpers, bodies }
}

// ---------------------------------------------------------------------------
// Planning every body of a scene
// ---------------------------------------------------------------------------

/// The uses of body `i`: none when no property was found carrying it.
pub open spec fn uses_at(uses: Seq<Vec<Option<Site>>>, i: int) -> Seq<Option<Site>> {
    if 0 <= i < uses.len() {
        uses[i]@
    } else {
        seq![]
    }
}

/// The uses as sites, when there is at least one and every one has an owning
/// layer: `lyAt`/`lyRel` are rooted at `thisLayer`, and a body with no owner,
/// or used by nothing, has nothing to root them in.
pub open spec fn owned(u: Seq<Option<Site>>) -> Option<Seq<Site>> {
    if u.len() > 0 && forall|i: int| 0 <= i < u.len() ==> (#[trigger] u[i]) is Some {
        Some(Seq::new(u.len(), |i: int| u[i]->0))
    } else {
        None
    }
}

/// What the rewrite makes of one body of a scene, or `None` when it is
/// refused.
pub open spec fn planned(body: Seq<char>, u: Seq<Option<Site>>, index: index::Index, layers: rewrite::SceneLayers) -> Option<(Seq<char>, rewrite::St)> {
    match owned(u) {
        None => None,
        Some(us) => match crate::expr::syntax::js_syntax(body) {
            None => None,
            Some(p) => rewrite::rewritten(body, us, index, layers, p),
        },
    }
}

/// Whether `ps` are the plans of `bodies`, in order.
pub open spec fn plans_of(
    ps: Seq<Plan>,
    bodies: Seq<String>,
    uses: Seq<Vec<Option<Site>>>,
    index: index::Index,
    layers: rewrite::SceneLayers,
) -> bool {
    &&& ps.len() == bodies.len()
    &&& forall|i: int| 0 <= i < ps.len() ==> #[trigger] plan_is(ps[i], bodies[i]@, uses_at(uses, i), index, layers)
}

/// Whether `p` is what the rewrite makes of `body` under its uses.
pub open spec fn plan_is(p: Plan, body: Seq<char>, u: Seq<Option<Site>>, index: index::Index, layers: rewrite::SceneLayers) -> bool {
    match planned(body, u, index, layers) {
        Some((out, st)) => {
            &&& p.body@ == out
            &&& strictly_sorted(str_views(p.helpers@))
            &&& str_views(p.helpers@).to_set() == st.helpers
            &&& p.frame_duration == st.frame_duration
            &&& p.surface == rewrite::agreed_surface(owned(u)->0)
        },
        None => false,
    }
}

/// `s` without trailing whitespace.
pub open spec fn trim_end(s: Seq<char>) -> Seq<char>
    decreases s.len(),
{
    if s.len() > 0 && crate::text::whitespace(s.last()) {
        trim_end(s.drop_last())
    } else {
        s
    }
}

/// Why body `i` is refused, as the compile error says it.
pub open spec fn refusal(i: int, body: Seq<char>) -> Seq<char> {
    "expression E["@ + decimal(i as nat) + "] reaches a layer in a way the compiler cannot resolve. Set ULOTTIE_WHY=1 for the reason.\n"@
        + trim_end(crate::lines::trim_start(body))
}

fn trimmed(body: &str) -> (r: String)
    ensures
        r@ == trim_end(crate::lines::trim_start(body@)),
{
    let c = chars_of(body);
    let t = crate::lines::trimmed_start(c.as_slice());
    let mut n: usize = t.len();
    assert(t@.take(n as int) =~= t@);
    while n > 0 && crate::text::is_whitespace(t[n - 1])
        invariant
            n <= t@.len(),
            trim_end(t@) == trim_end(t@.take(n as int)),
        decreases n,
    {
        assert(t@.take(n as int).drop_last() =~= t@.take(n - 1));
        n -= 1;
    }
    let out = crate::text::slice_chars(t.as_slice(), 0, n);
    assert(out@ =~= t@.take(n as int));
    crate::text::string_of(out.as_slice())
}

fn owned_of(u: &Vec<Option<Site>>) -> (r: Option<Vec<Site>>)
    ensures
        match r {
            Some(v) => owned(u@) == Some(v@),
            None => owned(u@) is None,
        },
{
    if u.len() == 0 {
        return None;
    }
    let mut v: Vec<Site> = Vec::new();
    let mut i: usize = 0;
    while i < u.len()
        invariant
            i <= u@.len(),
            v@.len() == i,
            forall|j: int| 0 <= j < i ==> (#[trigger] u@[j]) is Some,
            forall|j: int| 0 <= j < i ==> #[trigger] v@[j] == u@[j]->0,
        decreases u@.len() - i,
    {
        match u[i] {
            Some(s) => v.push(s),
            None => {
                assert(!(u@[i as int] is Some));
                return None;
            },
        }
        i += 1;
    }
    assert(v@ =~= Seq::new(u@.len(), |j: int| u@[j]->0));
    Some(v)
}

/// Rewrite every body of a scene against the properties that use it:
/// `uses[i]` are the properties carrying body `i` (`None` for one with no
/// owning layer).
///
/// There is no fallback: the first body that cannot be rewritten exactly
/// fails the compile, with its index and its text.
pub fn plan_bodies(
    bodies: &[String],
    uses: &Vec<Vec<Option<Site>>>,
    index: &index::Index,
    layers: &rewrite::SceneLayers,
) -> (r: Result<Vec<Plan>, String>)
    requires
        index.wf(),
    ensures
        match r {
            Ok(ps) => plans_of(ps@, bodies@, uses@, *index, *layers),
            Err(m) => exists|i: int|
                0 <= i < bodies@.len() && #[trigger] planned(bodies@[i]@, uses_at(uses@, i), *index, *layers) is None
                    && (forall|j: int| 0 <= j < i ==> planned(bodies@[j]@, uses_at(uses@, j), *index, *layers) is Some)
                    && m@ == refusal(i, bodies@[i]@),
        },
{
    let mut ps: Vec<Plan> = Vec::new();
    let mut i: usize = 0;
    while i < bodies.len()
        invariant
            index.wf(),
            i <= bodies@.len(),
            plans_of(ps@, bodies@.take(i as int), uses@, *index, *layers),
        decreases bodies@.len() - i,
    {
        let ghost ui = uses_at(uses@, i as int);
        let none: Vec<Option<Site>> = Vec::new();
        let u = if i < uses.len() {
            &uses[i]
        } else {
            &none
        };
        assert(u@ == ui);
        let plan = match owned_of(u) {
            Some(us) => rewrite::plan_body(bodies[i].as_str(), us.as_slice(), index, layers),
            None => None,
        };
        match plan {
            Some(pl) => {
                let ghost before = ps@;
                ps.push(pl);
                assert(bodies@.take(i + 1)[i as int] == bodies@[i as int]);
                assert forall|j: int| 0 <= j < ps@.len() implies #[trigger] plan_is(
                    ps@[j],
                    bodies@.take(i + 1)[j]@,
                    uses_at(uses@, j),
                    *index,
                    *layers,
                ) by {
                    if j < i {
                        assert(bodies@.take(i + 1)[j] == bodies@.take(i as int)[j]);
                        assert(ps@[j] == before[j]);
                    }
                }
            },
            None => {
                let mut m = String::new();
                crate::text::push_str(&mut m, "expression E[");
                let d = crate::text::decimal_string(i as u64);
                crate::text::push_str(&mut m, d.as_str());
                crate::text::push_str(
                    &mut m,
                    "] reaches a layer in a way the compiler cannot resolve. Set ULOTTIE_WHY=1 for the reason.\n",
                );
                let t = trimmed(bodies[i].as_str());
                crate::text::push_str(&mut m, t.as_str());
                assert forall|j: int| 0 <= j < i implies planned(bodies@[j]@, uses_at(uses@, j), *index, *layers) is Some by {
                    assert(bodies@.take(i as int)[j] == bodies@[j]);
                    assert(plan_is(ps@[j], bodies@.take(i as int)[j]@, uses_at(uses@, j), *index, *layers));
                }
                assert(planned(bodies@[i as int]@, uses_at(uses@, i as int), *index, *layers) is None);
                return Err(m);
            },
        }
        i += 1;
    }
    assert(bodies@.take(bodies@.len() as int) =~= bodies@);
    Ok(ps)
}

/// Rewrite every body of a scene and emit the `const E = [ … ];` table.
///
/// Built per scene rather than once per module, because a record index only
/// means anything against the table the planner built. What ships passes the
/// layer-member scan: no body in the table reaches a layer the old way.
pub fn table(
    bodies: &[String],
    uses: &Vec<Vec<Option<Site>>>,
    index: &index::Index,
    layers: &rewrite::SceneLayers,
) -> (r: Result<Exprs, String>)
    requires
        index.wf(),
    ensures
        match r {
            Ok(e) => {
                &&& exists|ps: Seq<Plan>| #[trigger] plans_of(ps, bodies@, uses@, *index, *layers)
                    && e.src@ == "const E = [\n"@ + emitted(ps) + "];\n"@
                    && string_views(e.bodies@) == ps.map_values(|p: Plan| p.body@)
                    && strictly_sorted(str_views(e.helpers@))
                    && str_views(e.helpers@).to_set() == table_helpers(ps, e.bodies@)
                &&& forall|k: int| 0 <= k < e.bodies@.len() ==> !spec_verify(#[trigger] e.bodies@[k]@)
            },
            Err(m) => exists|i: int|
                0 <= i < bodies@.len() && #[trigger] planned(bodies@[i]@, uses_at(uses@, i), *index, *layers) is None
                    && (forall|j: int| 0 <= j < i ==> planned(bodies@[j]@, uses_at(uses@, j), *index, *layers) is Some)
                    && m@ == refusal(i, bodies@[i]@),
        },
{
    let plans = match plan_bodies(bodies, uses, index, layers) {
        Ok(p) => p,
        Err(m) => return Err(m),
    };
    let e = emit_table(plans.as_slice());
    proof {
        assert(plans_of(plans@, bodies@, uses@, *index, *layers));
        assert forall|k: int| 0 <= k < e.bodies@.len() implies !spec_verify(#[trigger] e.bodies@[k]@) by {
            assert(string_views(e.bodies@).len() == plans@.len());
            assert(string_views(e.bodies@)[k] == e.bodies@[k]@);
            assert(plans@.map_values(|p: Plan| p.body@)[k] == plans@[k].body@);
            assert(plan_is(plans@[k], bodies@[k]@, uses_at(uses@, k), *index, *layers));
            lemma_planned_passes(bodies@[k]@, uses_at(uses@, k), *index, *layers);
        }
    }
    Ok(e)
}

/// A planned body passes the layer-member scan.
pub proof fn lemma_planned_passes(body: Seq<char>, u: Seq<Option<Site>>, index: index::Index, layers: rewrite::SceneLayers)
    ensures
        planned(body, u, index, layers) matches Some((out, _)) ==> !spec_verify(out),
{
}

// ---------------------------------------------------------------------------
// The verifier
// ---------------------------------------------------------------------------

/// A character that continues an identifier, ASCII only.
pub open spec fn ident_ascii(c: char) -> bool {
    ascii_alnum(c) || c == '_' || c == '$'
}

/// Whether `s[i..i + len]` is a whole identifier rather than part of a longer
/// word or a member after a `.`.
pub open spec fn spec_whole_word(s: Seq<char>, i: int, len: int) -> bool {
    &&& !(i > 0 && (ident_ascii(s[i - 1]) || s[i - 1] == '.'))
    &&& !(i + len < s.len() && ident_ascii(s[i + len]))
}

fn is_ident_ascii(c: char) -> (r: bool)
    ensures
        r == ident_ascii(c),
{
    ('a' <= c && c <= 'z') || ('A' <= c && c <= 'Z') || ('0' <= c && c <= '9') || c == '_' || c == '$'
}

/// Whether `body[i..]` starts a whole identifier of length `len`.
///
/// Only ASCII neighbours count: a non-ASCII neighbour is none of the classes,
/// so the worst it can do is make this answer `true` — one more body on the
/// fallback, never one fewer.
fn whole_word(body: &[char], i: usize, len: usize) -> (r: bool)
    requires
        i + len <= body@.len(),
    ensures
        r == spec_whole_word(body@, i as int, len as int),
{
    if i > 0 && (is_ident_ascii(body[i - 1]) || body[i - 1] == '.') {
        return false;
    }
    !(i + len < body.len() && is_ident_ascii(body[i + len]))
}

/// Whether `w` occurs in `s` as a whole identifier.
pub open spec fn word_hit(s: Seq<char>, w: Seq<char>) -> bool {
    exists|i: int| has_at(s, i, w) && spec_whole_word(s, i, w.len() as int)
}

/// Whether `.m` occurs in `s` as a whole member name that does not follow a
/// digit (a decimal point is not a member access).
pub open spec fn member_hit(s: Seq<char>, m: Seq<char>) -> bool {
    exists|i: int|
        has_at(s, i, seq!['.'] + m) && !(i + 1 + m.len() < s.len() && word_char(s[i + 1 + m.len()]))
            && !(i > 0 && ascii_digit(s[i - 1]))
}

/// Layer members that must not survive a rewrite. `points`, `inTangents`,
/// `outTangents`, `isClosed` and `index` are left out: `thisProperty`, a
/// `createPath` result and a keyframe object all legitimately carry those.
pub open spec fn layer_members() -> Seq<Seq<char>> {
    seq![
        "position"@, "anchorPoint"@, "scale"@, "rotation"@, "opacity"@, "transform"@,
        "parentLayer"@, "getLocalTransform"@, "toComp"@, "fromCompToSurface"@,
        "pointOnPath"@, "tangentOnPath"@, "content"@, "path"@, "effect"@, "name"@,
    ]
}

fn layer_member_names() -> (r: Vec<&'static str>)
    ensures
        crate::text::str_views(r@) == layer_members(),
{
    let mut r: Vec<&'static str> = Vec::new();
    r.push("position");
    r.push("anchorPoint");
    r.push("scale");
    r.push("rotation");
    r.push("opacity");
    r.push("transform");
    r.push("parentLayer");
    r.push("getLocalTransform");
    r.push("toComp");
    r.push("fromCompToSurface");
    r.push("pointOnPath");
    r.push("tangentOnPath");
    r.push("content");
    r.push("path");
    r.push("effect");
    r.push("name");
    assert(crate::text::str_views(r@) =~= layer_members());
    r
}

/// Whether a finished body still reaches a layer, and so has to keep the
/// fallback surface: it names `effect` or `thisComp` as a free word (only the
/// fallback preamble binds them), or it reads a layer member.
pub open spec fn spec_verify(s: Seq<char>) -> bool {
    word_hit(s, "effect"@) || word_hit(s, "thisComp"@) || exists|k: int|
        0 <= k < layer_members().len() && member_hit(s, #[trigger] layer_members()[k])
}

fn find_word(s: &[char], w: &str) -> (r: bool)
    ensures
        r == word_hit(s@, w@),
{
    let wc = chars_of(w);
    let mut i: usize = 0;
    while i < s.len()
        invariant
            wc@ == w@,
            i <= s@.len(),
            forall|k: int| 0 <= k < i ==> !(has_at(s@, k, w@) && spec_whole_word(s@, k, w@.len() as int)),
        decreases s@.len() - i,
    {
        if chars_at(s, i, wc.as_slice()) && whole_word(s, i, wc.len()) {
            return true;
        }
        i += 1;
    }
    chars_at(s, i, wc.as_slice()) && whole_word(s, i, wc.len())
}

fn find_member(s: &[char], m: &str) -> (r: bool)
    ensures
        r == member_hit(s@, m@),
{
    let mut pat: Vec<char> = Vec::new();
    pat.push('.');
    let mc = chars_of(m);
    let mut mc2 = mc.clone();
    pat.append(&mut mc2);
    assert(pat@ =~= seq!['.'] + m@);
    let n = pat.len();
    let mut i: usize = 0;
    while i < s.len()
        invariant
            pat@ == seq!['.'] + m@,
            n == pat@.len(),
            i <= s@.len(),
            forall|k: int| 0 <= k < i ==> !(has_at(s@, k, seq!['.'] + m@) && !(k + 1 + m@.len() < s@.len()
                && word_char(s@[k + 1 + m@.len()])) && !(k > 0 && ascii_digit(s@[k - 1]))),
        decreases s@.len() - i,
    {
        if chars_at(s, i, pat.as_slice()) {
            let after_word = i + n < s.len() && is_word_char(s[i + n]);
            let after_digit = i > 0 && '0' <= s[i - 1] && s[i - 1] <= '9';
            if !after_word && !after_digit {
                return true;
            }
        }
        i += 1;
    }
    false
}

/// Whether a finished body still reaches a layer, and so has to keep the
/// fallback surface.
///
/// This has the last word over the walk, and it is a text scan rather than a
/// second analysis on purpose: the failure it guards against is the walk
/// believing it rewrote something it did not, and a scan that shares no code
/// with the walk cannot share its blind spot.
pub fn verify(body: &str) -> (r: bool)
    ensures
        r == spec_verify(body@),
{
    let s = chars_of(body);
    if find_word(s.as_slice(), "effect") || find_word(s.as_slice(), "thisComp") {
        return true;
    }
    let ms = layer_member_names();
    let mut k: usize = 0;
    while k < ms.len()
        invariant
            s@ == body@,
            crate::text::str_views(ms@) == layer_members(),
            k <= ms@.len(),
            !word_hit(s@, "effect"@),
            !word_hit(s@, "thisComp"@),
            forall|j: int| 0 <= j < k ==> !member_hit(s@, #[trigger] layer_members()[j]),
        decreases ms@.len() - k,
    {
        assert(ms@[k as int]@ == layer_members()[k as int]);
        if find_member(s.as_slice(), ms[k]) {
            return true;
        }
        k += 1;
    }
    false
}

// ---------------------------------------------------------------------------
// Effect selectors
// ---------------------------------------------------------------------------

/// One `effect(…)` argument, as far as it can be read at build time: an
/// index, or a name to look up.
pub enum Sel {
    Idx(u32),
    Name(String),
}

/// Whether an item with this display name and match name answers to `w`.
pub open spec fn pair_answers(p: (Option<&str>, Option<&str>), w: Seq<char>) -> bool {
    (p.0 matches Some(x) && x@ == w) || (p.1 matches Some(x) && x@ == w)
}

/// What a selector picks among `names`: `Some(Some(k))` the item it names,
/// `Some(None)` when it names none, and `None` when a name answers twice — a
/// payload that is not what the compiler thinks it is.
pub open spec fn spec_sel_find(sel: Sel, names: Seq<(Option<&str>, Option<&str>)>) -> Option<Option<u32>> {
    match sel {
        Sel::Idx(i) => Some(if (i as int) < names.len() { Some(i) } else { None }),
        Sel::Name(w) => if exists|a: int, b: int|
            0 <= a < b < names.len() && pair_answers(#[trigger] names[a], w@) && pair_answers(#[trigger] names[b], w@) {
            None
        } else if exists|k: int| 0 <= k < names.len() && pair_answers(#[trigger] names[k], w@) {
            Some(Some((choose|k: int| 0 <= k < names.len() && pair_answers(#[trigger] names[k], w@)) as u32))
        } else {
            Some(None)
        },
    }
}

fn opt_is(o: Option<&str>, w: &str) -> (r: bool)
    ensures
        r == (o matches Some(x) && x@ == w@),
{
    match o {
        Some(x) => crate::text::str_eq(x, w),
        None => false,
    }
}

impl Sel {
    /// The item this selector picks among `names`, or `None` when a name is
    /// ambiguous.
    pub fn find(&self, names: &[(Option<&str>, Option<&str>)]) -> (r: Option<Option<u32>>)
        requires
            names@.len() <= u32::MAX,
        ensures
            r == spec_sel_find(*self, names@),
    {
        match self {
            Sel::Idx(i) => Some(if (*i as usize) < names.len() {
                Some(*i)
            } else {
                None
            }),
            Sel::Name(want) => {
                let mut found: Option<u32> = None;
                let mut k: usize = 0;
                while k < names.len()
                    invariant
                        names@.len() <= u32::MAX,
                        *self matches Sel::Name(w) && w@ == want@,
                        k <= names@.len(),
                        match found {
                            None => forall|j: int| 0 <= j < k ==> !pair_answers(#[trigger] names@[j], want@),
                            Some(f) => (f as int) < k && pair_answers(names@[f as int], want@) && forall|j: int|
                                0 <= j < k && j != f ==> !pair_answers(#[trigger] names@[j], want@),
                        },
                    decreases names@.len() - k,
                {
                    let (nm, mn) = names[k];
                    if opt_is(nm, want.as_str()) || opt_is(mn, want.as_str()) {
                        assert(pair_answers(names@[k as int], want@));
                        if let Some(f) = found {
                            assert(pair_answers(names@[f as int], want@));
                            assert(exists|a: int, b: int|
                                0 <= a < b < names@.len() && pair_answers(#[trigger] names@[a], want@) && pair_answers(
                                    #[trigger] names@[b],
                                    want@,
                                )) by {
                                assert(0 <= f as int && (f as int) < k as int && (k as int) < names@.len());
                            }
                            return None;
                        }
                        found = Some(k as u32);
                    }
                    k += 1;
                }
                proof {
                    match found {
                        Some(f) => {
                            assert(pair_answers(names@[f as int], want@));
                            let c = choose|j: int| 0 <= j < names@.len() && pair_answers(#[trigger] names@[j], want@);
                            assert(c == f as int);
                        },
                        None => {},
                    }
                }
                Some(found)
            },
        }
    }
}

} // verus!
