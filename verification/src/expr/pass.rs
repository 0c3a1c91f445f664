//! The module pass over expression bodies: resolve the names inside the
//! surviving bodies, and decide the guards those names were mostly there to
//! serve.
//!
//! Bodies are deduplicated, so one body serves many properties on many
//! layers. A rewrite is applied only when every use of a body agrees on it:
//! a rewrite that is right for one layer and wrong for another would silently
//! read the wrong parameter.

use vstd::prelude::*;
use crate::ir::Effect;
use crate::expr::resolve::{
    Ref, Span, Branch, spec_resolve, indexable, ref_spans, rewrite_cuts, resolved_views, cuts_ok,
    splice, rewrite_fits, rewrite, chosen_arm, spec_dedent, branch_cuts, branches_fit,
    take_branches,
};

verus! {

// ---------------------------------------------------------------------------
// Agreement across uses
// ---------------------------------------------------------------------------

/// What the uses of one body have said so far.
pub enum Consensus<T> {
    /// No use recorded yet.
    Unseen,
    /// Every use so far gave this.
    Agreed(T),
    /// Two uses disagreed, or one had no answer at all.
    Split,
}

/// One more use, answering `r` (`None`: that use has no answer).
pub open spec fn step<T>(c: Consensus<T>, r: Option<T>) -> Consensus<T> {
    match c {
        Consensus::Unseen => match r {
            Some(v) => Consensus::Agreed(v),
            None => Consensus::Split,
        },
        Consensus::Agreed(v) => if r == Some(v) {
            Consensus::Agreed(v)
        } else {
            Consensus::Split
        },
        Consensus::Split => Consensus::Split,
    }
}

/// The consensus of a sequence of answers, recorded in order.
pub open spec fn consensus<T>(rs: Seq<Option<T>>) -> Consensus<T>
    decreases rs.len(),
{
    if rs.len() == 0 {
        Consensus::Unseen
    } else {
        step(consensus(rs.drop_last()), rs.last())
    }
}

/// Recording answers one at a time agrees on `v` exactly when there was at
/// least one answer and every answer was `v`; it is still unseen exactly when
/// there was none. The order the uses are met in does not matter.
pub proof fn lemma_consensus_unanimous<T>(rs: Seq<Option<T>>, v: T)
    ensures
        (consensus(rs) == Consensus::Agreed(v)) <==> (rs.len() > 0 && forall|i: int|
            0 <= i < rs.len() ==> #[trigger] rs[i] == Some(v)),
        (consensus(rs) is Unseen) <==> rs.len() == 0,
    decreases rs.len(),
{
    if rs.len() > 0 {
        let p = rs.drop_last();
        lemma_consensus_unanimous(p, v);
        if consensus(rs) == Consensus::Agreed(v) {
            assert forall|i: int| 0 <= i < rs.len() implies #[trigger] rs[i] == Some(v) by {
                if i < rs.len() - 1 {
                    assert(p[i] == rs[i]);
                }
            }
        }
        if rs.len() > 0 && forall|i: int| 0 <= i < rs.len() ==> #[trigger] rs[i] == Some(v) {
            assert forall|i: int| 0 <= i < p.len() implies #[trigger] p[i] == Some(v) by {
                assert(rs[i] == Some(v));
            }
            assert(rs[rs.len() - 1] == Some(v));
        }
    }
}

// ---------------------------------------------------------------------------
// Resolving every reference of a body against one layer
// ---------------------------------------------------------------------------

/// Every reference's indices against one layer's effects, or `None` when any
/// of them does not resolve.
pub open spec fn resolve_all(refs: Seq<Ref>, effects: Seq<Effect>) -> Option<Seq<Seq<u32>>>
    decreases refs.len(),
{
    if refs.len() == 0 {
        Some(seq![])
    } else {
        match (resolve_all(refs.drop_last(), effects), spec_resolve(&refs.last(), effects)) {
            (Some(vs), Some(v)) => Some(vs.push(v)),
            _ => None,
        }
    }
}

/// A list of index lists, as plain sequences.
pub open spec fn nested(v: Seq<Vec<u32>>) -> Seq<Seq<u32>> {
    v.map_values(|x: Vec<u32>| x@)
}

proof fn lemma_resolve_all_len(refs: Seq<Ref>, effects: Seq<Effect>)
    ensures
        resolve_all(refs, effects) matches Some(vs) ==> vs.len() == refs.len(),
    decreases refs.len(),
{
    if refs.len() > 0 {
        lemma_resolve_all_len(refs.drop_last(), effects);
    }
}

fn resolve_each(refs: &Vec<Ref>, effects: &[Effect]) -> (r: Option<Vec<Vec<u32>>>)
    requires
        indexable(effects@),
    ensures
        match resolve_all(refs@, effects@) {
            Some(vs) => r matches Some(x) && nested(x@) == vs,
            None => r is None,
        },
{
    let mut out: Vec<Vec<u32>> = Vec::new();
    let mut i: usize = 0;
    while i < refs.len()
        invariant
            indexable(effects@),
            i <= refs@.len(),
            resolve_all(refs@.take(i as int), effects@) == Some(nested(out@)),
        decreases refs@.len() - i,
    {
        assert(refs@.take(i + 1).drop_last() =~= refs@.take(i as int));
        assert(refs@.take(i + 1).last() == refs@[i as int]);
        match refs[i].resolve(effects) {
            Some(v) => {
                let ghost o = nested(out@);
                out.push(v);
                assert(nested(out@) =~= o.push(out@.last()@));
            },
            None => {
                proof {
                    lemma_resolve_all_none(refs@, effects@, i as int + 1);
                }
                return None;
            },
        }
        i += 1;
    }
    assert(refs@.take(refs@.len() as int) =~= refs@);
    Some(out)
}

proof fn lemma_resolve_all_none(refs: Seq<Ref>, effects: Seq<Effect>, n: int)
    requires
        0 <= n <= refs.len(),
        resolve_all(refs.take(n), effects) is None,
    ensures
        resolve_all(refs, effects) is None,
    decreases refs.len() - n,
{
    if n < refs.len() {
        assert(refs.take(n + 1).drop_last() =~= refs.take(n));
        lemma_resolve_all_none(refs, effects, n + 1);
    } else {
        assert(refs.take(n) =~= refs);
    }
}

fn same_lists(a: &Vec<Vec<u32>>, b: &Vec<Vec<u32>>) -> (r: bool)
    ensures
        r == (nested(a@) == nested(b@)),
{
    if a.len() != b.len() {
        assert(nested(a@).len() != nested(b@).len());
        return false;
    }
    let mut i: usize = 0;
    while i < a.len()
        invariant
            a@.len() == b@.len(),
            i <= a@.len(),
            forall|k: int| 0 <= k < i ==> a@[k]@ == b@[k]@,
        decreases a@.len() - i,
    {
        let x = &a[i];
        let y = &b[i];
        if x.len() != y.len() {
            assert(nested(a@)[i as int] != nested(b@)[i as int]);
            return false;
        }
        let mut j: usize = 0;
        while j < x.len()
            invariant
                i < a@.len(),
                a@.len() == b@.len(),
                *x == a@[i as int],
                *y == b@[i as int],
                x@.len() == y@.len(),
                j <= x@.len(),
                forall|k: int| 0 <= k < j ==> x@[k] == y@[k],
            decreases x@.len() - j,
        {
            if x[j] != y[j] {
                assert(nested(a@)[i as int][j as int] != nested(b@)[i as int][j as int]);
                return false;
            }
            j += 1;
        }
        assert(x@ =~= y@);
        i += 1;
    }
    assert(nested(a@) =~= nested(b@));
    true
}

// ---------------------------------------------------------------------------
// Recording the uses of every body
// ---------------------------------------------------------------------------

/// A consensus of exec values, seen through `f`.
pub open spec fn consensus_view<T, S>(c: Consensus<T>, f: spec_fn(T) -> S) -> Consensus<S> {
    match c {
        Consensus::Unseen => Consensus::Unseen,
        Consensus::Agreed(v) => Consensus::Agreed(f(v)),
        Consensus::Split => Consensus::Split,
    }
}

/// A body's references and what its uses have said about them.
pub struct Uses {
    /// Each body's references, by expression id; empty for a body with none.
    pub refs: Vec<Vec<Ref>>,
    /// Each body's agreement so far, by expression id.
    pub agreed: Vec<Consensus<Vec<Vec<u32>>>>,
}

/// The agreements of a [`Uses`], as plain sequences.
pub open spec fn agreements(agreed: Seq<Consensus<Vec<Vec<u32>>>>) -> Seq<Consensus<Seq<Seq<u32>>>> {
    agreed.map_values(|c: Consensus<Vec<Vec<u32>>>| consensus_view(c, |x: Vec<Vec<u32>>| nested(x@)))
}

impl Uses {
    /// No use recorded yet for any body.
    pub fn new(refs: Vec<Vec<Ref>>) -> (r: Uses)
        ensures
            r.refs@ == refs@,
            r.agreed@.len() == refs@.len(),
            forall|i: int| 0 <= i < refs@.len() ==> #[trigger] r.agreed@[i] is Unseen,
    {
        let mut agreed: Vec<Consensus<Vec<Vec<u32>>>> = Vec::new();
        let mut i: usize = 0;
        while i < refs.len()
            invariant
                i <= refs@.len(),
                agreed@.len() == i,
                forall|k: int| 0 <= k < i ==> #[trigger] agreed@[k] is Unseen,
            decreases refs@.len() - i,
        {
            agreed.push(Consensus::Unseen);
            i += 1;
        }
        Uses { refs, agreed }
    }

    /// One property still carrying expression `id`, on a layer with `effects`.
    ///
    /// A body with no references, or an id past the table, records nothing.
    pub fn record(&mut self, id: u32, effects: &[Effect])
        requires
            old(self).agreed@.len() == old(self).refs@.len(),
            indexable(effects@),
        ensures
            final(self).refs@ == old(self).refs@,
            final(self).agreed@.len() == old(self).agreed@.len(),
            agreements(final(self).agreed@) == if id < old(self).refs@.len() && old(self).refs@[id as int]@.len() > 0 {
                agreements(old(self).agreed@).update(
                    id as int,
                    step(
                        agreements(old(self).agreed@)[id as int],
                        resolve_all(old(self).refs@[id as int]@, effects@),
                    ),
                )
            } else {
                agreements(old(self).agreed@)
            },
    {
        let i = id as usize;
        if i >= self.refs.len() || self.refs[i].len() == 0 {
            return;
        }
        let resolved = resolve_each(&self.refs[i], effects);
        let ghost before = agreements(self.agreed@);
        let ghost res = resolve_all(self.refs@[id as int]@, effects@);
        let next: Consensus<Vec<Vec<u32>>> = match &self.agreed[i] {
            Consensus::Unseen => match resolved {
                Some(v) => Consensus::Agreed(v),
                None => Consensus::Split,
            },
            Consensus::Agreed(v) => {
                let same = match &resolved {
                    Some(x) => same_lists(x, v),
                    None => false,
                };
                if same {
                    match resolved {
                        Some(x) => Consensus::Agreed(x),
                        None => Consensus::Split,
                    }
                } else {
                    Consensus::Split
                }
            },
            Consensus::Split => Consensus::Split,
        };
        assert(consensus_view(next, |x: Vec<Vec<u32>>| nested(x@)) == step(before[id as int], res));
        self.agreed.set(i, next);
        assert(agreements(self.agreed@) =~= before.update(id as int, step(before[id as int], res)));
    }
}

// ---------------------------------------------------------------------------
// Resolving the references of every surviving body
// ---------------------------------------------------------------------------

/// The uses one layer makes: each expression id it carries, with its effects.
pub open spec fn uses_on(layer: (Vec<u32>, Vec<Effect>)) -> Seq<(u32, Seq<Effect>)> {
    layer.0@.map_values(|id: u32| (id, layer.1@))
}

/// Every use of an expression, in walk order: layer by layer, and within a
/// layer property by property.
pub open spec fn occurrences(per_layer: Seq<(Vec<u32>, Vec<Effect>)>) -> Seq<(u32, Seq<Effect>)>
    decreases per_layer.len(),
{
    if per_layer.len() == 0 {
        seq![]
    } else {
        occurrences(per_layer.drop_last()) + uses_on(per_layer.last())
    }
}

/// What the uses `occ` have said about body `id`'s references. A body with no
/// references is never asked.
pub open spec fn agreement(refs: Seq<Vec<Ref>>, occ: Seq<(u32, Seq<Effect>)>, id: int) -> Consensus<Seq<Seq<u32>>>
    decreases occ.len(),
{
    if occ.len() == 0 {
        Consensus::Unseen
    } else {
        let prev = agreement(refs, occ.drop_last(), id);
        if occ.last().0 == id && refs[id]@.len() > 0 {
            step(prev, resolve_all(refs[id]@, occ.last().1))
        } else {
            prev
        }
    }
}

/// A body's references are rewritten to `v` exactly when it has references,
/// at least one use, and every one of its uses resolves them to `v`.
pub proof fn lemma_agreement_unanimous(refs: Seq<Vec<Ref>>, occ: Seq<(u32, Seq<Effect>)>, id: int, v: Seq<Seq<u32>>)
    ensures
        (agreement(refs, occ, id) == Consensus::Agreed(v)) <==> (
            refs[id]@.len() > 0
            && (exists|k: int| 0 <= k < occ.len() && #[trigger] occ[k].0 == id)
            && forall|k: int| 0 <= k < occ.len() && #[trigger] occ[k].0 == id
                ==> resolve_all(refs[id]@, occ[k].1) == Some(v)
        ),
        (agreement(refs, occ, id) is Unseen) <==> (
            refs[id]@.len() == 0 || forall|k: int| 0 <= k < occ.len() ==> #[trigger] occ[k].0 != id
        ),
    decreases occ.len(),
{
    if occ.len() > 0 {
        let p = occ.drop_last();
        let n = occ.len() - 1;
        lemma_agreement_unanimous(refs, p, id, v);
        assert forall|k: int| 0 <= k < p.len() implies #[trigger] p[k] == occ[k] by {}
        if agreement(refs, occ, id) == Consensus::Agreed(v) {
            assert forall|k: int| 0 <= k < occ.len() && #[trigger] occ[k].0 == id
                implies resolve_all(refs[id]@, occ[k].1) == Some(v) by {
                if k < n {
                    assert(p[k] == occ[k]);
                }
            }
            if occ.last().0 == id && refs[id]@.len() > 0 {
                assert(occ[n].0 == id);
            } else {
                let w = choose|k: int| 0 <= k < p.len() && #[trigger] p[k].0 == id;
                assert(occ[w].0 == id);
            }
        }
        if refs[id]@.len() > 0
            && (exists|k: int| 0 <= k < occ.len() && #[trigger] occ[k].0 == id)
            && forall|k: int| 0 <= k < occ.len() && #[trigger] occ[k].0 == id
                ==> resolve_all(refs[id]@, occ[k].1) == Some(v) {
            assert forall|k: int| 0 <= k < p.len() && #[trigger] p[k].0 == id
                implies resolve_all(refs[id]@, p[k].1) == Some(v) by {
                assert(occ[k].0 == id);
            }
            let w = choose|k: int| 0 <= k < occ.len() && #[trigger] occ[k].0 == id;
            if w < n {
                assert(p[w].0 == id);
            } else {
                assert(occ.last().0 == id);
            }
            if occ.last().0 == id {
                assert(occ[n].0 == id);
            }
        }
        if refs[id]@.len() > 0 && !(forall|k: int| 0 <= k < occ.len() ==> #[trigger] occ[k].0 != id) {
            let w = choose|k: int| 0 <= k < occ.len() && !(#[trigger] occ[k].0 != id);
            if w < n {
                assert(p[w].0 == id);
            }
        }
        if forall|k: int| 0 <= k < occ.len() ==> #[trigger] occ[k].0 != id {
            assert(occ[n].0 != id);
            assert forall|k: int| 0 <= k < p.len() implies #[trigger] p[k].0 != id by {
                assert(occ[k].0 != id);
            }
        }
    }
}

/// The pairs handed to the rewrite: each reference with its indices.
pub open spec fn ref_pairs(refs: Seq<Ref>, v: Seq<Seq<u32>>) -> Seq<(Seq<Span>, Seq<u32>)> {
    Seq::new(refs.len(), |k: int| (ref_spans(&refs[k]), v[k]))
}

/// A body once its uses have spoken: rewritten when they agree and the
/// literals can be spliced, as it was otherwise.
pub open spec fn resolved_body(body: Seq<char>, refs: Seq<Ref>, c: Consensus<Seq<Seq<u32>>>) -> Seq<char> {
    match c {
        Consensus::Agreed(v) => {
            let cuts = rewrite_cuts(ref_pairs(refs, v));
            if cuts_ok(body, cuts) {
                splice(body, cuts, 0)
            } else {
                body
            }
        },
        _ => body,
    }
}

/// Rewrite `effect('name')('param')` to `effect(i)(j)` in every body whose
/// uses all agree on the indices.
///
/// `refs` holds each body's references by expression id; `per_layer` holds,
/// for each layer of the walk, the ids of the expressions its properties still
/// carry and the layer's effects.
pub fn resolve_refs(bodies: &mut Vec<String>, refs: Vec<Vec<Ref>>, per_layer: &Vec<(Vec<u32>, Vec<Effect>)>)
    requires
        old(bodies)@.len() == refs@.len(),
        forall|l: int| 0 <= l < per_layer@.len() ==> indexable((#[trigger] per_layer@[l]).1@),
    ensures
        final(bodies)@.len() == old(bodies)@.len(),
        forall|id: int| 0 <= id < old(bodies)@.len() ==> (#[trigger] final(bodies)@[id])@ == resolved_body(
            old(bodies)@[id]@,
            refs@[id]@,
            agreement(refs@, occurrences(per_layer@), id),
        ),
{
    let ghost rs = refs@;
    let ghost pl = per_layer@;
    let n = refs.len();
    let mut uses = Uses::new(refs);
    let mut l: usize = 0;
    while l < per_layer.len()
        invariant
            pl == per_layer@,
            forall|k: int| 0 <= k < pl.len() ==> indexable((#[trigger] pl[k]).1@),
            uses.refs@ == rs,
            rs.len() == n,
            uses.agreed@.len() == n,
            l <= pl.len(),
            forall|id: int| 0 <= id < n ==> #[trigger] agreements(uses.agreed@)[id] == agreement(rs, occurrences(pl.take(l as int)), id),
        decreases pl.len() - l,
    {
        let ids = &per_layer[l].0;
        let effects = &per_layer[l].1;
        let ghost before = occurrences(pl.take(l as int));
        let ghost uo = uses_on(pl[l as int]);
        let mut j: usize = 0;
        while j < ids.len()
            invariant
                pl == per_layer@,
                l < pl.len(),
                *ids == pl[l as int].0,
                *effects == pl[l as int].1,
                uo == uses_on(pl[l as int]),
                indexable(effects@),
                uses.refs@ == rs,
                rs.len() == n,
                uses.agreed@.len() == n,
                j <= ids@.len(),
                forall|id: int| 0 <= id < n ==> #[trigger] agreements(uses.agreed@)[id] == agreement(rs, before + uo.take(j as int), id),
            decreases ids@.len() - j,
        {
            let ghost occ = before + uo.take(j as int);
            let ghost occ2 = before + uo.take(j + 1);
            assert(occ2.drop_last() =~= occ);
            assert(occ2.last() == (ids@[j as int], effects@));
            uses.record(ids[j], effects.as_slice());
            j += 1;
        }
        assert(uo.take(ids@.len() as int) =~= uo);
        assert(pl.take(l + 1).drop_last() =~= pl.take(l as int));
        l += 1;
    }
    assert(pl.take(pl.len() as int) =~= pl);
    let ghost orig = bodies@;
    let ghost occ = occurrences(pl);
    let Uses { refs, agreed } = uses;
    let mut id: usize = 0;
    while id < n
        invariant
            refs@ == rs,
            rs.len() == n,
            agreed@.len() == n,
            orig.len() == n,
            bodies@.len() == n,
            id <= n,
            forall|k: int| 0 <= k < n ==> #[trigger] agreements(agreed@)[k] == agreement(rs, occ, k),
            forall|k: int| 0 <= k < id ==> (#[trigger] bodies@[k])@ == resolved_body(orig[k]@, rs[k]@, agreement(rs, occ, k)),
            forall|k: int| id <= k < n ==> #[trigger] bodies@[k] == orig[k],
        decreases n - id,
    {
        assert(agreements(agreed@)[id as int] == consensus_view(agreed@[id as int], |x: Vec<Vec<u32>>| nested(x@)));
        if let Consensus::Agreed(v) = &agreed[id] {
            let list = &refs[id];
            proof {
                lemma_agreement_len(rs, occ, id as int, nested(v@));
            }
            let mut pairs: Vec<(&Ref, Vec<u32>)> = Vec::new();
            let mut k: usize = 0;
            while k < list.len()
                invariant
                    k <= list@.len(),
                    list@.len() == v@.len(),
                    pairs@.len() == k,
                    forall|q: int| 0 <= q < k ==> (#[trigger] pairs@[q]).0 == &list@[q] && pairs@[q].1@ == v@[q]@,
                decreases list@.len() - k,
            {
                let c = v[k].clone();
                assert(c@ =~= v@[k as int]@);
                pairs.push((&list[k], c));
                k += 1;
            }
            assert(resolved_views(pairs@) =~= ref_pairs(list@, nested(v@)));
            if rewrite_fits(bodies[id].as_str(), pairs.as_slice()) {
                let out = rewrite(bodies[id].as_str(), pairs.as_slice());
                bodies.set(id, out);
            }
        }
        id += 1;
    }
}

proof fn lemma_agreement_len(refs: Seq<Vec<Ref>>, occ: Seq<(u32, Seq<Effect>)>, id: int, v: Seq<Seq<u32>>)
    requires
        agreement(refs, occ, id) == Consensus::Agreed(v),
    ensures
        v.len() == refs[id]@.len(),
{
    lemma_agreement_unanimous(refs, occ, id, v);
    let w = choose|k: int| 0 <= k < occ.len() && #[trigger] occ[k].0 == id;
    lemma_resolve_all_len(refs[id]@, occ[w].1);
}

// ---------------------------------------------------------------------------
// Deciding guards
// ---------------------------------------------------------------------------

/// What the uses `decided` have said about the tests of body `id`: each use
/// gives one verdict per test, `None` where the evaluator could not decide.
/// A body with no guards is never asked.
pub open spec fn verdicts(found: Seq<Vec<Branch>>, decided: Seq<(u32, Vec<Option<bool>>)>, id: int) -> Consensus<Seq<Option<bool>>>
    decreases decided.len(),
{
    if decided.len() == 0 {
        Consensus::Unseen
    } else {
        let prev = verdicts(found, decided.drop_last(), id);
        if decided.last().0 == id && found[id]@.len() > 0 {
            step(prev, Some(decided.last().1@))
        } else {
            prev
        }
    }
}

/// The text that replaces an arm's statement: the arm's statements pulled
/// back one level, or nothing for an empty arm.
pub open spec fn arm_text(body: Seq<char>, a: Span) -> Seq<char> {
    if a.start >= a.end {
        Seq::empty()
    } else {
        spec_dedent(body.subrange(a.start as int, a.end as int))
    }
}

/// The splices the first `k` verdicts make: one per decided test whose arm
/// exists, in order.
pub open spec fn decided_cuts(body: Seq<char>, branches: Seq<Branch>, vs: Seq<Option<bool>>, k: int) -> Seq<(Span, Seq<char>)>
    decreases k,
{
    if k <= 0 {
        seq![]
    } else {
        let prev = decided_cuts(body, branches, vs, k - 1);
        match vs[k - 1] {
            Some(d) => match chosen_arm(&branches[k - 1], d) {
                Some(a) => prev.push((branches[k - 1].stmt, arm_text(body, a))),
                None => prev,
            },
            None => prev,
        }
    }
}

/// The splices a body's agreed verdicts make, tests and verdicts paired as
/// far as both lists go.
pub open spec fn all_decided_cuts(body: Seq<char>, branches: Seq<Branch>, vs: Seq<Option<bool>>) -> Seq<(Span, Seq<char>)> {
    decided_cuts(body, branches, vs, if branches.len() <= vs.len() { branches.len() as int } else { vs.len() as int })
}

/// The splice view of decided cuts.
pub open spec fn cut_texts(cuts: Seq<(Span, Seq<char>)>) -> Seq<(int, int, Seq<char>)> {
    cuts.map_values(|c: (Span, Seq<char>)| (c.0.start as int, c.0.end as int, c.1))
}

/// A body once its guards' verdicts are in: each decided test replaced by
/// the arm it takes, when the uses agree, some arm is taken, and the
/// statements can be spliced; as it was otherwise.
pub open spec fn folded_body(body: Seq<char>, branches: Seq<Branch>, c: Consensus<Seq<Option<bool>>>) -> Seq<char> {
    match c {
        Consensus::Agreed(vs) => {
            let cuts = cut_texts(all_decided_cuts(body, branches, vs));
            if cuts.len() > 0 && cuts_ok(body, cuts) {
                splice(body, cuts, 0)
            } else {
                body
            }
        },
        _ => body,
    }
}

/// Whether every arm of a guard lies inside a body of `len` characters.
pub open spec fn arms_inside(b: Branch, len: nat) -> bool {
    &&& (b.taken.start < b.taken.end ==> b.taken.end <= len)
    &&& (b.other matches Some(o) ==> (o.start < o.end ==> o.end <= len))
}

/// A consensus of verdict lists, as plain sequences.
pub open spec fn verdict_view(c: Consensus<Vec<Option<bool>>>) -> Consensus<Seq<Option<bool>>> {
    consensus_view(c, |x: Vec<Option<bool>>| x@)
}

fn copy_verdicts(a: &Vec<Option<bool>>) -> (r: Vec<Option<bool>>)
    ensures
        r@ == a@,
{
    let mut out: Vec<Option<bool>> = Vec::new();
    let mut i: usize = 0;
    while i < a.len()
        invariant
            i <= a@.len(),
            out@ == a@.take(i as int),
        decreases a@.len() - i,
    {
        out.push(a[i]);
        assert(out@ =~= a@.take(i + 1));
        i += 1;
    }
    assert(out@ =~= a@);
    out
}

fn same_verdicts(a: &Vec<Option<bool>>, b: &Vec<Option<bool>>) -> (r: bool)
    ensures
        r == (a@ == b@),
{
    if a.len() != b.len() {
        return false;
    }
    let mut i: usize = 0;
    while i < a.len()
        invariant
            a@.len() == b@.len(),
            i <= a@.len(),
            forall|k: int| 0 <= k < i ==> a@[k] == b@[k],
        decreases a@.len() - i,
    {
        let same = match (a[i], b[i]) {
            (Some(x), Some(y)) => x == y,
            (None, None) => true,
            _ => false,
        };
        if !same {
            return false;
        }
        i += 1;
    }
    assert(a@ =~= b@);
    true
}

/// Replace every `if` whose test all uses of the body decide alike with the
/// arm it takes.
///
/// `found` holds each body's top-level guards by expression id; `decided`
/// holds, for each property still carrying an expression in walk order, the
/// id it carries and a verdict per guard of that body (`None` where the test
/// could not be decided for that property). Decided per property and applied
/// only when they agree: one body serves properties that do not agree about
/// `thisProperty.numKeys`.
pub fn fold_branches(bodies: &mut Vec<String>, found: &Vec<Vec<Branch>>, decided: &Vec<(u32, Vec<Option<bool>>)>)
    requires
        old(bodies)@.len() == found@.len(),
        forall|id: int, k: int| 0 <= id < found@.len() && 0 <= k < found@[id]@.len()
            ==> arms_inside(#[trigger] found@[id]@[k], old(bodies)@[id]@.len()),
    ensures
        final(bodies)@.len() == old(bodies)@.len(),
        forall|id: int| 0 <= id < old(bodies)@.len() ==> (#[trigger] final(bodies)@[id])@ == folded_body(
            old(bodies)@[id]@,
            found@[id]@,
            verdicts(found@, decided@, id),
        ),
{
    let ghost fs = found@;
    let ghost ds = decided@;
    let n = found.len();
    let mut agreed: Vec<Consensus<Vec<Option<bool>>>> = Vec::new();
    let mut i: usize = 0;
    while i < n
        invariant
            n == fs.len(),
            i <= n,
            agreed@.len() == i,
            forall|k: int| 0 <= k < i ==> #[trigger] agreed@[k] is Unseen,
        decreases n - i,
    {
        agreed.push(Consensus::Unseen);
        i += 1;
    }
    let mut u: usize = 0;
    while u < decided.len()
        invariant
            fs == found@,
            ds == decided@,
            n == fs.len(),
            agreed@.len() == n,
            u <= ds.len(),
            forall|id: int| 0 <= id < n ==> #[trigger] verdict_view(agreed@[id]) == verdicts(fs, ds.take(u as int), id),
        decreases ds.len() - u,
    {
        assert(ds.take(u + 1).drop_last() =~= ds.take(u as int));
        assert(ds.take(u + 1).last() == ds[u as int]);
        let id = decided[u].0 as usize;
        let ghost before = agreed@;
        if id < n && found[id].len() > 0 {
            let d = &decided[u].1;
            let next: Consensus<Vec<Option<bool>>> = match &agreed[id] {
                Consensus::Unseen => Consensus::Agreed(copy_verdicts(d)),
                Consensus::Agreed(v) => if same_verdicts(v, d) {
                    Consensus::Agreed(copy_verdicts(d))
                } else {
                    Consensus::Split
                },
                Consensus::Split => Consensus::Split,
            };
            assert(verdict_view(next) == step(verdict_view(before[id as int]), Some(d@)));
            agreed.set(id, next);
            assert forall|q: int| 0 <= q < n implies #[trigger] verdict_view(agreed@[q]) == verdicts(fs, ds.take(u + 1), q) by {
                if q != id {
                    assert(agreed@[q] == before[q]);
                }
            }
        } else {
            assert forall|q: int| 0 <= q < n implies #[trigger] verdict_view(agreed@[q]) == verdicts(fs, ds.take(u + 1), q) by {
                assert(agreed@[q] == before[q]);
            }
        }
        u += 1;
    }
    assert(ds.take(ds.len() as int) =~= ds);
    let ghost orig = bodies@;
    let mut id: usize = 0;
    while id < n
        invariant
            fs == found@,
            ds == decided@,
            n == fs.len(),
            agreed@.len() == n,
            orig.len() == n,
            bodies@.len() == n,
            id <= n,
            forall|q: int, k: int| 0 <= q < n && 0 <= k < fs[q]@.len() ==> arms_inside(#[trigger] fs[q]@[k], orig[q]@.len()),
            forall|k: int| 0 <= k < n ==> #[trigger] verdict_view(agreed@[k]) == verdicts(fs, ds, k),
            forall|k: int| 0 <= k < id ==> (#[trigger] bodies@[k])@ == folded_body(orig[k]@, fs[k]@, verdicts(fs, ds, k)),
            forall|k: int| id <= k < n ==> #[trigger] bodies@[k] == orig[k],
        decreases n - id,
    {
        assert(verdict_view(agreed@[id as int]) == verdicts(fs, ds, id as int));
        if let Consensus::Agreed(vs) = &agreed[id] {
            let list = &found[id];
            let body = bodies[id].as_str();
            let ghost bv = body@;
            let m = if list.len() <= vs.len() { list.len() } else { vs.len() };
            let mut cuts: Vec<(Span, String)> = Vec::new();
            let mut k: usize = 0;
            while k < m
                invariant
                    m <= list@.len(),
                    m <= vs@.len(),
                    k <= m,
                    bv == body@,
                    forall|q: int| 0 <= q < list@.len() ==> arms_inside(#[trigger] list@[q], bv.len()),
                    cut_texts(branch_views(cuts@)) == cut_texts(decided_cuts(bv, list@, vs@, k as int)),
                decreases m - k,
            {
                assert(arms_inside(list@[k as int], bv.len()));
                match vs[k] {
                    Some(dv) => {
                        match list[k].arm(body, dv) {
                            Some(c) => {
                                let ghost o = branch_views(cuts@);
                                cuts.push(c);
                                assert(branch_views(cuts@) =~= o.push((c.0, c.1@)));
                                assert(cut_texts(o.push((c.0, c.1@))) =~= cut_texts(o).push((c.0.start as int, c.0.end as int, c.1@)));
                                assert(cut_texts(decided_cuts(bv, list@, vs@, k + 1)) =~= cut_texts(decided_cuts(bv, list@, vs@, k as int)).push((c.0.start as int, c.0.end as int, c.1@)));
                            },
                            None => {},
                        }
                    },
                    None => {},
                }
                k += 1;
            }
            assert(branch_cuts(cuts@) =~= cut_texts(branch_views(cuts@)));
            if cuts.len() > 0 && branches_fit(body, cuts.as_slice()) {
                let out = take_branches(body, cuts.as_slice());
                bodies.set(id, out);
            }
        }
        id += 1;
    }
}

/// Decided cuts as spans and plain text.
pub open spec fn branch_views(cuts: Seq<(Span, String)>) -> Seq<(Span, Seq<char>)> {
    cuts.map_values(|c: (Span, String)| (c.0, c.1@))
}


// ---------------------------------------------------------------------------
// The sweep
// ---------------------------------------------------------------------------

/// Whether body `id` survives the sweep: some property still points at it, or
/// the walk never reached it (a use the walk does not know about keeps its body
/// rather than losing it).
pub open spec fn survives(id: int, seen: Seq<u32>, live: Seq<u32>) -> bool {
    live.contains(id as u32) || !seen.contains(id as u32)
}

/// The ids below `n` that survive, in increasing order.
pub open spec fn survivors(n: int, seen: Seq<u32>, live: Seq<u32>) -> Seq<int>
    decreases n,
{
    if n <= 0 {
        seq![]
    } else if survives(n - 1, seen, live) {
        survivors(n - 1, seen, live).push(n - 1)
    } else {
        survivors(n - 1, seen, live)
    }
}

fn contains_id(v: &[u32], id: u32) -> (r: bool)
    ensures
        r == v@.contains(id),
{
    let mut i: usize = 0;
    while i < v.len()
        invariant
            i <= v@.len(),
            forall|j: int| 0 <= j < i ==> v@[j] != id,
        decreases v@.len() - i,
    {
        if v[i] == id {
            return true;
        }
        i += 1;
    }
    false
}

/// Drop the bodies the fold orphaned and number the rest afresh: the
/// surviving bodies in their old order, and for each old id its new id, or
/// `None` where the body went. `seen` holds the ids the walk visited, `live`
/// those a property still points at after folding.
pub fn sweep(bodies: &[String], seen: &[u32], live: &[u32]) -> (r: (Vec<String>, Vec<Option<u32>>))
    requires
        bodies@.len() <= u32::MAX,
    ensures
        r.0@.len() == survivors(bodies@.len() as int, seen@, live@).len(),
        forall|j: int|
            0 <= j < r.0@.len() ==> #[trigger] r.0@[j]@ == bodies@[survivors(bodies@.len() as int, seen@, live@)[j]]@,
        r.1@.len() == bodies@.len(),
        forall|i: int|
            0 <= i < bodies@.len() ==> #[trigger] r.1@[i] == if survives(i, seen@, live@) {
                Some(survivors(i, seen@, live@).len() as u32)
            } else {
                None
            },
{
    let mut kept: Vec<String> = Vec::new();
    let mut map: Vec<Option<u32>> = Vec::new();
    let mut i: usize = 0;
    while i < bodies.len()
        invariant
            i <= bodies@.len() <= u32::MAX,
            kept@.len() == survivors(i as int, seen@, live@).len(),
            survivors(i as int, seen@, live@).len() <= i,
            forall|j: int| 0 <= j < kept@.len() ==> #[trigger] kept@[j]@ == bodies@[survivors(i as int, seen@, live@)[j]]@,
            map@.len() == i,
            forall|k: int| 0 <= k < i ==> #[trigger] map@[k] == if survives(k, seen@, live@) {
                Some(survivors(k, seen@, live@).len() as u32)
            } else {
                None
            },
        decreases bodies@.len() - i,
    {
        let id = i as u32;
        let s = contains_id(live, id) || !contains_id(seen, id);
        assert(s == survives(i as int, seen@, live@));
        if s {
            let n = kept.len() as u32;
            let t = crate::text::string_of(crate::text::chars_of(bodies[i].as_str()).as_slice());
            kept.push(t);
            map.push(Some(n));
        } else {
            map.push(None);
        }
        i += 1;
    }
    (kept, map)
}

} // verus!
