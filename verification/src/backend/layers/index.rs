//! The layer index: which record a name or a composition index reaches, in one
//! composition of one record table.
//!
//! A transcription of what the runtime used to build at mount, and no smarter:
//! a resolver that answered a lookup the runtime would have missed would be
//! resolving to a layer the animation never saw. A second record answering to
//! the same key poisons the entry rather than overwriting it: the runtime's map
//! kept the last writer, and picking one here would be a coin toss that
//! renders.

use vstd::prelude::*;
use crate::backend::layers::Table;
use crate::expr::pass::{Consensus, step, consensus, lemma_consensus_unanimous};
use crate::text::{str_eq, string_views};

verus! {

/// The keys one layer record answers to: its composition index, and the slot
/// of its name in the document's name table, if it has one.
#[derive(Clone, Copy, PartialEq, Eq, Structural, Debug)]
pub struct RecordKeys {
    pub ind: u32,
    pub name: Option<u32>,
}

/// One record table as the index reads it: each record's keys, and the
/// composition each record sits in. A record past the end of `scopes` sits in
/// the root composition, `0`.
pub struct Records {
    pub keys: Vec<RecordKeys>,
    pub scopes: Vec<u32>,
}

/// The composition record `q` sits in.
pub open spec fn scope_at(scopes: Seq<u32>, q: int) -> u32 {
    if 0 <= q < scopes.len() {
        scopes[q]
    } else {
        0
    }
}

/// Whether record `q` answers to composition index `ind` in composition
/// `scope`.
pub open spec fn answers_ind(keys: Seq<RecordKeys>, scopes: Seq<u32>, q: int, scope: u32, ind: u32) -> bool {
    scope_at(scopes, q) == scope && keys[q].ind == ind
}

/// Whether record `q` answers to `name` in composition `scope`: its name slot
/// is inside the name table and holds that name.
pub open spec fn answers_name(
    keys: Seq<RecordKeys>,
    scopes: Seq<u32>,
    names: Seq<Seq<char>>,
    q: int,
    scope: u32,
    name: Seq<char>,
) -> bool {
    &&& scope_at(scopes, q) == scope
    &&& keys[q].name matches Some(n)
    &&& n < names.len()
    &&& names[n as int] == name
}

/// The first `n` records that `hit` picks out, in table order, each as the
/// answer it gives: its own position.
pub open spec fn hits(n: nat, hit: spec_fn(int) -> bool) -> Seq<Option<u32>>
    decreases n,
{
    if n == 0 {
        seq![]
    } else {
        let q = n - 1;
        let prev = hits(q as nat, hit);
        if hit(q) {
            prev.push(Some(q as u32))
        } else {
            prev
        }
    }
}

/// The records answering to a composition index.
pub open spec fn ind_hit(keys: Seq<RecordKeys>, scopes: Seq<u32>, scope: u32, ind: u32) -> spec_fn(int) -> bool {
    |q: int| answers_ind(keys, scopes, q, scope, ind)
}

/// The records answering to a name.
pub open spec fn name_hit(
    keys: Seq<RecordKeys>,
    scopes: Seq<u32>,
    names: Seq<Seq<char>>,
    scope: u32,
    name: Seq<char>,
) -> spec_fn(int) -> bool {
    |q: int| answers_name(keys, scopes, names, q, scope, name)
}

/// Every answer a composition index gets from a table, in table order.
pub open spec fn ind_answers(keys: Seq<RecordKeys>, scopes: Seq<u32>, scope: u32, ind: u32) -> Seq<Option<u32>> {
    hits(keys.len(), ind_hit(keys, scopes, scope, ind))
}

/// Every answer a name gets from a table, in table order.
pub open spec fn name_answers(
    keys: Seq<RecordKeys>,
    scopes: Seq<u32>,
    names: Seq<Seq<char>>,
    scope: u32,
    name: Seq<char>,
) -> Seq<Option<u32>> {
    hits(keys.len(), name_hit(keys, scopes, names, scope, name))
}

/// Carry what was recorded for a key on through more answers, one at a time.
pub open spec fn run<T>(c: Consensus<T>, rs: Seq<Option<T>>) -> Consensus<T>
    decreases rs.len(),
{
    if rs.len() == 0 {
        c
    } else {
        step(run(c, rs.drop_last()), rs.last())
    }
}

/// What a lookup answers for a key: the one record every answer named, or
/// nothing.
pub open spec fn verdict(c: Consensus<u32>) -> Option<u32> {
    match c {
        Consensus::Agreed(v) => Some(v),
        _ => None,
    }
}

/// A stored slot as what was recorded for its key.
pub open spec fn recorded(slot: Option<u32>) -> Consensus<u32> {
    match slot {
        Some(v) => Consensus::Agreed(v),
        None => Consensus::Split,
    }
}

/// The records of table `t`, where it exists.
pub open spec fn table_records(doc: &Records, assets: Seq<Records>, t: Table) -> Option<Records> {
    match t {
        Table::Doc => Some(*doc),
        Table::Asset(k) => if k < assets.len() {
            Some(assets[k as int])
        } else {
            None
        },
    }
}

/// What every record of the scene says of a composition-index key.
pub open spec fn scene_ind(doc: &Records, assets: Seq<Records>, t: Table, scope: u32, ind: u32) -> Consensus<u32> {
    match table_records(doc, assets, t) {
        Some(r) => consensus(ind_answers(r.keys@, r.scopes@, scope, ind)),
        None => Consensus::Unseen,
    }
}

/// What every record of the scene says of a name key.
pub open spec fn scene_name(
    doc: &Records,
    assets: Seq<Records>,
    names: Seq<Seq<char>>,
    t: Table,
    scope: u32,
    name: Seq<char>,
) -> Consensus<u32> {
    match table_records(doc, assets, t) {
        Some(r) => consensus(name_answers(r.keys@, r.scopes@, names, scope, name)),
        None => Consensus::Unseen,
    }
}

// ---------------------------------------------------------------------------
// Stored entries
// ---------------------------------------------------------------------------

type IndEntry = (Table, u32, u32, Option<u32>);

type NameEntry = (Table, u32, String, Option<u32>);

pub open spec fn ind_key(e: IndEntry, t: Table, s: u32, i: u32) -> bool {
    e.0 == t && e.1 == s && e.2 == i
}

pub open spec fn name_key(e: NameEntry, t: Table, s: u32, name: Seq<char>) -> bool {
    e.0 == t && e.1 == s && e.2@ == name
}

/// No two entries share a key.
pub open spec fn ind_unique(es: Seq<IndEntry>) -> bool {
    forall|a: int, b: int|
        0 <= a < b < es.len() ==> !ind_key(#[trigger] es[a], es[b].0, es[b].1, #[trigger] es[b].2)
}

/// No two entries share a key.
pub open spec fn name_unique(es: Seq<NameEntry>) -> bool {
    forall|a: int, b: int|
        0 <= a < b < es.len() ==> !name_key(#[trigger] es[a], es[b].0, es[b].1, #[trigger] es[b].2@)
}

/// What the entries hold for a key.
pub open spec fn ind_slot(es: Seq<IndEntry>, t: Table, s: u32, i: u32) -> Consensus<u32> {
    if exists|j: int| 0 <= j < es.len() && ind_key(#[trigger] es[j], t, s, i) {
        recorded(es[choose|j: int| 0 <= j < es.len() && ind_key(#[trigger] es[j], t, s, i)].3)
    } else {
        Consensus::Unseen
    }
}

/// What the entries hold for a key.
pub open spec fn name_slot(es: Seq<NameEntry>, t: Table, s: u32, name: Seq<char>) -> Consensus<u32> {
    if exists|j: int| 0 <= j < es.len() && name_key(#[trigger] es[j], t, s, name) {
        recorded(es[choose|j: int| 0 <= j < es.len() && name_key(#[trigger] es[j], t, s, name)].3)
    } else {
        Consensus::Unseen
    }
}

proof fn lemma_ind_slot_at(es: Seq<IndEntry>, j: int, t: Table, s: u32, i: u32)
    requires
        ind_unique(es),
        0 <= j < es.len(),
        ind_key(es[j], t, s, i),
    ensures
        ind_slot(es, t, s, i) == recorded(es[j].3),
{
    let c = choose|x: int| 0 <= x < es.len() && ind_key(#[trigger] es[x], t, s, i);
    assert(0 <= c < es.len() && ind_key(es[c], t, s, i));
    if c < j {
        assert(!ind_key(es[c], es[j].0, es[j].1, es[j].2));
    } else if j < c {
        assert(!ind_key(es[j], es[c].0, es[c].1, es[c].2));
    }
}

proof fn lemma_name_slot_at(es: Seq<NameEntry>, j: int, t: Table, s: u32, name: Seq<char>)
    requires
        name_unique(es),
        0 <= j < es.len(),
        name_key(es[j], t, s, name),
    ensures
        name_slot(es, t, s, name) == recorded(es[j].3),
{
    let c = choose|x: int| 0 <= x < es.len() && name_key(#[trigger] es[x], t, s, name);
    assert(0 <= c < es.len() && name_key(es[c], t, s, name));
    if c < j {
        assert(!name_key(es[c], es[j].0, es[j].1, es[j].2@));
    } else if j < c {
        assert(!name_key(es[j], es[c].0, es[c].1, es[c].2@));
    }
}

/// Record one more answer for a composition-index key.
fn bump_ind(es: &mut Vec<IndEntry>, t: Table, s: u32, i: u32, v: u32)
    requires
        ind_unique(old(es)@),
    ensures
        ind_unique(final(es)@),
        forall|t2: Table, s2: u32, i2: u32|
            #[trigger] ind_slot(final(es)@, t2, s2, i2) == if t2 == t && s2 == s && i2 == i {
                step(ind_slot(old(es)@, t2, s2, i2), Some(v))
            } else {
                ind_slot(old(es)@, t2, s2, i2)
            },
{
    let ghost before = es@;
    let mut j: usize = 0;
    while j < es.len()
        invariant
            es@ == before,
            before == old(es)@,
            ind_unique(before),
            j <= before.len(),
            forall|q: int| 0 <= q < j ==> !ind_key(#[trigger] before[q], t, s, i),
        decreases before.len() - j,
    {
        let e = es[j];
        if e.0 == t && e.1 == s && e.2 == i {
            if e.3 != Some(v) {
                es.set(j, (t, s, i, None));
            }
            proof {
                let after = es@;
                assert forall|a: int, b: int| 0 <= a < b < after.len() implies !ind_key(
                    #[trigger] after[a],
                    after[b].0,
                    after[b].1,
                    #[trigger] after[b].2,
                ) by {
                    assert(!ind_key(before[a], before[b].0, before[b].1, before[b].2));
                }
                lemma_ind_slot_at(before, j as int, t, s, i);
                lemma_ind_slot_at(after, j as int, t, s, i);
                assert(ind_slot(after, t, s, i) == step(ind_slot(before, t, s, i), Some(v)));
                assert forall|t2: Table, s2: u32, i2: u32|
                    !(t2 == t && s2 == s && i2 == i) implies #[trigger] ind_slot(after, t2, s2, i2)
                    == ind_slot(before, t2, s2, i2) by {
                    if exists|x: int| 0 <= x < before.len() && ind_key(#[trigger] before[x], t2, s2, i2) {
                        let x = choose|x: int| 0 <= x < before.len() && ind_key(#[trigger] before[x], t2, s2, i2);
                        lemma_ind_slot_at(before, x, t2, s2, i2);
                        lemma_ind_slot_at(after, x, t2, s2, i2);
                    } else {
                        assert forall|x: int| 0 <= x < after.len() implies !ind_key(
                            #[trigger] after[x],
                            t2,
                            s2,
                            i2,
                        ) by {
                            assert(!ind_key(before[x], t2, s2, i2));
                        }
                    }
                }
            }
            return;
        }
        j += 1;
    }
    es.push((t, s, i, Some(v)));
    proof {
        let after = es@;
        assert forall|a: int, b: int| 0 <= a < b < after.len() implies !ind_key(
            #[trigger] after[a],
            after[b].0,
            after[b].1,
            #[trigger] after[b].2,
        ) by {
            if b < before.len() {
                assert(!ind_key(before[a], before[b].0, before[b].1, before[b].2));
            } else {
                assert(!ind_key(before[a], t, s, i));
            }
        }
        lemma_ind_slot_at(after, before.len() as int, t, s, i);
        assert(!exists|x: int| 0 <= x < before.len() && ind_key(#[trigger] before[x], t, s, i));
        assert forall|t2: Table, s2: u32, i2: u32|
            !(t2 == t && s2 == s && i2 == i) implies #[trigger] ind_slot(after, t2, s2, i2) == ind_slot(
            before,
            t2,
            s2,
            i2,
        ) by {
            if exists|x: int| 0 <= x < before.len() && ind_key(#[trigger] before[x], t2, s2, i2) {
                let x = choose|x: int| 0 <= x < before.len() && ind_key(#[trigger] before[x], t2, s2, i2);
                lemma_ind_slot_at(before, x, t2, s2, i2);
                lemma_ind_slot_at(after, x, t2, s2, i2);
            } else {
                assert forall|x: int| 0 <= x < after.len() implies !ind_key(#[trigger] after[x], t2, s2, i2) by {
                    if x < before.len() {
                        assert(!ind_key(before[x], t2, s2, i2));
                    }
                }
            }
        }
    }
}

/// Record one more answer for a name key.
fn bump_name(es: &mut Vec<NameEntry>, t: Table, s: u32, name: &String, v: u32)
    requires
        name_unique(old(es)@),
    ensures
        name_unique(final(es)@),
        forall|t2: Table, s2: u32, n2: Seq<char>|
            #[trigger] name_slot(final(es)@, t2, s2, n2) == if t2 == t && s2 == s && n2 == name@ {
                step(name_slot(old(es)@, t2, s2, n2), Some(v))
            } else {
                name_slot(old(es)@, t2, s2, n2)
            },
{
    let ghost before = es@;
    let mut j: usize = 0;
    while j < es.len()
        invariant
            es@ == before,
            before == old(es)@,
            name_unique(before),
            j <= before.len(),
            forall|q: int| 0 <= q < j ==> !name_key(#[trigger] before[q], t, s, name@),
        decreases before.len() - j,
    {
        if es[j].0 == t && es[j].1 == s && str_eq(es[j].2.as_str(), name.as_str()) {
            if es[j].3 != Some(v) {
                es.set(j, (t, s, name.clone(), None));
            }
            proof {
                let after = es@;
                assert forall|a: int, b: int| 0 <= a < b < after.len() implies !name_key(
                    #[trigger] after[a],
                    after[b].0,
                    after[b].1,
                    #[trigger] after[b].2@,
                ) by {
                    assert(!name_key(before[a], before[b].0, before[b].1, before[b].2@));
                }
                lemma_name_slot_at(before, j as int, t, s, name@);
                lemma_name_slot_at(after, j as int, t, s, name@);
                assert(name_slot(after, t, s, name@) == step(name_slot(before, t, s, name@), Some(v)));
                assert forall|t2: Table, s2: u32, n2: Seq<char>|
                    !(t2 == t && s2 == s && n2 == name@) implies #[trigger] name_slot(after, t2, s2, n2)
                    == name_slot(before, t2, s2, n2) by {
                    if exists|x: int| 0 <= x < before.len() && name_key(#[trigger] before[x], t2, s2, n2) {
                        let x = choose|x: int| 0 <= x < before.len() && name_key(#[trigger] before[x], t2, s2, n2);
                        lemma_name_slot_at(before, x, t2, s2, n2);
                        lemma_name_slot_at(after, x, t2, s2, n2);
                    } else {
                        assert forall|x: int| 0 <= x < after.len() implies !name_key(
                            #[trigger] after[x],
                            t2,
                            s2,
                            n2,
                        ) by {
                            assert(!name_key(before[x], t2, s2, n2));
                        }
                    }
                }
            }
            return;
        }
        j += 1;
    }
    es.push((t, s, name.clone(), Some(v)));
    proof {
        let after = es@;
        assert forall|a: int, b: int| 0 <= a < b < after.len() implies !name_key(
            #[trigger] after[a],
            after[b].0,
            after[b].1,
            #[trigger] after[b].2@,
        ) by {
            if b < before.len() {
                assert(!name_key(before[a], before[b].0, before[b].1, before[b].2@));
            } else {
                assert(!name_key(before[a], t, s, name@));
            }
        }
        lemma_name_slot_at(after, before.len() as int, t, s, name@);
        assert(!exists|x: int| 0 <= x < before.len() && name_key(#[trigger] before[x], t, s, name@));
        assert forall|t2: Table, s2: u32, n2: Seq<char>|
            !(t2 == t && s2 == s && n2 == name@) implies #[trigger] name_slot(after, t2, s2, n2)
            == name_slot(before, t2, s2, n2) by {
            if exists|x: int| 0 <= x < before.len() && name_key(#[trigger] before[x], t2, s2, n2) {
                let x = choose|x: int| 0 <= x < before.len() && name_key(#[trigger] before[x], t2, s2, n2);
                lemma_name_slot_at(before, x, t2, s2, n2);
                lemma_name_slot_at(after, x, t2, s2, n2);
            } else {
                assert forall|x: int| 0 <= x < after.len() implies !name_key(#[trigger] after[x], t2, s2, n2) by {
                    if x < before.len() {
                        assert(!name_key(before[x], t2, s2, n2));
                    }
                }
            }
        }
    }
}

// ---------------------------------------------------------------------------
// What the answers come to
// ---------------------------------------------------------------------------

proof fn lemma_run_unseen<T>(rs: Seq<Option<T>>)
    ensures
        run(Consensus::Unseen, rs) == consensus(rs),
    decreases rs.len(),
{
    if rs.len() > 0 {
        lemma_run_unseen(rs.drop_last());
    }
}

proof fn lemma_hits_members(n: nat, hit: spec_fn(int) -> bool)
    requires
        n <= u32::MAX,
    ensures
        forall|x: int|
            0 <= x < hits(n, hit).len() ==> (#[trigger] hits(n, hit)[x] matches Some(q) && q < n && hit(q as int)),
        forall|q: int| 0 <= q < n && hit(q) ==> #[trigger] hits(n, hit).contains(Some(q as u32)),
    decreases n,
{
    if n > 0 {
        let m = (n - 1) as nat;
        lemma_hits_members(m, hit);
        let prev = hits(m, hit);
        if hit(m as int) {
            let cur = prev.push(Some(m as u32));
            assert(hits(n, hit) == cur);
            assert forall|x: int| 0 <= x < cur.len() implies (#[trigger] cur[x] matches Some(q) && q < n && hit(
                q as int,
            )) by {
                if x < prev.len() {
                    assert(cur[x] == prev[x]);
                }
            }
            assert forall|q: int| 0 <= q < n && hit(q) implies #[trigger] cur.contains(Some(q as u32)) by {
                if q < m {
                    assert(prev.contains(Some(q as u32)));
                    let x = choose|x: int| 0 <= x < prev.len() && prev[x] == Some(q as u32);
                    assert(cur[x] == prev[x]);
                } else {
                    assert(cur[prev.len() as int] == Some(q as u32));
                }
            }
        } else {
            assert(hits(n, hit) == prev);
        }
    }
}

proof fn lemma_hits_verdict(n: nat, hit: spec_fn(int) -> bool, v: u32)
    requires
        n <= u32::MAX,
    ensures
        verdict(consensus(hits(n, hit))) == Some(v) <==> (v < n && hit(v as int) && forall|q: int|
            0 <= q < n && #[trigger] hit(q) ==> q == v),
{
    let rs = hits(n, hit);
    lemma_hits_members(n, hit);
    lemma_consensus_unanimous(rs, v);
    if verdict(consensus(rs)) == Some(v) {
        assert(consensus(rs) == Consensus::Agreed(v));
        assert(rs[0] == Some(v));
        assert forall|q: int| 0 <= q < n && #[trigger] hit(q) implies q == v by {
            assert(rs.contains(Some(q as u32)));
            let x = choose|x: int| 0 <= x < rs.len() && rs[x] == Some(q as u32);
            assert(rs[x] == Some(v));
        }
    }
    if v < n && hit(v as int) && forall|q: int| 0 <= q < n && #[trigger] hit(q) ==> q == v {
        assert(hits(n, hit).contains(Some((v as int) as u32)));
        assert forall|x: int| 0 <= x < rs.len() implies #[trigger] rs[x] == Some(v) by {
            let q = rs[x]->0;
            assert(hit(q as int));
        }
        assert(consensus(rs) == Consensus::Agreed(v));
    }
}

/// A composition index resolves to a record exactly when that record is the
/// only one of its table answering to it in that composition: an index two
/// records share resolves to neither, and an index nobody answers to resolves
/// to nothing.
pub proof fn lemma_an_index_reaches_only_its_one_record(
    keys: Seq<RecordKeys>,
    scopes: Seq<u32>,
    scope: u32,
    ind: u32,
    v: u32,
)
    requires
        keys.len() <= u32::MAX,
    ensures
        verdict(consensus(ind_answers(keys, scopes, scope, ind))) == Some(v) <==> (v < keys.len()
            && answers_ind(keys, scopes, v as int, scope, ind) && forall|q: int|
            0 <= q < keys.len() && #[trigger] answers_ind(keys, scopes, q, scope, ind) ==> q == v),
{
    let hit = ind_hit(keys, scopes, scope, ind);
    lemma_hits_verdict(keys.len(), hit, v);
    assert(hit(v as int) == answers_ind(keys, scopes, v as int, scope, ind));
    let n = keys.len();
    if forall|q: int| 0 <= q < n && #[trigger] hit(q) ==> q == v {
        assert forall|q: int| 0 <= q < n && #[trigger] answers_ind(keys, scopes, q, scope, ind) implies q == v by {
            assert(hit(q));
        }
    }
    if forall|q: int| 0 <= q < n && #[trigger] answers_ind(keys, scopes, q, scope, ind) ==> q == v {
        assert forall|q: int| 0 <= q < n && #[trigger] hit(q) implies q == v by {
            assert(answers_ind(keys, scopes, q, scope, ind));
        }
    }
}

/// A name resolves to a record exactly when that record is the only one of
/// its table answering to it in that composition: a name two records share
/// resolves to neither.
pub proof fn lemma_a_name_reaches_only_its_one_record(
    keys: Seq<RecordKeys>,
    scopes: Seq<u32>,
    names: Seq<Seq<char>>,
    scope: u32,
    name: Seq<char>,
    v: u32,
)
    requires
        keys.len() <= u32::MAX,
    ensures
        verdict(consensus(name_answers(keys, scopes, names, scope, name))) == Some(v) <==> (v < keys.len()
            && answers_name(keys, scopes, names, v as int, scope, name) && forall|q: int|
            0 <= q < keys.len() && #[trigger] answers_name(keys, scopes, names, q, scope, name) ==> q == v),
{
    let hit = name_hit(keys, scopes, names, scope, name);
    lemma_hits_verdict(keys.len(), hit, v);
    assert(hit(v as int) == answers_name(keys, scopes, names, v as int, scope, name));
    let n = keys.len();
    if forall|q: int| 0 <= q < n && #[trigger] hit(q) ==> q == v {
        assert forall|q: int| 0 <= q < n && #[trigger] answers_name(keys, scopes, names, q, scope, name) implies q
            == v by {
            assert(hit(q));
        }
    }
    if forall|q: int| 0 <= q < n && #[trigger] answers_name(keys, scopes, names, q, scope, name) ==> q == v {
        assert forall|q: int| 0 <= q < n && #[trigger] hit(q) implies q == v by {
            assert(answers_name(keys, scopes, names, q, scope, name));
        }
    }
}

// ---------------------------------------------------------------------------
// The index
// ---------------------------------------------------------------------------

/// `(table, composition, name)` and `(table, composition, index)` to a
/// record.
pub struct Index {
    by_name: Vec<NameEntry>,
    by_ind: Vec<IndEntry>,
}

impl Index {
    /// No two entries of either list share a key.
    pub closed spec fn wf(&self) -> bool {
        ind_unique(self.by_ind@) && name_unique(self.by_name@)
    }

    /// What is recorded for a composition-index key.
    pub closed spec fn ind_state(&self, t: Table, s: u32, i: u32) -> Consensus<u32> {
        ind_slot(self.by_ind@, t, s, i)
    }

    /// What is recorded for a name key.
    pub closed spec fn name_state(&self, t: Table, s: u32, name: Seq<char>) -> Consensus<u32> {
        name_slot(self.by_name@, t, s, name)
    }

    fn new() -> (ix: Index)
        ensures
            ix.wf(),
            forall|t: Table, s: u32, i: u32| #[trigger] ix.ind_state(t, s, i) == Consensus::<u32>::Unseen,
            forall|t: Table, s: u32, n: Seq<char>| #[trigger] ix.name_state(t, s, n) == Consensus::<u32>::Unseen,
    {
        Index { by_name: Vec::new(), by_ind: Vec::new() }
    }

    /// Record every key of one table's records.
    fn add(&mut self, table: Table, recs: &Records, names: &Vec<String>)
        requires
            old(self).wf(),
            recs.keys.len() <= u32::MAX,
        ensures
            final(self).wf(),
            forall|t: Table, s: u32, i: u32| #[trigger]
                final(self).ind_state(t, s, i) == if t == table {
                    run(old(self).ind_state(t, s, i), ind_answers(recs.keys@, recs.scopes@, s, i))
                } else {
                    old(self).ind_state(t, s, i)
                },
            forall|t: Table, s: u32, n: Seq<char>| #[trigger]
                final(self).name_state(t, s, n) == if t == table {
                    run(
                        old(self).name_state(t, s, n),
                        name_answers(recs.keys@, recs.scopes@, string_views(names@), s, n),
                    )
                } else {
                    old(self).name_state(t, s, n)
                },
    {
        let ghost nv = string_views(names@);
        let mut q: usize = 0;
        while q < recs.keys.len()
            invariant
                self.wf(),
                q <= recs.keys@.len(),
                recs.keys@.len() <= u32::MAX,
                nv == string_views(names@),
                forall|t: Table, s: u32, i: u32| #[trigger]
                    self.ind_state(t, s, i) == if t == table {
                        run(old(self).ind_state(t, s, i), hits(q as nat, ind_hit(recs.keys@, recs.scopes@, s, i)))
                    } else {
                        old(self).ind_state(t, s, i)
                    },
                forall|t: Table, s: u32, n: Seq<char>| #[trigger]
                    self.name_state(t, s, n) == if t == table {
                        run(old(self).name_state(t, s, n), hits(q as nat, name_hit(recs.keys@, recs.scopes@, nv, s, n)))
                    } else {
                        old(self).name_state(t, s, n)
                    },
            decreases recs.keys@.len() - q,
        {
            let scope: u32 = if q < recs.scopes.len() {
                recs.scopes[q]
            } else {
                0
            };
            let r = recs.keys[q];
            let ghost pre: Index = *self;
            let ghost pre_ind = self.by_ind@;
            let ghost pre_name = self.by_name@;
            bump_ind(&mut self.by_ind, table, scope, r.ind, q as u32);
            let ghost named: Option<Seq<char>> = None;
            if let Some(n) = r.name {
                let k = n as usize;
                if k < names.len() {
                    bump_name(&mut self.by_name, table, scope, &names[k], q as u32);
                    proof {
                        named = Some(names@[k as int]@);
                    }
                }
            }
            proof {
                assert(scope == scope_at(recs.scopes@, q as int));
                assert(named is None ==> self.by_name@ == pre_name);
                assert(named matches Some(x) ==> r.name matches Some(m) && m < names@.len() && nv[m as int] == x);
                assert forall|t: Table, s: u32, i: u32| #[trigger]
                    self.ind_state(t, s, i) == if t == table {
                        run(old(self).ind_state(t, s, i), hits((q + 1) as nat, ind_hit(recs.keys@, recs.scopes@, s, i)))
                    } else {
                        old(self).ind_state(t, s, i)
                    } by {
                    let h = ind_hit(recs.keys@, recs.scopes@, s, i);
                    let a = hits(q as nat, h);
                    assert(pre.ind_state(t, s, i) == ind_slot(pre_ind, t, s, i));
                    if t == table {
                        if s == scope && i == r.ind {
                            assert(h(q as int));
                            assert(hits((q + 1) as nat, h) == a.push(Some(q as u32)));
                            assert(a.push(Some(q as u32)).drop_last() =~= a);
                        } else {
                            assert(!h(q as int));
                            assert(hits((q + 1) as nat, h) == a);
                        }
                    }
                }
                assert forall|t: Table, s: u32, n: Seq<char>| #[trigger]
                    self.name_state(t, s, n) == if t == table {
                        run(old(self).name_state(t, s, n), hits((q + 1) as nat, name_hit(recs.keys@, recs.scopes@, nv, s, n)))
                    } else {
                        old(self).name_state(t, s, n)
                    } by {
                    let h = name_hit(recs.keys@, recs.scopes@, nv, s, n);
                    let a = hits(q as nat, h);
                    assert(pre.name_state(t, s, n) == name_slot(pre_name, t, s, n));
                    if t == table {
                        if named == Some(n) && s == scope {
                            assert(h(q as int));
                            assert(hits((q + 1) as nat, h) == a.push(Some(q as u32)));
                            assert(a.push(Some(q as u32)).drop_last() =~= a);
                        } else {
                            assert(!h(q as int));
                            assert(hits((q + 1) as nat, h) == a);
                        }
                    }
                }
            }
            q += 1;
        }
    }

    /// Index every record of the document's table and of each precomp's.
    ///
    /// `assets[k]` is the table addressed as `Table::Asset(k)`; names are
    /// slots in `names`.
    pub fn build(doc: &Records, assets: &Vec<Records>, names: &Vec<String>) -> (ix: Index)
        requires
            doc.keys.len() <= u32::MAX,
            assets.len() <= u32::MAX,
            forall|k: int| 0 <= k < assets.len() ==> (#[trigger] assets[k]).keys.len() <= u32::MAX,
        ensures
            ix.wf(),
            forall|t: Table, s: u32, i: u32| #[trigger] ix.ind_state(t, s, i) == scene_ind(doc, assets@, t, s, i),
            forall|t: Table, s: u32, n: Seq<char>| #[trigger]
                ix.name_state(t, s, n) == scene_name(doc, assets@, string_views(names@), t, s, n),
    {
        let ghost nv = string_views(names@);
        let mut ix = Index::new();
        ix.add(Table::Doc, doc, names);
        proof {
            assert forall|s: u32, i: u32| #[trigger] ix.ind_state(Table::Doc, s, i) == consensus(
                ind_answers(doc.keys@, doc.scopes@, s, i),
            ) by {
                lemma_run_unseen(ind_answers(doc.keys@, doc.scopes@, s, i));
            }
            assert forall|s: u32, n: Seq<char>| #[trigger] ix.name_state(Table::Doc, s, n) == consensus(
                name_answers(doc.keys@, doc.scopes@, nv, s, n),
            ) by {
                lemma_run_unseen(name_answers(doc.keys@, doc.scopes@, nv, s, n));
            }
        }
        let mut k: usize = 0;
        while k < assets.len()
            invariant
                ix.wf(),
                k <= assets@.len(),
                assets@.len() <= u32::MAX,
                forall|a: int| 0 <= a < assets@.len() ==> (#[trigger] assets@[a]).keys.len() <= u32::MAX,
                nv == string_views(names@),
                forall|t: Table, s: u32, i: u32| #[trigger]
                    ix.ind_state(t, s, i) == match t {
                        Table::Doc => consensus(ind_answers(doc.keys@, doc.scopes@, s, i)),
                        Table::Asset(a) => if a < k {
                            consensus(ind_answers(assets@[a as int].keys@, assets@[a as int].scopes@, s, i))
                        } else {
                            Consensus::Unseen
                        },
                    },
                forall|t: Table, s: u32, n: Seq<char>| #[trigger]
                    ix.name_state(t, s, n) == match t {
                        Table::Doc => consensus(name_answers(doc.keys@, doc.scopes@, nv, s, n)),
                        Table::Asset(a) => if a < k {
                            consensus(name_answers(assets@[a as int].keys@, assets@[a as int].scopes@, nv, s, n))
                        } else {
                            Consensus::Unseen
                        },
                    },
            decreases assets@.len() - k,
        {
            let ghost pre = ix;
            ix.add(Table::Asset(k as u32), &assets[k], names);
            proof {
                let rk = assets@[k as int];
                assert forall|s: u32, i: u32| #[trigger] ix.ind_state(Table::Asset(k as u32), s, i) == consensus(
                    ind_answers(rk.keys@, rk.scopes@, s, i),
                ) by {
                    assert(pre.ind_state(Table::Asset(k as u32), s, i) == Consensus::<u32>::Unseen);
                    lemma_run_unseen(ind_answers(rk.keys@, rk.scopes@, s, i));
                }
                assert forall|s: u32, n: Seq<char>| #[trigger] ix.name_state(Table::Asset(k as u32), s, n)
                    == consensus(name_answers(rk.keys@, rk.scopes@, nv, s, n)) by {
                    assert(pre.name_state(Table::Asset(k as u32), s, n) == Consensus::<u32>::Unseen);
                    lemma_run_unseen(name_answers(rk.keys@, rk.scopes@, nv, s, n));
                }
            }
            k += 1;
        }
        ix
    }

    /// The record a `thisComp.layer('name')` in `scope` resolves to.
    pub fn by_name(&self, table: Table, scope: u32, name: &str) -> (r: Option<u32>)
        requires
            self.wf(),
        ensures
            r == verdict(self.name_state(table, scope, name@)),
    {
        let mut j: usize = 0;
        while j < self.by_name.len()
            invariant
                self.wf(),
                j <= self.by_name@.len(),
                forall|q: int| 0 <= q < j ==> !name_key(#[trigger] self.by_name@[q], table, scope, name@),
            decreases self.by_name@.len() - j,
        {
            if self.by_name[j].0 == table && self.by_name[j].1 == scope && str_eq(self.by_name[j].2.as_str(), name) {
                proof {
                    lemma_name_slot_at(self.by_name@, j as int, table, scope, name@);
                }
                return self.by_name[j].3;
            }
            j += 1;
        }
        None
    }

    /// The record a composition index resolves to: what a layer-control
    /// effect parameter holds, and what `thisComp.layer(3)` would mean.
    pub fn by_index(&self, table: Table, scope: u32, ind: u32) -> (r: Option<u32>)
        requires
            self.wf(),
        ensures
            r == verdict(self.ind_state(table, scope, ind)),
    {
        let mut j: usize = 0;
        while j < self.by_ind.len()
            invariant
                self.wf(),
                j <= self.by_ind@.len(),
                forall|q: int| 0 <= q < j ==> !ind_key(#[trigger] self.by_ind@[q], table, scope, ind),
            decreases self.by_ind@.len() - j,
        {
            let e = self.by_ind[j];
            if e.0 == table && e.1 == scope && e.2 == ind {
                proof {
                    lemma_ind_slot_at(self.by_ind@, j as int, table, scope, ind);
                }
                return e.3;
            }
            j += 1;
        }
        None
    }
}

} // verus!
