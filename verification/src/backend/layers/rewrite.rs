//! Rewriting one body: every layer reference becomes a slot in the owning
//! record's table, and every access on a layer a free call.
//!
//! The walk reads the body's syntax ([`crate::expr::syntax`]) in three passes.
//! The first finds the integer arrays that index into `effect(…)` and so hold
//! layer controls. The second types the body's names — which hold a layer,
//! which an array of layers — to a fixed point, because a name declared empty
//! only becomes an array of layers once a later `push` fills it. The third
//! renders every expression that reaches a layer into the free-function
//! spelling, resolving each reference once per using property and writing it
//! only when they all agree ([`agree`]). Anything it cannot resolve exactly
//! refuses the whole body; a text scan of the result ([`spec_verify`]) has the
//! last word.

use vstd::prelude::*;
use crate::backend::layers::{agree, spec_agree, spec_emit, spec_verify, verify, Handle, Site, Surface, Table, Target, Plan, Sel};
use crate::backend::layers::index::{verdict, Index};
use crate::expr::syntax::{char_span, js_syntax, parse_js, span_of, test_text, text_at, Bytes, JsDecl, JsExpr, JsForInit, JsStmt, JsStmtKind};
use crate::text::{chars_of, str_eq, str_views, strictly_sorted};

verus! {

// ---------------------------------------------------------------------------
// What the rewrite reads off the scene
// ---------------------------------------------------------------------------

/// One parameter of an effect on a layer record: its display and match
/// names, its type (10 is a layer control), and its static value as a whole
/// number when it has one.
pub struct LayerParam {
    pub name: Option<String>,
    pub match_name: Option<String>,
    pub ty: u32,
    pub value: Option<u32>,
}

/// One effect on a layer record.
pub struct LayerEffect {
    pub name: Option<String>,
    pub match_name: Option<String>,
    pub params: Vec<LayerParam>,
}

/// What the rewrite reads of one layer record: its parent's record, and its
/// effects.
pub struct LayerFx {
    pub parent: Option<u32>,
    pub effects: Vec<LayerEffect>,
}

/// The records of the document's table and of each precomp's, as the
/// rewrite reads them; `assets[k]` is `Table::Asset(k)`.
pub struct SceneLayers {
    pub doc: Vec<LayerFx>,
    pub assets: Vec<Vec<LayerFx>>,
}

/// The records one table holds; a table the scene does not have holds none.
pub open spec fn recs_of(l: &SceneLayers, t: Table) -> Seq<LayerFx> {
    match t {
        Table::Doc => l.doc@,
        Table::Asset(i) => if (i as int) < l.assets@.len() {
            l.assets@[i as int]@
        } else {
            seq![]
        },
    }
}

fn records<'a>(l: &'a SceneLayers, t: Table) -> (r: Option<&'a Vec<LayerFx>>)
    ensures
        match r {
            Some(v) => v@ == recs_of(l, t),
            None => recs_of(l, t).len() == 0,
        },
{
    match t {
        Table::Doc => Some(&l.doc),
        Table::Asset(i) => if (i as usize) < l.assets.len() {
            Some(&l.assets[i as usize])
        } else {
            None
        },
    }
}

// ---------------------------------------------------------------------------
// Name-keyed lists
// ---------------------------------------------------------------------------

/// Where the last entry keyed `n` sits: a list where a later entry overrides
/// an earlier one is a map.
pub open spec fn last_at<V>(m: Seq<(Seq<char>, V)>, n: Seq<char>) -> Option<int>
    decreases m.len(),
{
    if m.len() == 0 {
        None
    } else if m.last().0 == n {
        Some(m.len() - 1)
    } else {
        last_at(m.drop_last(), n)
    }
}

/// What a name-keyed list holds for `n`.
pub open spec fn lookup<V>(m: Seq<(Seq<char>, V)>, n: Seq<char>) -> Option<V> {
    match last_at(m, n) {
        Some(i) => Some(m[i].1),
        None => None,
    }
}

proof fn lemma_last_at_bound<V>(m: Seq<(Seq<char>, V)>, n: Seq<char>)
    ensures
        last_at(m, n) matches Some(i) ==> 0 <= i < m.len() && m[i].0 == n,
    decreases m.len(),
{
    if m.len() > 0 && m.last().0 != n {
        lemma_last_at_bound(m.drop_last(), n);
    }
}

/// The keys of an exec name-keyed list, as text.
pub open spec fn keyed<V>(m: Seq<(String, V)>) -> Seq<(Seq<char>, V)> {
    m.map_values(|x: (String, V)| (x.0@, x.1))
}

fn last_pos<V>(m: &Vec<(String, V)>, n: &str) -> (r: Option<usize>)
    ensures
        match r {
            Some(i) => last_at(keyed(m@), n@) == Some(i as int),
            None => last_at(keyed(m@), n@) is None,
        },
{
    let ghost k = keyed(m@);
    let mut i: usize = m.len();
    assert(k.take(i as int) =~= k);
    while i > 0
        invariant
            k == keyed(m@),
            i <= m@.len(),
            last_at(k, n@) == last_at(k.take(i as int), n@),
        decreases i,
    {
        assert(k.take(i as int).drop_last() =~= k.take(i - 1));
        if str_eq(m[i - 1].0.as_str(), n) {
            return Some(i - 1);
        }
        i -= 1;
    }
    None
}

fn lookup_copy<V: Copy>(m: &Vec<(String, V)>, n: &str) -> (r: Option<V>)
    ensures
        r == lookup(keyed(m@), n@),
{
    proof {
        lemma_last_at_bound(keyed(m@), n@);
    }
    match last_pos(m, n) {
        Some(i) => Some(m[i].1),
        None => None,
    }
}

// ---------------------------------------------------------------------------
// Layer-control tables
// ---------------------------------------------------------------------------

/// The one argument of a call, when it is a whole-number literal.
pub open spec fn int_arg(args: Seq<JsExpr>) -> Option<u32> {
    if args.len() == 1 {
        match args[0] {
            JsExpr::Num { value: Some(v), .. } => Some(v),
            _ => None,
        }
    } else {
        None
    }
}

/// A bare `effect`: the owning layer's effects.
pub open spec fn bare_effect(e: JsExpr) -> bool {
    e matches JsExpr::Ident { name, .. } && name@ == "effect"@
}

/// `effect(t[i])(<int>)`: the array's name, the parameter slot, and where
/// `t[i]` stands.
pub open spec fn table_call(e: JsExpr) -> Option<(Seq<char>, u32, Bytes)> {
    match e {
        JsExpr::Call { callee, args, .. } => match int_arg(args@) {
            Some(p) => match *callee {
                JsExpr::Call { callee: ic, args: ia, .. } => if bare_effect(*ic) && ia@.len() == 1 {
                    match ia@[0] {
                        JsExpr::Index { object, at, .. } => match *object {
                            JsExpr::Ident { name, .. } => Some((name@, p, at)),
                            _ => None,
                        },
                        _ => None,
                    }
                } else {
                    None
                },
                _ => None,
            },
            None => None,
        },
        _ => None,
    }
}

/// The parameter slot each array is read at, by name; two different slots
/// off one array poison its entry.
pub type Uses = Seq<(Seq<char>, Option<u32>)>;

/// `u` with a read of `n` at slot `p`.
pub open spec fn note_use(u: Uses, n: Seq<char>, p: u32) -> Uses {
    match lookup(u, n) {
        Some(q) => if q == Some(p) {
            u
        } else {
            u.push((n, None))
        },
        None => u.push((n, Some(p))),
    }
}

/// The table reads under `e`, innermost first.
pub open spec fn uses_expr(e: JsExpr, u: Uses) -> Uses
    decreases e,
{
    let u1 = match e {
        JsExpr::Call { callee, args, .. } => uses_exprs(args@, uses_expr(*callee, u)),
        JsExpr::Member { object, .. } => uses_expr(*object, u),
        JsExpr::Index { object, index, .. } => uses_expr(*index, uses_expr(*object, u)),
        JsExpr::Paren { inner, .. } => uses_expr(*inner, u),
        JsExpr::Assign { value, .. } => uses_expr(*value, u),
        JsExpr::Op { parts, .. } => uses_exprs(parts@, u),
        JsExpr::Array { elems, .. } => uses_exprs(elems@, u),
        _ => u,
    };
    match table_call(e) {
        Some((n, p, _)) => note_use(u1, n, p),
        None => u1,
    }
}

/// The table reads under each of `xs`, first to last.
pub open spec fn uses_exprs(xs: Seq<JsExpr>, u: Uses) -> Uses
    decreases xs,
{
    if xs.len() == 0 {
        u
    } else {
        uses_expr(xs.last(), uses_exprs(xs.drop_last(), u))
    }
}

/// The table reads in an optional expression.
pub open spec fn uses_opt(e: Option<JsExpr>, u: Uses) -> Uses {
    match e {
        Some(x) => uses_expr(x, u),
        None => u,
    }
}

/// The table reads in the initializers of declarators.
pub open spec fn uses_inits(ds: Seq<JsDecl>, u: Uses) -> Uses
    decreases ds.len(),
{
    if ds.len() == 0 {
        u
    } else {
        uses_opt(ds.last().init, uses_inits(ds.drop_last(), u))
    }
}

/// The table reads in the expressions directly under a statement.
pub open spec fn uses_top(s: JsStmt, u: Uses) -> Uses {
    match s.kind {
        JsStmtKind::Expr(e) => uses_expr(e, u),
        JsStmtKind::Var(ds) => uses_inits(ds@, u),
        JsStmtKind::If { test, .. } => uses_expr(test, u),
        JsStmtKind::While { test, .. } => uses_expr(test, u),
        JsStmtKind::Return(r) => uses_opt(r, u),
        JsStmtKind::For { init, test, update, .. } => uses_opt(
            update,
            uses_opt(
                test,
                match init {
                    Some(JsForInit::Var(ds)) => uses_inits(ds@, u),
                    _ => u,
                },
            ),
        ),
        _ => u,
    }
}

/// The table reads in a statement and every statement under it.
pub open spec fn uses_stmt(s: JsStmt, u: Uses) -> Uses
    decreases s,
{
    let u1 = uses_top(s, u);
    match s.kind {
        JsStmtKind::Block(ss) => uses_stmts(ss@, u1),
        JsStmtKind::If { then, other, .. } => {
            let u2 = uses_stmt(*then, u1);
            match other {
                Some(o) => uses_stmt(*o, u2),
                None => u2,
            }
        },
        JsStmtKind::For { body, .. } => uses_stmt(*body, u1),
        JsStmtKind::While { body, .. } => uses_stmt(*body, u1),
        JsStmtKind::Try { block, handler, finalizer } => {
            let u2 = uses_stmts(block@, u1);
            let u3 = match handler {
                Some(h) => uses_stmts(h@, u2),
                None => u2,
            };
            match finalizer {
                Some(f) => uses_stmts(f@, u3),
                None => u3,
            }
        },
        _ => u1,
    }
}

/// The table reads in statements, first to last.
pub open spec fn uses_stmts(ss: Seq<JsStmt>, u: Uses) -> Uses
    decreases ss,
{
    if ss.len() == 0 {
        u
    } else {
        uses_stmt(ss.last(), uses_stmts(ss.drop_last(), u))
    }
}

/// An array literal of whole-number literals, and at least one.
pub open spec fn all_nums(xs: Seq<JsExpr>) -> Option<Seq<u32>> {
    if xs.len() > 0 && forall|i: int| 0 <= i < xs.len() ==> (#[trigger] xs[i]) matches JsExpr::Num { value: Some(_), .. } {
        Some(Seq::new(xs.len(), |i: int| xs[i]->Num_value->0))
    } else {
        None
    }
}

/// Integer arrays by name, with where each literal stands; a later
/// declaration of a name overrides an earlier one.
pub type Arrays = Seq<(Seq<char>, (Seq<u32>, Bytes))>;

/// The integer arrays top-level declarators bind.
pub open spec fn arrays_decls(ds: Seq<JsDecl>, a: Arrays) -> Arrays
    decreases ds.len(),
{
    if ds.len() == 0 {
        a
    } else {
        let a1 = arrays_decls(ds.drop_last(), a);
        match (ds.last().name, ds.last().init) {
            (Some(n), Some(JsExpr::Array { elems, at })) => match all_nums(elems@) {
                Some(ns) => a1.push((n@, (ns, at))),
                None => a1,
            },
            _ => a1,
        }
    }
}

/// The integer arrays the top-level statements declare.
pub open spec fn arrays_top(p: Seq<JsStmt>, a: Arrays) -> Arrays
    decreases p.len(),
{
    if p.len() == 0 {
        a
    } else {
        let a1 = arrays_top(p.drop_last(), a);
        match p.last().kind {
            JsStmtKind::Var(ds) => arrays_decls(ds@, a1),
            _ => a1,
        }
    }
}

/// A body's layer-control tables: which arrays are read where.
pub struct TabsV {
    pub used: Uses,
    pub arrays: Arrays,
}

/// The tables of a parsed body.
pub open spec fn tables_of(p: Seq<JsStmt>) -> TabsV {
    TabsV { used: uses_stmts(p, seq![]), arrays: arrays_top(p, seq![]) }
}

/// The table `n` names: an integer array read at one slot.
pub open spec fn table_of(tb: TabsV, n: Seq<char>) -> Option<(u32, Seq<u32>, Bytes)> {
    match (lookup(tb.used, n), lookup(tb.arrays, n)) {
        (Some(Some(p)), Some((ns, at))) => Some((p, ns, at)),
        _ => None,
    }
}

/// The exec form of a body's tables.
pub struct Tabs {
    pub used: Vec<(String, Option<u32>)>,
    pub arrays: Vec<(String, (Vec<u32>, Bytes))>,
}

/// The arrays of the exec form, as contracts see them.
pub open spec fn arrays_view(a: Seq<(String, (Vec<u32>, Bytes))>) -> Arrays {
    a.map_values(|x: (String, (Vec<u32>, Bytes))| (x.0@, (x.1.0@, x.1.1)))
}

impl Tabs {
    pub open spec fn view(&self) -> TabsV {
        TabsV { used: keyed(self.used@), arrays: arrays_view(self.arrays@) }
    }
}

fn int_arg_of(args: &Vec<JsExpr>) -> (r: Option<u32>)
    ensures
        r == int_arg(args@),
{
    if args.len() == 1 {
        match &args[0] {
            JsExpr::Num { value: Some(v), .. } => Some(*v),
            _ => None,
        }
    } else {
        None
    }
}

fn is_bare_effect(e: &JsExpr) -> (r: bool)
    ensures
        r == bare_effect(*e),
{
    match e {
        JsExpr::Ident { name, .. } => str_eq(name.as_str(), "effect"),
        _ => false,
    }
}

fn table_call_of(e: &JsExpr) -> (r: Option<(String, u32, Bytes)>)
    ensures
        match r {
            Some((n, p, at)) => table_call(*e) == Some((n@, p, at)),
            None => table_call(*e) is None,
        },
{
    match e {
        JsExpr::Call { callee, args, .. } => match int_arg_of(args) {
            Some(p) => match &**callee {
                JsExpr::Call { callee: ic, args: ia, .. } => {
                    if is_bare_effect(&**ic) && ia.len() == 1 {
                        match &ia[0] {
                            JsExpr::Index { object, at, .. } => match &**object {
                                JsExpr::Ident { name, .. } => Some((name.clone(), p, *at)),
                                _ => None,
                            },
                            _ => None,
                        }
                    } else {
                        None
                    }
                },
                _ => None,
            },
            None => None,
        },
        _ => None,
    }
}

fn note(u: &mut Vec<(String, Option<u32>)>, n: String, p: u32)
    ensures
        keyed(final(u)@) == note_use(keyed(old(u)@), n@, p),
{
    let ghost k = keyed(u@);
    match lookup_copy(u, n.as_str()) {
        Some(q) => {
            if q != Some(p) {
                u.push((n, None));
                assert(keyed(u@) =~= k.push((n@, None)));
            }
        },
        None => {
            u.push((n, Some(p)));
            assert(keyed(u@) =~= k.push((n@, Some(p))));
        },
    }
}

fn expr_uses(e: &JsExpr, u: &mut Vec<(String, Option<u32>)>)
    ensures
        keyed(final(u)@) == uses_expr(*e, keyed(old(u)@)),
    decreases e,
{
    match e {
        JsExpr::Call { callee, args, .. } => {
            expr_uses(&**callee, u);
            exprs_uses(args, u);
        },
        JsExpr::Member { object, .. } => expr_uses(&**object, u),
        JsExpr::Index { object, index, .. } => {
            expr_uses(&**object, u);
            expr_uses(&**index, u);
        },
        JsExpr::Paren { inner, .. } => expr_uses(&**inner, u),
        JsExpr::Assign { value, .. } => expr_uses(&**value, u),
        JsExpr::Op { parts, .. } => exprs_uses(parts, u),
        JsExpr::Array { elems, .. } => exprs_uses(elems, u),
        _ => {},
    }
    match table_call_of(e) {
        Some((n, p, _)) => note(u, n, p),
        None => {},
    }
}

fn exprs_uses(xs: &Vec<JsExpr>, u: &mut Vec<(String, Option<u32>)>)
    ensures
        keyed(final(u)@) == uses_exprs(xs@, keyed(old(u)@)),
    decreases xs,
{
    let ghost g = keyed(u@);
    let mut i: usize = 0;
    assert(xs@.take(0) =~= Seq::<JsExpr>::empty());
    while i < xs.len()
        invariant
            i <= xs@.len(),
            keyed(u@) == uses_exprs(xs@.take(i as int), g),
        decreases xs@.len() - i,
    {
        assert(xs@.take(i + 1).drop_last() =~= xs@.take(i as int));
        assert(xs@.take(i + 1).last() == xs@[i as int]);
        expr_uses(&xs[i], u);
        i += 1;
    }
    assert(xs@.take(xs@.len() as int) =~= xs@);
}

fn opt_uses(e: &Option<JsExpr>, u: &mut Vec<(String, Option<u32>)>)
    ensures
        keyed(final(u)@) == uses_opt(*e, keyed(old(u)@)),
{
    match e {
        Some(x) => expr_uses(x, u),
        None => {},
    }
}

fn inits_uses(ds: &Vec<JsDecl>, u: &mut Vec<(String, Option<u32>)>)
    ensures
        keyed(final(u)@) == uses_inits(ds@, keyed(old(u)@)),
{
    let ghost g = keyed(u@);
    let mut i: usize = 0;
    assert(ds@.take(0) =~= Seq::<JsDecl>::empty());
    while i < ds.len()
        invariant
            i <= ds@.len(),
            keyed(u@) == uses_inits(ds@.take(i as int), g),
        decreases ds@.len() - i,
    {
        assert(ds@.take(i + 1).drop_last() =~= ds@.take(i as int));
        assert(ds@.take(i + 1).last() == ds@[i as int]);
        opt_uses(&ds[i].init, u);
        i += 1;
    }
    assert(ds@.take(ds@.len() as int) =~= ds@);
}

fn stmt_uses(s: &JsStmt, u: &mut Vec<(String, Option<u32>)>)
    ensures
        keyed(final(u)@) == uses_stmt(*s, keyed(old(u)@)),
    decreases s,
{
    match &s.kind {
        JsStmtKind::Expr(e) => expr_uses(e, u),
        JsStmtKind::Var(ds) => inits_uses(ds, u),
        JsStmtKind::If { test, .. } => expr_uses(test, u),
        JsStmtKind::While { test, .. } => expr_uses(test, u),
        JsStmtKind::Return(r) => opt_uses(r, u),
        JsStmtKind::For { init, test, update, .. } => {
            match init {
                Some(JsForInit::Var(ds)) => inits_uses(ds, u),
                _ => {},
            }
            opt_uses(test, u);
            opt_uses(update, u);
        },
        _ => {},
    }
    match &s.kind {
        JsStmtKind::Block(ss) => stmts_uses(ss.as_slice(), u),
        JsStmtKind::If { then, other, .. } => {
            stmt_uses(&**then, u);
            match other {
                Some(o) => stmt_uses(&**o, u),
                None => {},
            }
        },
        JsStmtKind::For { body, .. } => stmt_uses(&**body, u),
        JsStmtKind::While { body, .. } => stmt_uses(&**body, u),
        JsStmtKind::Try { block, handler, finalizer } => {
            stmts_uses(block.as_slice(), u);
            match handler {
                Some(h) => stmts_uses(h.as_slice(), u),
                None => {},
            }
            match finalizer {
                Some(f) => stmts_uses(f.as_slice(), u),
                None => {},
            }
        },
        _ => {},
    }
}

fn stmts_uses(ss: &[JsStmt], u: &mut Vec<(String, Option<u32>)>)
    ensures
        keyed(final(u)@) == uses_stmts(ss@, keyed(old(u)@)),
    decreases ss@,
{
    let ghost g = keyed(u@);
    let mut i: usize = 0;
    assert(ss@.take(0) =~= Seq::<JsStmt>::empty());
    while i < ss.len()
        invariant
            i <= ss@.len(),
            keyed(u@) == uses_stmts(ss@.take(i as int), g),
        decreases ss@.len() - i,
    {
        assert(ss@.take(i + 1).drop_last() =~= ss@.take(i as int));
        assert(ss@.take(i + 1).last() == ss@[i as int]);
        stmt_uses(&ss[i], u);
        i += 1;
    }
    assert(ss@.take(ss@.len() as int) =~= ss@);
}

fn nums_of(xs: &Vec<JsExpr>) -> (r: Option<Vec<u32>>)
    ensures
        match r {
            Some(v) => all_nums(xs@) == Some(v@),
            None => all_nums(xs@) is None,
        },
{
    if xs.len() == 0 {
        return None;
    }
    let mut v: Vec<u32> = Vec::new();
    let mut i: usize = 0;
    while i < xs.len()
        invariant
            i <= xs@.len(),
            v@.len() == i,
            forall|k: int| 0 <= k < i ==> (#[trigger] xs@[k]) matches JsExpr::Num { value: Some(_), .. },
            forall|k: int| 0 <= k < i ==> #[trigger] v@[k] == xs@[k]->Num_value->0,
        decreases xs@.len() - i,
    {
        match &xs[i] {
            JsExpr::Num { value: Some(n), .. } => v.push(*n),
            _ => {
                assert(!(xs@[i as int] matches JsExpr::Num { value: Some(_), .. }));
                return None;
            },
        }
        i += 1;
    }
    assert(v@ =~= Seq::new(xs@.len(), |k: int| xs@[k]->Num_value->0));
    Some(v)
}

/// The layer-control tables of a parsed body.
pub fn tables_in(p: &[JsStmt]) -> (r: Tabs)
    ensures
        r.view() == tables_of(p@),
{
    let mut used: Vec<(String, Option<u32>)> = Vec::new();
    assert(keyed(used@) =~= Seq::<(Seq<char>, Option<u32>)>::empty());
    stmts_uses(p, &mut used);
    let mut arrays: Vec<(String, (Vec<u32>, Bytes))> = Vec::new();
    let mut i: usize = 0;
    assert(arrays_view(arrays@) =~= arrays_top(p@.take(0), seq![]));
    while i < p.len()
        invariant
            i <= p@.len(),
            arrays_view(arrays@) == arrays_top(p@.take(i as int), seq![]),
        decreases p@.len() - i,
    {
        assert(p@.take(i + 1).drop_last() =~= p@.take(i as int));
        assert(p@.take(i + 1).last() == p@[i as int]);
        match &p[i].kind {
            JsStmtKind::Var(ds) => {
                let ghost a0 = arrays_view(arrays@);
                let mut j: usize = 0;
                assert(ds@.take(0) =~= Seq::<JsDecl>::empty());
                while j < ds.len()
                    invariant
                        j <= ds@.len(),
                        arrays_view(arrays@) == arrays_decls(ds@.take(j as int), a0),
                    decreases ds@.len() - j,
                {
                    assert(ds@.take(j + 1).drop_last() =~= ds@.take(j as int));
                    assert(ds@.take(j + 1).last() == ds@[j as int]);
                    match (&ds[j].name, &ds[j].init) {
                        (Some(n), Some(JsExpr::Array { elems, at })) => match nums_of(elems) {
                            Some(ns) => {
                                let ghost before = arrays_view(arrays@);
                                let ghost nv = ns@;
                                arrays.push((n.clone(), (ns, *at)));
                                assert(arrays_view(arrays@) =~= before.push((n@, (nv, *at))));
                            },
                            None => {},
                        },
                        _ => {},
                    }
                    j += 1;
                }
                assert(ds@.take(ds@.len() as int) =~= ds@);
            },
            _ => {},
        }
        i += 1;
    }
    assert(p@.take(p@.len() as int) =~= p@);
    Tabs { used, arrays }
}

// ---------------------------------------------------------------------------
// Typing the body's names
// ---------------------------------------------------------------------------

/// A value's type, as far as the rewrite cares: `origPath.points()` and
/// `barLayer.content('Path 1').path.points()` are the same tokens, and only
/// one of them is read off a layer.
#[derive(Clone, Copy, PartialEq, Eq, Structural, Debug)]
pub enum Ty {
    Layer,
    /// An array whose elements are layers.
    LayerArray,
    Other,
}

/// The types of names, later entries overriding earlier ones.
pub type Tys = Seq<(Seq<char>, Ty)>;

/// `t` with `n` bound to `ty`; a second, different binding poisons it.
pub open spec fn bind(t: Tys, n: Seq<char>, ty: Ty) -> Tys {
    match lookup(t, n) {
        Some(prev) => if prev != ty {
            t.push((n, Ty::Other))
        } else {
            t
        },
        None => t.push((n, ty)),
    }
}

/// `thisComp.layer('name')`: the literal name.
pub open spec fn comp_layer_name(e: JsExpr) -> Option<Seq<char>> {
    match e {
        JsExpr::Call { callee, args, .. } => match *callee {
            JsExpr::Member { object, prop, .. } => if prop@ == "layer"@ && (*object matches JsExpr::Ident { name, .. }
                && name@ == "thisComp"@) && args@.len() == 1 {
                match args@[0] {
                    JsExpr::Str { value, .. } => Some(value@),
                    _ => None,
                }
            } else {
                None
            },
            _ => None,
        },
        _ => None,
    }
}

/// `effect(t[i])(p)` over a layer-control table: where `t[i]` stands.
pub open spec fn control_index(tb: TabsV, e: JsExpr) -> Option<Bytes> {
    match table_call(e) {
        Some((n, p, at)) => match table_of(tb, n) {
            Some((tp, _, _)) => if tp == p {
                Some(at)
            } else {
                None
            },
            None => None,
        },
        None => None,
    }
}

/// Whether `e` produces a layer, given what the names hold.
pub open spec fn is_layer(tb: TabsV, t: Tys, e: JsExpr) -> bool
    decreases e,
{
    match e {
        JsExpr::Ident { name, .. } => name@ == "thisLayer"@ || lookup(t, name@) == Some(Ty::Layer),
        JsExpr::Paren { inner, .. } => is_layer(tb, t, *inner),
        JsExpr::Member { object, prop, .. } => (prop@ == "transform"@ || prop@ == "path"@ || prop@ == "parentLayer"@)
            && is_layer(tb, t, *object),
        JsExpr::Index { object, .. } => match *object {
            JsExpr::Ident { name, .. } => lookup(t, name@) == Some(Ty::LayerArray),
            _ => false,
        },
        JsExpr::Call { callee, .. } => {
            ||| comp_layer_name(e) is Some
            ||| control_index(tb, e) is Some
            ||| match *callee {
                JsExpr::Member { object, prop, .. } => if prop@ == "content"@ {
                    is_layer(tb, t, *object)
                } else {
                    is_layer(tb, t, *callee)
                },
                _ => is_layer(tb, t, *callee),
            }
        },
        _ => false,
    }
}

/// The type an expression gives the name it is bound to.
pub open spec fn ty_of(tb: TabsV, t: Tys, e: JsExpr) -> Ty {
    if is_layer(tb, t, e) {
        Ty::Layer
    } else {
        Ty::Other
    }
}

/// Whether every argument of a `push` is a layer or `null` (a spread is
/// passed over).
pub open spec fn pushes_layers(tb: TabsV, t: Tys, args: Seq<JsExpr>) -> bool {
    forall|i: int| 0 <= i < args.len() ==> (#[trigger] args[i] is Absent) || is_layer(tb, t, args[i]) || args[i] is Null
}

/// What one expression directly under a statement teaches: an assignment to
/// a name, and `arr.push(x)`.
pub open spec fn infer_top_expr(tb: TabsV, t: Tys, e: JsExpr) -> Tys {
    match e {
        JsExpr::Assign { target: Some(n), value, .. } => bind(t, n@, ty_of(tb, t, *value)),
        JsExpr::Call { callee, args, .. } => match *callee {
            JsExpr::Member { object, prop, .. } => if prop@ == "push"@ {
                match *object {
                    JsExpr::Ident { name, .. } => if pushes_layers(tb, t, args@) && args@.len() > 0 {
                        bind(t, name@, Ty::LayerArray)
                    } else {
                        bind(t, name@, Ty::Other)
                    },
                    _ => t,
                }
            } else {
                t
            },
            _ => t,
        },
        _ => t,
    }
}

/// What one declarator teaches.
pub open spec fn infer_decl(tb: TabsV, t: Tys, d: JsDecl) -> Tys {
    match d.name {
        None => t,
        Some(n) => if table_of(tb, n@) is Some {
            bind(t, n@, Ty::LayerArray)
        } else {
            match d.init {
                Some(JsExpr::Array { elems, .. }) => if elems@.len() == 0 {
                    t
                } else {
                    bind(t, n@, ty_of(tb, t, d.init->0))
                },
                Some(e) => bind(t, n@, ty_of(tb, t, e)),
                None => t,
            }
        },
    }
}

pub open spec fn infer_decls(tb: TabsV, t: Tys, ds: Seq<JsDecl>) -> Tys
    decreases ds.len(),
{
    if ds.len() == 0 {
        t
    } else {
        infer_decl(tb, infer_decls(tb, t, ds.drop_last()), ds.last())
    }
}

pub open spec fn infer_opt(tb: TabsV, t: Tys, e: Option<JsExpr>) -> Tys {
    match e {
        Some(x) => infer_top_expr(tb, t, x),
        None => t,
    }
}

pub open spec fn infer_inits(tb: TabsV, t: Tys, ds: Seq<JsDecl>) -> Tys
    decreases ds.len(),
{
    if ds.len() == 0 {
        t
    } else {
        infer_opt(tb, infer_inits(tb, t, ds.drop_last()), ds.last().init)
    }
}

/// What the expressions directly under a statement teach.
pub open spec fn infer_top(tb: TabsV, t: Tys, s: JsStmt) -> Tys {
    match s.kind {
        JsStmtKind::Expr(e) => infer_top_expr(tb, t, e),
        JsStmtKind::Var(ds) => infer_inits(tb, t, ds@),
        JsStmtKind::If { test, .. } => infer_top_expr(tb, t, test),
        JsStmtKind::While { test, .. } => infer_top_expr(tb, t, test),
        JsStmtKind::Return(r) => infer_opt(tb, t, r),
        JsStmtKind::For { init, test, update, .. } => infer_opt(
            tb,
            infer_opt(
                tb,
                match init {
                    Some(JsForInit::Var(ds)) => infer_inits(tb, t, ds@),
                    _ => t,
                },
                test,
            ),
            update,
        ),
        _ => t,
    }
}

/// What a statement and every statement under it teach: its declarators,
/// then the expressions directly under it, then its sub-statements.
pub open spec fn infer_stmt(tb: TabsV, t: Tys, s: JsStmt) -> Tys
    decreases s,
{
    let t1 = match s.kind {
        JsStmtKind::Var(ds) => infer_decls(tb, t, ds@),
        _ => t,
    };
    let t2 = infer_top(tb, t1, s);
    match s.kind {
        JsStmtKind::Block(ss) => infer_stmts(tb, t2, ss@),
        JsStmtKind::If { then, other, .. } => {
            let t3 = infer_stmt(tb, t2, *then);
            match other {
                Some(o) => infer_stmt(tb, t3, *o),
                None => t3,
            }
        },
        JsStmtKind::For { body, .. } => infer_stmt(tb, t2, *body),
        JsStmtKind::While { body, .. } => infer_stmt(tb, t2, *body),
        JsStmtKind::Try { block, handler, finalizer } => {
            let t3 = infer_stmts(tb, t2, block@);
            let t4 = match handler {
                Some(h) => infer_stmts(tb, t3, h@),
                None => t3,
            };
            match finalizer {
                Some(f) => infer_stmts(tb, t4, f@),
                None => t4,
            }
        },
        _ => t2,
    }
}

pub open spec fn infer_stmts(tb: TabsV, t: Tys, ss: Seq<JsStmt>) -> Tys
    decreases ss,
{
    if ss.len() == 0 {
        t
    } else {
        infer_stmt(tb, infer_stmts(tb, t, ss.drop_last()), ss.last())
    }
}

/// The types of a parsed body's names: two passes over it, so a name that
/// only becomes an array of layers below its declaration is typed by then.
pub open spec fn types_of(tb: TabsV, p: Seq<JsStmt>) -> Tys {
    infer_stmts(tb, infer_stmts(tb, seq![], p), p)
}

fn table_param(tb: &Tabs, n: &str) -> (r: Option<u32>)
    ensures
        r == match table_of(tb.view(), n@) {
            Some((p, _, _)) => Some(p),
            None => None,
        },
{
    proof {
        lemma_last_at_bound(keyed(tb.used@), n@);
        lemma_last_at_bound(arrays_view(tb.arrays@), n@);
    }
    let u = lookup_copy(&tb.used, n);
    match u {
        Some(Some(p)) => {
            let a = last_pos(&tb.arrays, n);
            proof {
                lemma_last_at_keys(tb.arrays@, n@);
            }
            match a {
                Some(_) => Some(p),
                None => None,
            }
        },
        _ => None,
    }
}

proof fn lemma_last_at_keys(a: Seq<(String, (Vec<u32>, Bytes))>, n: Seq<char>)
    ensures
        last_at(keyed(a), n) == last_at(arrays_view(a), n),
    decreases a.len(),
{
    if a.len() > 0 {
        lemma_last_at_keys(a.drop_last(), n);
        assert(keyed(a).drop_last() =~= keyed(a.drop_last()));
        assert(arrays_view(a).drop_last() =~= arrays_view(a.drop_last()));
    }
}

fn name_is(e: &JsExpr, w: &str) -> (r: bool)
    ensures
        r == (*e matches JsExpr::Ident { name, .. } && name@ == w@),
{
    match e {
        JsExpr::Ident { name, .. } => str_eq(name.as_str(), w),
        _ => false,
    }
}

fn comp_layer_name_of(e: &JsExpr) -> (r: Option<String>)
    ensures
        match r {
            Some(n) => comp_layer_name(*e) == Some(n@),
            None => comp_layer_name(*e) is None,
        },
{
    match e {
        JsExpr::Call { callee, args, .. } => match &**callee {
            JsExpr::Member { object, prop, .. } => {
                if str_eq(prop.as_str(), "layer") && name_is(&**object, "thisComp") && args.len() == 1 {
                    match &args[0] {
                        JsExpr::Str { value, .. } => Some(value.clone()),
                        _ => None,
                    }
                } else {
                    None
                }
            },
            _ => None,
        },
        _ => None,
    }
}

fn control_index_of(tb: &Tabs, e: &JsExpr) -> (r: Option<Bytes>)
    ensures
        r == control_index(tb.view(), *e),
{
    match table_call_of(e) {
        Some((n, p, at)) => match table_param(tb, n.as_str()) {
            Some(tp) => if tp == p {
                Some(at)
            } else {
                None
            },
            None => None,
        },
        None => None,
    }
}

fn is_layer_of(tb: &Tabs, t: &Vec<(String, Ty)>, e: &JsExpr) -> (r: bool)
    ensures
        r == is_layer(tb.view(), keyed(t@), *e),
    decreases e,
{
    match e {
        JsExpr::Ident { name, .. } => str_eq(name.as_str(), "thisLayer") || lookup_copy(t, name.as_str()) == Some(
            Ty::Layer,
        ),
        JsExpr::Paren { inner, .. } => is_layer_of(tb, t, &**inner),
        JsExpr::Member { object, prop, .. } => (str_eq(prop.as_str(), "transform") || str_eq(prop.as_str(), "path")
            || str_eq(prop.as_str(), "parentLayer")) && is_layer_of(tb, t, &**object),
        JsExpr::Index { object, .. } => match &**object {
            JsExpr::Ident { name, .. } => lookup_copy(t, name.as_str()) == Some(Ty::LayerArray),
            _ => false,
        },
        JsExpr::Call { callee, .. } => {
            if comp_layer_name_of(e).is_some() {
                return true;
            }
            if control_index_of(tb, e).is_some() {
                return true;
            }
            match &**callee {
                JsExpr::Member { object, prop, .. } => if str_eq(prop.as_str(), "content") {
                    is_layer_of(tb, t, &**object)
                } else {
                    is_layer_of(tb, t, &**callee)
                },
                _ => is_layer_of(tb, t, &**callee),
            }
        },
        _ => false,
    }
}

fn bind_ty(t: &mut Vec<(String, Ty)>, n: String, ty: Ty)
    ensures
        keyed(final(t)@) == bind(keyed(old(t)@), n@, ty),
{
    let ghost k = keyed(t@);
    match lookup_copy(t, n.as_str()) {
        Some(prev) => if prev != ty {
            t.push((n, Ty::Other));
            assert(keyed(t@) =~= k.push((n@, Ty::Other)));
        },
        None => {
            t.push((n, ty));
            assert(keyed(t@) =~= k.push((n@, ty)));
        },
    }
}

fn layer_or_other(b: bool) -> (r: Ty)
    ensures
        r == (if b { Ty::Layer } else { Ty::Other }),
{
    if b {
        Ty::Layer
    } else {
        Ty::Other
    }
}

fn infer_top_expr_of(tb: &Tabs, t: &mut Vec<(String, Ty)>, e: &JsExpr)
    ensures
        keyed(final(t)@) == infer_top_expr(tb.view(), keyed(old(t)@), *e),
{
    match e {
        JsExpr::Assign { target: Some(n), value, .. } => {
            let ty = layer_or_other(is_layer_of(tb, t, &**value));
            bind_ty(t, n.clone(), ty);
        },
        JsExpr::Call { callee, args, .. } => match &**callee {
            JsExpr::Member { object, prop, .. } => {
                if str_eq(prop.as_str(), "push") {
                    match &**object {
                        JsExpr::Ident { name, .. } => {
                            let ghost tv = keyed(t@);
                            let mut holds = true;
                            let mut i: usize = 0;
                            while i < args.len()
                                invariant
                                    i <= args@.len(),
                                    tv == keyed(t@),
                                    holds == forall|j: int| 0 <= j < i ==> (#[trigger] args@[j] is Absent) || is_layer(
                                        tb.view(),
                                        tv,
                                        args@[j],
                                    ) || args@[j] is Null,
                                decreases args@.len() - i,
                            {
                                let ok = match &args[i] {
                                    JsExpr::Absent { .. } => true,
                                    JsExpr::Null { .. } => true,
                                    x => is_layer_of(tb, t, x),
                                };
                                holds = holds && ok;
                                i += 1;
                            }
                            if holds && args.len() > 0 {
                                bind_ty(t, name.clone(), Ty::LayerArray);
                            } else {
                                bind_ty(t, name.clone(), Ty::Other);
                            }
                        },
                        _ => {},
                    }
                }
            },
            _ => {},
        },
        _ => {},
    }
}

fn infer_opt_of(tb: &Tabs, t: &mut Vec<(String, Ty)>, e: &Option<JsExpr>)
    ensures
        keyed(final(t)@) == infer_opt(tb.view(), keyed(old(t)@), *e),
{
    match e {
        Some(x) => infer_top_expr_of(tb, t, x),
        None => {},
    }
}

fn infer_decls_of(tb: &Tabs, t: &mut Vec<(String, Ty)>, ds: &Vec<JsDecl>)
    ensures
        keyed(final(t)@) == infer_decls(tb.view(), keyed(old(t)@), ds@),
{
    let ghost g = keyed(t@);
    let mut i: usize = 0;
    assert(ds@.take(0) =~= Seq::<JsDecl>::empty());
    while i < ds.len()
        invariant
            i <= ds@.len(),
            keyed(t@) == infer_decls(tb.view(), g, ds@.take(i as int)),
        decreases ds@.len() - i,
    {
        assert(ds@.take(i + 1).drop_last() =~= ds@.take(i as int));
        assert(ds@.take(i + 1).last() == ds@[i as int]);
        let d = &ds[i];
        match &d.name {
            None => {},
            Some(n) => {
                if table_param(tb, n.as_str()).is_some() {
                    bind_ty(t, n.clone(), Ty::LayerArray);
                } else {
                    match &d.init {
                        Some(JsExpr::Array { elems, .. }) => {
                            if elems.len() != 0 {
                                let ty = layer_or_other(is_layer_of(tb, t, d.init.as_ref().unwrap()));
                                bind_ty(t, n.clone(), ty);
                            }
                        },
                        Some(e) => {
                            let ty = layer_or_other(is_layer_of(tb, t, e));
                            bind_ty(t, n.clone(), ty);
                        },
                        None => {},
                    }
                }
            },
        }
        i += 1;
    }
    assert(ds@.take(ds@.len() as int) =~= ds@);
}

fn infer_inits_of(tb: &Tabs, t: &mut Vec<(String, Ty)>, ds: &Vec<JsDecl>)
    ensures
        keyed(final(t)@) == infer_inits(tb.view(), keyed(old(t)@), ds@),
{
    let ghost g = keyed(t@);
    let mut i: usize = 0;
    assert(ds@.take(0) =~= Seq::<JsDecl>::empty());
    while i < ds.len()
        invariant
            i <= ds@.len(),
            keyed(t@) == infer_inits(tb.view(), g, ds@.take(i as int)),
        decreases ds@.len() - i,
    {
        assert(ds@.take(i + 1).drop_last() =~= ds@.take(i as int));
        assert(ds@.take(i + 1).last() == ds@[i as int]);
        infer_opt_of(tb, t, &ds[i].init);
        i += 1;
    }
    assert(ds@.take(ds@.len() as int) =~= ds@);
}

fn infer_stmt_of(tb: &Tabs, t: &mut Vec<(String, Ty)>, s: &JsStmt)
    ensures
        keyed(final(t)@) == infer_stmt(tb.view(), keyed(old(t)@), *s),
    decreases s,
{
    match &s.kind {
        JsStmtKind::Var(ds) => infer_decls_of(tb, t, ds),
        _ => {},
    }
    match &s.kind {
        JsStmtKind::Expr(e) => infer_top_expr_of(tb, t, e),
        JsStmtKind::Var(ds) => infer_inits_of(tb, t, ds),
        JsStmtKind::If { test, .. } => infer_top_expr_of(tb, t, test),
        JsStmtKind::While { test, .. } => infer_top_expr_of(tb, t, test),
        JsStmtKind::Return(r) => infer_opt_of(tb, t, r),
        JsStmtKind::For { init, test, update, .. } => {
            match init {
                Some(JsForInit::Var(ds)) => infer_inits_of(tb, t, ds),
                _ => {},
            }
            infer_opt_of(tb, t, test);
            infer_opt_of(tb, t, update);
        },
        _ => {},
    }
    match &s.kind {
        JsStmtKind::Block(ss) => infer_stmts_of(tb, t, ss.as_slice()),
        JsStmtKind::If { then, other, .. } => {
            infer_stmt_of(tb, t, &**then);
            match other {
                Some(o) => infer_stmt_of(tb, t, &**o),
                None => {},
            }
        },
        JsStmtKind::For { body, .. } => infer_stmt_of(tb, t, &**body),
        JsStmtKind::While { body, .. } => infer_stmt_of(tb, t, &**body),
        JsStmtKind::Try { block, handler, finalizer } => {
            infer_stmts_of(tb, t, block.as_slice());
            match handler {
                Some(h) => infer_stmts_of(tb, t, h.as_slice()),
                None => {},
            }
            match finalizer {
                Some(f) => infer_stmts_of(tb, t, f.as_slice()),
                None => {},
            }
        },
        _ => {},
    }
}

fn infer_stmts_of(tb: &Tabs, t: &mut Vec<(String, Ty)>, ss: &[JsStmt])
    ensures
        keyed(final(t)@) == infer_stmts(tb.view(), keyed(old(t)@), ss@),
    decreases ss@,
{
    let ghost g = keyed(t@);
    let mut i: usize = 0;
    assert(ss@.take(0) =~= Seq::<JsStmt>::empty());
    while i < ss.len()
        invariant
            i <= ss@.len(),
            keyed(t@) == infer_stmts(tb.view(), g, ss@.take(i as int)),
        decreases ss@.len() - i,
    {
        assert(ss@.take(i + 1).drop_last() =~= ss@.take(i as int));
        assert(ss@.take(i + 1).last() == ss@[i as int]);
        infer_stmt_of(tb, t, &ss[i]);
        i += 1;
    }
    assert(ss@.take(ss@.len() as int) =~= ss@);
}

/// The types of a parsed body's names.
pub fn types_in(tb: &Tabs, p: &[JsStmt]) -> (r: Vec<(String, Ty)>)
    ensures
        keyed(r@) == types_of(tb.view(), p@),
{
    let mut t: Vec<(String, Ty)> = Vec::new();
    assert(keyed(t@) =~= Seq::<(Seq<char>, Ty)>::empty());
    infer_stmts_of(tb, &mut t, p);
    infer_stmts_of(tb, &mut t, p);
    t
}


// ---------------------------------------------------------------------------
// What a layer expression is, at one use
// ---------------------------------------------------------------------------

/// Everything the rendering reads and does not change: the body's text, the
/// properties that use it, the scene's index and records, and what the first
/// two passes found.
pub struct CxV {
    pub src: Seq<char>,
    pub uses: Seq<Site>,
    pub index: Index,
    pub layers: SceneLayers,
    pub tabs: TabsV,
    pub tys: Tys,
}

/// The exec form of the context.
pub struct Cx<'a> {
    pub src: Vec<char>,
    pub uses: Vec<Site>,
    pub index: &'a Index,
    pub layers: &'a SceneLayers,
    pub tabs: Tabs,
    pub tys: Vec<(String, Ty)>,
}

impl<'a> Cx<'a> {
    pub open spec fn view(&self) -> CxV {
        CxV {
            src: self.src@,
            uses: self.uses@,
            index: *self.index,
            layers: *self.layers,
            tabs: self.tabs.view(),
            tys: keyed(self.tys@),
        }
    }
}

/// The context a parsed body is rendered in.
pub open spec fn cx_of(src: Seq<char>, uses: Seq<Site>, index: Index, layers: SceneLayers, p: Seq<JsStmt>) -> CxV {
    CxV { src, uses, index, layers, tabs: tables_of(p), tys: types_of(tables_of(p), p) }
}

/// Where an expression stands.
pub open spec fn at_of(e: JsExpr) -> Bytes {
    match e {
        JsExpr::Ident { at, .. } => at,
        JsExpr::Str { at, .. } => at,
        JsExpr::Num { at, .. } => at,
        JsExpr::Null { at } => at,
        JsExpr::Call { at, .. } => at,
        JsExpr::Member { at, .. } => at,
        JsExpr::Index { at, .. } => at,
        JsExpr::Array { at, .. } => at,
        JsExpr::Paren { at, .. } => at,
        JsExpr::Assign { at, .. } => at,
        JsExpr::Op { at, .. } => at,
        JsExpr::Opaque { at } => at,
        JsExpr::Absent { at } => at,
    }
}

/// The source text of a parser range of the body.
pub open spec fn txt(cx: CxV, at: Bytes) -> Seq<char> {
    text_at(cx.src, at)
}

/// Whether `e` is a layer, in this body.
pub open spec fn layer(cx: CxV, e: JsExpr) -> bool {
    is_layer(cx.tabs, cx.tys, e)
}

/// The record the layer expression `e` denotes at one use, when it can be
/// known at build time: the owner, a name lookup, a parent, and what the
/// drill-down chain and `.content(…)` hand back.
pub open spec fn record_at(cx: CxV, site: Site, e: JsExpr) -> Option<u32>
    decreases e,
{
    match e {
        JsExpr::Ident { name, .. } => if name@ == "thisLayer"@ {
            Some(site.owner)
        } else {
            None
        },
        JsExpr::Paren { inner, .. } => record_at(cx, site, *inner),
        JsExpr::Member { object, prop, .. } => if prop@ == "transform"@ || prop@ == "path"@ {
            record_at(cx, site, *object)
        } else if prop@ == "parentLayer"@ {
            match record_at(cx, site, *object) {
                Some(r) => if (r as int) < recs_of(&cx.layers, site.table).len() {
                    recs_of(&cx.layers, site.table)[r as int].parent
                } else {
                    None
                },
                None => None,
            }
        } else {
            None
        },
        JsExpr::Call { callee, .. } => match comp_layer_name(e) {
            Some(n) => verdict(cx.index.name_state(site.table, site.scope, n)),
            None => match *callee {
                JsExpr::Member { object, prop, .. } => if prop@ == "content"@ {
                    record_at(cx, site, *object)
                } else {
                    record_at(cx, site, *callee)
                },
                _ => record_at(cx, site, *callee),
            },
        },
        _ => None,
    }
}

/// The layer one `effect(k)(param)` on a use's owner names: `None` when the
/// whole body has to fall back — a parameter that is not a layer control, or
/// one with no static value.
pub open spec fn control_target(cx: CxV, site: Site, k: u32, param: u32) -> Option<Target> {
    let recs = recs_of(&cx.layers, site.table);
    if (site.owner as int) < recs.len() {
        let fx = recs[site.owner as int].effects@;
        if (k as int) < fx.len() && (param as int) < fx[k as int].params@.len() {
            let ep = fx[k as int].params@[param as int];
            if ep.ty != 10 {
                None
            } else {
                match ep.value {
                    Some(v) => Some(
                        match verdict(cx.index.ind_state(site.table, site.scope, v)) {
                            Some(r) => Target::Rec(r),
                            None => Target::NoLayer,
                        },
                    ),
                    None => None,
                }
            }
        } else {
            Some(Target::NoEffect)
        }
    } else {
        None
    }
}

// ---------------------------------------------------------------------------
// Rendering
// ---------------------------------------------------------------------------

/// What rendering has found out so far: the runtime symbols the rewritten
/// text calls, whether the body has been refused, and whether
/// `thisComp.frameDuration` was rewritten.
#[verifier::ext_equal]
pub struct St {
    pub helpers: Set<Seq<char>>,
    pub refused: bool,
    pub frame_duration: bool,
}

pub open spec fn need(st: St, s: Seq<char>) -> St {
    St { helpers: st.helpers.insert(s), ..st }
}

pub open spec fn refuse(st: St) -> St {
    St { refused: true, ..st }
}

/// The runtime symbol a handle calls.
pub open spec fn handle_helper(h: Handle) -> Seq<char> {
    match h {
        Handle::At(_) => "lyAt"@,
        Handle::Rel(_) => "lyRel"@,
    }
}

/// `thisComp.layer(name)` resolved once per use, written when they agree.
pub open spec fn resolve_name(cx: CxV, st: St, n: Seq<char>) -> (Option<Seq<char>>, St) {
    let per = Seq::new(
        cx.uses.len(),
        |i: int|
            (
                cx.uses[i],
                match verdict(cx.index.name_state(cx.uses[i].table, cx.uses[i].scope, n)) {
                    Some(r) => Target::Rec(r),
                    None => Target::NoLayer,
                },
            ),
    );
    match spec_agree(per) {
        Some(h) => (Some(spec_emit(h)), need(st, handle_helper(h))),
        None => (None, refuse(st)),
    }
}

/// How one element of a layer-control table is written: the layer its
/// effect names, agreed on by every use.
pub open spec fn elem_handle(cx: CxV, k: u32, param: u32) -> Option<Handle> {
    if forall|i: int| 0 <= i < cx.uses.len() ==> (#[trigger] control_target(cx, cx.uses[i], k, param)) is Some {
        spec_agree(Seq::new(cx.uses.len(), |i: int| (cx.uses[i], control_target(cx, cx.uses[i], k, param)->0)))
    } else {
        None
    }
}

/// The written elements of a layer-control table.
pub open spec fn table_elems(cx: CxV, st: St, param: u32, ks: Seq<u32>) -> (Option<Seq<Seq<char>>>, St)
    decreases ks.len(),
{
    if ks.len() == 0 {
        (Some(seq![]), st)
    } else {
        let (prev, st1) = table_elems(cx, st, param, ks.drop_last());
        match prev {
            None => (None, st1),
            Some(outs) => match elem_handle(cx, ks.last(), param) {
                Some(h) => (Some(outs.push(spec_emit(h))), need(st1, handle_helper(h))),
                None => (None, refuse(st1)),
            },
        }
    }
}

/// The layer-control table whose literal stands at `at`: its slot and
/// elements.
pub open spec fn table_at(tb: TabsV, at: Bytes, k: int) -> Option<(u32, Seq<u32>)>
    decreases k,
{
    if k <= 0 || k > tb.arrays.len() {
        None
    } else {
        let (n, (ns, a)) = tb.arrays[k - 1];
        match table_of(tb, n) {
            Some((p, ns2, a2)) => if a == at && ns2 == ns && a2 == a {
                Some((p, ns))
            } else {
                table_at(tb, at, k - 1)
            },
            None => table_at(tb, at, k - 1),
        }
    }
}

/// A layer-control table written as the layers its elements name.
pub open spec fn render_table(cx: CxV, st: St, at: Bytes) -> (Option<Seq<char>>, St) {
    match table_at(cx.tabs, at, cx.tabs.arrays.len() as int) {
        None => (None, st),
        Some((param, ks)) => {
            let (outs, st1) = table_elems(cx, st, param, ks);
            match outs {
                Some(o) => (Some("["@ + crate::text::joined(o, ", "@) + "]"@), st1),
                None => (None, st1),
            }
        },
    }
}

/// `body[at]` with the cuts (child ranges and their new text) replaced; no
/// cuts is no change. Children that do not lie inside their parent, which
/// no parse gives, refuse the body.
pub open spec fn splice_at(cx: CxV, st: St, at: Bytes, cuts: Seq<(Bytes, Seq<char>)>) -> (Option<Seq<char>>, St) {
    if cuts.len() == 0 {
        (None, st)
    } else {
        let base = char_span(cx.src, at).start as int;
        let rel = cuts.map_values(
            |c: (Bytes, Seq<char>)|
                (char_span(cx.src, c.0).start - base, char_span(cx.src, c.0).end - base, c.1),
        );
        let whole = txt(cx, at);
        if crate::expr::resolve::cuts_ok(whole, rel) {
            (Some(crate::expr::resolve::splice(whole, rel, 0)), st)
        } else {
            (None, refuse(st))
        }
    }
}

/// A selector literal: a whole number picks by position, a string by name.
pub open spec fn sel_of(e: JsExpr) -> Option<Sel> {
    match e {
        JsExpr::Num { value: Some(i), .. } => Some(Sel::Idx(i)),
        JsExpr::Str { value, .. } => Some(Sel::Name(value)),
        _ => None,
    }
}

/// Whether an item with these names answers to `w`.
pub open spec fn answers(p: (Option<String>, Option<String>), w: Seq<char>) -> bool {
    (p.0 matches Some(x) && x@ == w) || (p.1 matches Some(x) && x@ == w)
}

/// What a selector picks among named items: the item, none, or `None` when
/// a name answers twice.
pub open spec fn pick(sel: Sel, names: Seq<(Option<String>, Option<String>)>) -> Option<Option<u32>> {
    match sel {
        Sel::Idx(i) => Some(if (i as int) < names.len() { Some(i) } else { None }),
        Sel::Name(w) => if exists|a: int, b: int|
            0 <= a < b < names.len() && answers(#[trigger] names[a], w@) && answers(#[trigger] names[b], w@) {
            None
        } else if exists|k: int| 0 <= k < names.len() && answers(#[trigger] names[k], w@) {
            Some(Some((choose|k: int| 0 <= k < names.len() && answers(#[trigger] names[k], w@)) as u32))
        } else {
            Some(None)
        },
    }
}

pub open spec fn effect_names(fx: Seq<LayerEffect>) -> Seq<(Option<String>, Option<String>)> {
    fx.map_values(|e: LayerEffect| (e.name, e.match_name))
}

pub open spec fn param_names(ps: Seq<LayerParam>) -> Seq<(Option<String>, Option<String>)> {
    ps.map_values(|p: LayerParam| (p.name, p.match_name))
}

/// Where `(nsel, psel)` lands on the layer at one use: `Some(None)` when
/// the effect or parameter is not there, `None` when the body falls back.
pub open spec fn slot_at(cx: CxV, site: Site, obj: Option<JsExpr>, nsel: Sel, psel: Sel) -> Option<Option<(u32, u32)>> {
    let rec = match obj {
        None => Some(site.owner),
        Some(o) => record_at(cx, site, o),
    };
    let recs = recs_of(&cx.layers, site.table);
    match rec {
        Some(r) => if (r as int) < recs.len() {
            let fx = recs[r as int].effects@;
            match pick(nsel, effect_names(fx)) {
                None => None,
                Some(None) => Some(None),
                Some(Some(ei)) => if (ei as int) < fx.len() {
                    let ps = fx[ei as int].params@;
                    match pick(psel, param_names(ps)) {
                        None => None,
                        Some(None) => Some(None),
                        Some(Some(pi)) => if (pi as int) < ps.len() && ps[pi as int].ty != 10 {
                            Some(Some((ei, pi)))
                        } else {
                            None
                        },
                    }
                } else {
                    None
                },
            }
        } else {
            None
        },
        None => None,
    }
}

/// Where the selectors land at every use, or `None` when the body falls back.
pub open spec fn effect_slots(cx: CxV, obj: Option<JsExpr>, nsel: Sel, psel: Sel) -> Option<Seq<Option<(u32, u32)>>> {
    if forall|i: int| 0 <= i < cx.uses.len() ==> (#[trigger] slot_at(cx, cx.uses[i], obj, nsel, psel)) is Some {
        Some(Seq::new(cx.uses.len(), |i: int| slot_at(cx, cx.uses[i], obj, nsel, psel)->0))
    } else {
        None
    }
}

/// The position every use agrees on, if they all found one and it is one.
pub open spec fn agreed_slot(slots: Seq<Option<(u32, u32)>>) -> Option<(u32, u32)> {
    if slots.len() > 0 && slots[0] is Some && forall|i: int| 0 <= i < slots.len() ==> #[trigger] slots[i] == slots[0] {
        slots[0]
    } else {
        None
    }
}

/// The rewritten text for `e`, or `None` when nothing under it changed.
pub open spec fn render(cx: CxV, st: St, e: JsExpr) -> (Option<Seq<char>>, St)
    decreases e, 6int,
{
    let (tbl, st0) = match e {
        JsExpr::Array { at, .. } => render_table(cx, st, at),
        _ => (None, st),
    };
    if tbl is Some {
        (tbl, st0)
    } else if layer(cx, e) {
        match e {
            JsExpr::Member { prop, .. } => if prop@ == "path"@ {
                let (o, st1) = layer_text(cx, st0, e);
                match o {
                    Some(obj) => (Some("lyPath("@ + obj + ", frame)"@), need(st1, "lyPath"@)),
                    None => (None, st1),
                }
            } else {
                let (t, st1) = layer_text(cx, st0, e);
                match t {
                    Some(x) => (if x != txt(cx, at_of(e)) { Some(x) } else { None }, st1),
                    None => (None, st1),
                }
            },
            _ => {
                let (t, st1) = layer_text(cx, st0, e);
                match t {
                    Some(x) => (if x != txt(cx, at_of(e)) { Some(x) } else { None }, st1),
                    None => (None, st1),
                }
            },
        }
    } else {
        match e {
            JsExpr::Member { .. } => render_member(cx, st0, e),
            JsExpr::Call { .. } => render_call(cx, st0, e),
            _ => render_children(cx, st0, e),
        }
    }
}

/// One argument, rendered, or its own text; a spread has none.
pub open spec fn arg_text(cx: CxV, st: St, a: JsExpr) -> (Option<Seq<char>>, St)
    decreases a, 7int,
{
    if a is Absent {
        (None, st)
    } else {
        let (r, st1) = render(cx, st, a);
        match r {
            Some(t) => (Some(t), st1),
            None => (Some(txt(cx, at_of(a))), st1),
        }
    }
}

/// The expressions under `e`, rendered, and spliced into its text.
pub open spec fn render_children(cx: CxV, st: St, e: JsExpr) -> (Option<Seq<char>>, St)
    decreases e, 4int,
{
    let (cuts, st1) = match e {
        JsExpr::Call { callee, args, .. } => {
            let (c0, s0) = render_one(cx, st, *callee, seq![]);
            render_list(cx, s0, args@, c0)
        },
        JsExpr::Member { object, .. } => render_one(cx, st, *object, seq![]),
        JsExpr::Index { object, index, .. } => {
            let (c0, s0) = render_one(cx, st, *object, seq![]);
            render_one(cx, s0, *index, c0)
        },
        JsExpr::Paren { inner, .. } => render_one(cx, st, *inner, seq![]),
        JsExpr::Assign { value, .. } => render_one(cx, st, *value, seq![]),
        JsExpr::Op { parts, .. } => render_list(cx, st, parts@, seq![]),
        JsExpr::Array { elems, .. } => render_list(cx, st, elems@, seq![]),
        _ => (seq![], st),
    };
    splice_at(cx, st1, at_of(e), cuts)
}

/// `cuts` with `x`'s rendering, when it changed.
pub open spec fn render_one(cx: CxV, st: St, x: JsExpr, cuts: Seq<(Bytes, Seq<char>)>) -> (Seq<(Bytes, Seq<char>)>, St)
    decreases x, 7int,
{
    let (r, st1) = render(cx, st, x);
    match r {
        Some(t) => (cuts.push((at_of(x), t)), st1),
        None => (cuts, st1),
    }
}

/// `cuts` with the renderings of `xs`, first to last.
pub open spec fn render_list(cx: CxV, st: St, xs: Seq<JsExpr>, cuts: Seq<(Bytes, Seq<char>)>) -> (Seq<(Bytes, Seq<char>)>, St)
    decreases xs, 8int,
{
    if xs.len() == 0 {
        (cuts, st)
    } else {
        let (c1, st1) = render_list(cx, st, xs.drop_last(), cuts);
        render_one(cx, st1, xs.last(), c1)
    }
}

/// The record-producing text for `e`, when `e` is a layer.
pub open spec fn layer_text_if_layer(cx: CxV, st: St, e: JsExpr) -> (Option<Seq<char>>, St)
    decreases e, 3int,
{
    if !layer(cx, e) {
        (None, st)
    } else {
        layer_text(cx, st, e)
    }
}

/// JS producing the record `e` denotes.
pub open spec fn layer_text(cx: CxV, st: St, e: JsExpr) -> (Option<Seq<char>>, St)
    decreases e, 2int,
{
    match e {
        JsExpr::Ident { name, .. } => (Some(name@), st),
        JsExpr::Paren { inner, .. } => layer_text(cx, st, *inner),
        JsExpr::Index { object, index, at } => {
            let (idx, st1) = render(cx, st, *index);
            match idx {
                Some(t) => (Some(txt(cx, at_of(*object)) + "["@ + t + "]"@), st1),
                None => (Some(txt(cx, at)), st1),
            }
        },
        JsExpr::Member { object, prop, .. } => if prop@ == "transform"@ || prop@ == "path"@ {
            layer_text(cx, st, *object)
        } else if prop@ == "parentLayer"@ {
            let (o, st1) = layer_text(cx, st, *object);
            match o {
                Some(x) => (Some("lyParent("@ + x + ")"@), need(st1, "lyParent"@)),
                None => (None, st1),
            }
        } else {
            (None, st)
        },
        JsExpr::Call { callee, .. } => match comp_layer_name(e) {
            Some(n) => resolve_name(cx, st, n),
            None => match control_index(cx.tabs, e) {
                Some(at) => (Some(txt(cx, at)), st),
                None => match *callee {
                    JsExpr::Member { object, prop, .. } => if prop@ == "content"@ {
                        layer_text(cx, st, *object)
                    } else {
                        layer_text(cx, st, *callee)
                    },
                    _ => layer_text(cx, st, *callee),
                },
            },
        },
        _ => (None, st),
    }
}

/// The text of a scalar accessor on a layer.
pub open spec fn scalar_sym(prop: Seq<char>) -> Option<Seq<char>> {
    if prop == "position"@ {
        Some("lyPos"@)
    } else if prop == "anchorPoint"@ {
        Some("lyAnchor"@)
    } else if prop == "scale"@ {
        Some("lyScale"@)
    } else if prop == "rotation"@ {
        Some("lyRot"@)
    } else if prop == "opacity"@ {
        Some("lyOpacity"@)
    } else {
        None
    }
}

/// `X.<accessor>` where `X` is a layer, plus `thisComp.frameDuration`.
pub open spec fn render_member(cx: CxV, st: St, e: JsExpr) -> (Option<Seq<char>>, St)
    decreases e, 5int,
{
    match e {
        JsExpr::Member { object, prop, .. } => if (*object matches JsExpr::Ident { name, .. } && name@ == "thisComp"@)
            && prop@ == "frameDuration"@ {
            (Some("frameDuration"@), St { frame_duration: true, ..st })
        } else {
            let (o, st1) = layer_text_if_layer(cx, st, *object);
            match o {
                None => render_children(cx, st1, e),
                Some(obj) => match scalar_sym(prop@) {
                    Some(sym) => (Some(sym + "("@ + obj + ", frame)"@), need(st1, sym)),
                    None => if prop@ == "index"@ {
                        (Some(obj + ".i"@), st1)
                    } else if prop@ == "name"@ {
                        (Some("("@ + obj + ".n ?? null)"@), st1)
                    } else {
                        (None, refuse(st1))
                    },
                },
            }
        },
        _ => (None, st),
    }
}

/// A method called on a layer.
pub open spec fn render_method(cx: CxV, st: St, obj: Seq<char>, prop: Seq<char>, args: Seq<JsExpr>) -> (Option<Seq<char>>, St)
    decreases args, 7int,
{
    let (a, sta) = if args.len() > 0 {
        arg_text(cx, st, args[0])
    } else {
        (Some(seq![]), st)
    };
    if prop == "toComp"@ {
        match a {
            Some(pt) => (Some("toComp("@ + obj + ", "@ + pt + ", frame)"@), need(sta, "toComp"@)),
            None => (None, sta),
        }
    } else if prop == "fromCompToSurface"@ {
        match a {
            Some(pt) => (Some("fromCompToSurface("@ + pt + ", "@ + obj + ", frame)"@), need(sta, "fromCompToSurface"@)),
            None => (None, sta),
        }
    } else if prop == "pointOnPath"@ || prop == "tangentOnPath"@ {
        match a {
            Some(u) => (Some(prop + "(lyPath("@ + obj + ", frame), "@ + u + ")"@), need(need(sta, prop), "lyPath"@)),
            None => (None, sta),
        }
    } else if prop == "points"@ {
        (Some("lyPoints("@ + obj + ", frame)"@), need(st, "lyPoints"@))
    } else if prop == "inTangents"@ {
        (Some("lyPoints("@ + obj + ", frame, 'i')"@), need(st, "lyPoints"@))
    } else if prop == "outTangents"@ {
        (Some("lyPoints("@ + obj + ", frame, 'o')"@), need(st, "lyPoints"@))
    } else if prop == "isClosed"@ {
        (Some("lyClosed("@ + obj + ", frame)"@), need(st, "lyClosed"@))
    } else {
        (None, refuse(st))
    }
}

/// A call: bare `fromCompToSurface(pt)`, an effect read, a method on a
/// layer, or anything else with its parts rendered.
pub open spec fn render_call(cx: CxV, st: St, e: JsExpr) -> (Option<Seq<char>>, St)
    decreases e, 5int,
{
    match e {
        JsExpr::Call { callee, args, .. } => if (*callee matches JsExpr::Ident { name, .. } && name@ == "fromCompToSurface"@)
            && args@.len() == 1 {
            let (pt, st1) = arg_text(cx, st, args@[0]);
            match pt {
                Some(p) => (Some("fromCompToSurface("@ + p + ", thisLayer, frame)"@), need(st1, "fromCompToSurface"@)),
                None => (None, st1),
            }
        } else {
            let (ef, st1) = render_effect(cx, st, e);
            if ef is Some {
                (ef, st1)
            } else {
                match *callee {
                    JsExpr::Member { object, prop, .. } => {
                        let (o, st2) = layer_text_if_layer(cx, st1, *object);
                        match o {
                            None => render_children(cx, st2, e),
                            Some(obj) => render_method(cx, st2, obj, prop@, args@),
                        }
                    },
                    _ => render_children(cx, st1, e),
                }
            }
        },
        _ => (None, st),
    }
}

/// `X.effect(a)(b)` and bare `effect(a)(b)`, uncurried and resolved to
/// positions where every use agrees on them.
pub open spec fn render_effect(cx: CxV, st: St, e: JsExpr) -> (Option<Seq<char>>, St)
    decreases e, 4int,
{
    match e {
        JsExpr::Call { callee, args, .. } => if args@.len() != 1 {
            (None, st)
        } else {
            match *callee {
                JsExpr::Call { callee: ic, args: ia, .. } => if ia@.len() != 1 {
                    (None, st)
                } else {
                    let obj: Option<Option<JsExpr>> = match *ic {
                        JsExpr::Ident { name, .. } => if name@ == "effect"@ {
                            Some(None)
                        } else {
                            None
                        },
                        JsExpr::Member { object, prop, .. } => if prop@ == "effect"@ && layer(cx, *object) {
                            Some(Some(*object))
                        } else {
                            None
                        },
                        _ => None,
                    };
                    match obj {
                        None => (None, st),
                        Some(o) => {
                            let ne = ia@[0];
                            let pe = args@[0];
                            if ne is Absent || pe is Absent {
                                (None, st)
                            } else {
                                match (sel_of(ne), sel_of(pe)) {
                                    (Some(ns), Some(ps)) => match effect_slots(cx, o, ns, ps) {
                                        None => (None, refuse(st)),
                                        Some(slots) => {
                                            let (name, param) = match agreed_slot(slots) {
                                                Some((ei, pi)) => (crate::text::decimal(ei as nat), crate::text::decimal(pi as nat)),
                                                None => (txt(cx, at_of(ne)), txt(cx, at_of(pe))),
                                            };
                                            let (target, st1) = match o {
                                                None => (Some("thisLayer"@), st),
                                                Some(ox) => layer_text(cx, st, ox),
                                            };
                                            match target {
                                                Some(t) => (
                                                    Some("lyEffect("@ + t + ", "@ + name + ", "@ + param + ", frame)"@),
                                                    need(st1, "lyEffect"@),
                                                ),
                                                None => (None, st1),
                                            }
                                        },
                                    },
                                    _ => (None, refuse(st)),
                                }
                            }
                        },
                    }
                },
                _ => (None, st),
            }
        },
        _ => (None, st),
    }
}


// ---------------------------------------------------------------------------
// The statement walk and the whole rewrite
// ---------------------------------------------------------------------------

pub open spec fn cut_opt(cx: CxV, st: St, e: Option<JsExpr>, cuts: Seq<(Bytes, Seq<char>)>) -> (Seq<(Bytes, Seq<char>)>, St) {
    match e {
        Some(x) => render_one(cx, st, x, cuts),
        None => (cuts, st),
    }
}

pub open spec fn cut_inits(cx: CxV, st: St, ds: Seq<JsDecl>, cuts: Seq<(Bytes, Seq<char>)>) -> (Seq<(Bytes, Seq<char>)>, St)
    decreases ds.len(),
{
    if ds.len() == 0 {
        (cuts, st)
    } else {
        let (c1, st1) = cut_inits(cx, st, ds.drop_last(), cuts);
        cut_opt(cx, st1, ds.last().init, c1)
    }
}

/// The renderings of the expressions directly under a statement.
pub open spec fn cut_top(cx: CxV, st: St, s: JsStmt, cuts: Seq<(Bytes, Seq<char>)>) -> (Seq<(Bytes, Seq<char>)>, St) {
    match s.kind {
        JsStmtKind::Expr(e) => render_one(cx, st, e, cuts),
        JsStmtKind::Var(ds) => cut_inits(cx, st, ds@, cuts),
        JsStmtKind::If { test, .. } => render_one(cx, st, test, cuts),
        JsStmtKind::While { test, .. } => render_one(cx, st, test, cuts),
        JsStmtKind::Return(r) => cut_opt(cx, st, r, cuts),
        JsStmtKind::For { init, test, update, .. } => {
            let (c1, st1) = match init {
                Some(JsForInit::Var(ds)) => cut_inits(cx, st, ds@, cuts),
                _ => (cuts, st),
            };
            let (c2, st2) = cut_opt(cx, st1, test, c1);
            cut_opt(cx, st2, update, c2)
        },
        _ => (cuts, st),
    }
}

/// The renderings under a statement and every statement under it.
pub open spec fn cut_stmt(cx: CxV, st: St, s: JsStmt, cuts: Seq<(Bytes, Seq<char>)>) -> (Seq<(Bytes, Seq<char>)>, St)
    decreases s,
{
    let (c1, st1) = cut_top(cx, st, s, cuts);
    match s.kind {
        JsStmtKind::Block(ss) => cut_stmts(cx, st1, ss@, c1),
        JsStmtKind::If { then, other, .. } => {
            let (c2, st2) = cut_stmt(cx, st1, *then, c1);
            match other {
                Some(o) => cut_stmt(cx, st2, *o, c2),
                None => (c2, st2),
            }
        },
        JsStmtKind::For { body, .. } => cut_stmt(cx, st1, *body, c1),
        JsStmtKind::While { body, .. } => cut_stmt(cx, st1, *body, c1),
        JsStmtKind::Try { block, handler, finalizer } => {
            let (c2, st2) = cut_stmts(cx, st1, block@, c1);
            let (c3, st3) = match handler {
                Some(h) => cut_stmts(cx, st2, h@, c2),
                None => (c2, st2),
            };
            match finalizer {
                Some(f) => cut_stmts(cx, st3, f@, c3),
                None => (c3, st3),
            }
        },
        _ => (c1, st1),
    }
}

pub open spec fn cut_stmts(cx: CxV, st: St, ss: Seq<JsStmt>, cuts: Seq<(Bytes, Seq<char>)>) -> (Seq<(Bytes, Seq<char>)>, St)
    decreases ss,
{
    if ss.len() == 0 {
        (cuts, st)
    } else {
        let (c1, st1) = cut_stmts(cx, st, ss.drop_last(), cuts);
        cut_stmt(cx, st1, ss.last(), c1)
    }
}

/// Nothing found out yet.
pub open spec fn fresh() -> St {
    St { helpers: Set::empty(), refused: false, frame_duration: false }
}

/// The cuts of a parse, in character offsets of the whole body.
pub open spec fn whole_cuts(src: Seq<char>, cuts: Seq<(Bytes, Seq<char>)>) -> Seq<(int, int, Seq<char>)> {
    cuts.map_values(|c: (Bytes, Seq<char>)| (char_span(src, c.0).start as int, char_span(src, c.0).end as int, c.1))
}

/// What the rewrite makes of a parsed body against its uses: the rewritten
/// text and what rendering found out, or `None` when the body is refused — a
/// reference it cannot resolve exactly, or a layer member that survives the
/// rewrite.
pub open spec fn rewritten(src: Seq<char>, uses: Seq<Site>, index: Index, layers: SceneLayers, p: Seq<JsStmt>) -> Option<(Seq<char>, St)> {
    let cx = cx_of(src, uses, index, layers, p);
    let (cuts, st) = cut_stmts(cx, fresh(), p, seq![]);
    let wc = whole_cuts(src, cuts);
    if st.refused || !crate::expr::resolve::cuts_ok(src, wc) {
        None
    } else {
        let out = crate::expr::resolve::splice(src, wc, 0);
        if spec_verify(out) {
            None
        } else {
            Some((out, st))
        }
    }
}

/// What `thisProperty` is, when every use agrees.
pub open spec fn agreed_surface(uses: Seq<Site>) -> Option<Surface> {
    if uses.len() > 0 && forall|i: int| 0 <= i < uses.len() ==> (#[trigger] uses[i]).surface == uses[0].surface {
        Some(uses[0].surface)
    } else {
        None
    }
}


// ---------------------------------------------------------------------------
// Rendering, executed
// ---------------------------------------------------------------------------

/// What rendering has found out so far, as values.
pub struct RwState {
    pub helpers: Vec<&'static str>,
    pub refused: bool,
    pub frame_duration: bool,
}

impl RwState {
    pub open spec fn view(&self) -> St {
        St { helpers: str_views(self.helpers@).to_set(), refused: self.refused, frame_duration: self.frame_duration }
    }

    pub open spec fn wf(&self) -> bool {
        strictly_sorted(str_views(self.helpers@))
    }
}

fn need_of(st: &mut RwState, s: &'static str)
    requires
        old(st).wf(),
    ensures
        final(st).wf(),
        final(st).view() == need(old(st).view(), s@),
{
    crate::text::insert_name(&mut st.helpers, s);
    assert(st.view() =~= need(old(st).view(), s@));
}

fn refuse_of(st: &mut RwState)
    ensures
        final(st).helpers == old(st).helpers,
        final(st).view() == refuse(old(st).view()),
{
    st.refused = true;
    assert(st.view() =~= refuse(old(st).view()));
}

/// The view of an optional text.
pub open spec fn opt_text(r: Option<String>) -> Option<Seq<char>> {
    match r {
        Some(s) => Some(s@),
        None => None,
    }
}

fn at_of_exec(e: &JsExpr) -> (r: Bytes)
    ensures
        r == at_of(*e),
{
    match e {
        JsExpr::Ident { at, .. } => *at,
        JsExpr::Str { at, .. } => *at,
        JsExpr::Num { at, .. } => *at,
        JsExpr::Null { at } => *at,
        JsExpr::Call { at, .. } => *at,
        JsExpr::Member { at, .. } => *at,
        JsExpr::Index { at, .. } => *at,
        JsExpr::Array { at, .. } => *at,
        JsExpr::Paren { at, .. } => *at,
        JsExpr::Assign { at, .. } => *at,
        JsExpr::Op { at, .. } => *at,
        JsExpr::Opaque { at } => *at,
        JsExpr::Absent { at } => *at,
    }
}

fn txt_of(cx: &Cx, at: Bytes) -> (r: String)
    ensures
        r@ == txt(cx.view(), at),
{
    test_text(cx.src.as_slice(), at)
}

fn layer_of(cx: &Cx, e: &JsExpr) -> (r: bool)
    ensures
        r == layer(cx.view(), *e),
{
    is_layer_of(&cx.tabs, &cx.tys, e)
}

fn record_at_of(cx: &Cx, site: Site, e: &JsExpr) -> (r: Option<u32>)
    requires
        cx.index.wf(),
    ensures
        r == record_at(cx.view(), site, *e),
    decreases e,
{
    match e {
        JsExpr::Ident { name, .. } => if str_eq(name.as_str(), "thisLayer") {
            Some(site.owner)
        } else {
            None
        },
        JsExpr::Paren { inner, .. } => record_at_of(cx, site, &**inner),
        JsExpr::Member { object, prop, .. } => {
            if str_eq(prop.as_str(), "transform") || str_eq(prop.as_str(), "path") {
                record_at_of(cx, site, &**object)
            } else if str_eq(prop.as_str(), "parentLayer") {
                match record_at_of(cx, site, &**object) {
                    Some(r) => match records(cx.layers, site.table) {
                        Some(recs) => if (r as usize) < recs.len() {
                            recs[r as usize].parent
                        } else {
                            None
                        },
                        None => None,
                    },
                    None => None,
                }
            } else {
                None
            }
        },
        JsExpr::Call { callee, .. } => match comp_layer_name_of(e) {
            Some(n) => cx.index.by_name(site.table, site.scope, n.as_str()),
            None => match &**callee {
                JsExpr::Member { object, prop, .. } => if str_eq(prop.as_str(), "content") {
                    record_at_of(cx, site, &**object)
                } else {
                    record_at_of(cx, site, &**callee)
                },
                _ => record_at_of(cx, site, &**callee),
            },
        },
        _ => None,
    }
}

fn control_target_of(cx: &Cx, site: Site, k: u32, param: u32) -> (r: Option<Target>)
    requires
        cx.index.wf(),
    ensures
        r == control_target(cx.view(), site, k, param),
{
    let recs = match records(cx.layers, site.table) {
        Some(v) => v,
        None => return None,
    };
    if (site.owner as usize) >= recs.len() {
        return None;
    }
    let fx = &recs[site.owner as usize].effects;
    if (k as usize) < fx.len() && (param as usize) < fx[k as usize].params.len() {
        let ep = &fx[k as usize].params[param as usize];
        if ep.ty != 10 {
            None
        } else {
            match ep.value {
                Some(v) => Some(
                    match cx.index.by_index(site.table, site.scope, v) {
                        Some(r) => Target::Rec(r),
                        None => Target::NoLayer,
                    },
                ),
                None => None,
            }
        }
    } else {
        Some(Target::NoEffect)
    }
}

fn resolve_name_of(cx: &Cx, st: &mut RwState, n: &str) -> (r: Option<String>)
    requires
        cx.index.wf(),
        old(st).wf(),
    ensures
        final(st).wf(),
        opt_text(r) == resolve_name(cx.view(), old(st).view(), n@).0,
        final(st).view() == resolve_name(cx.view(), old(st).view(), n@).1,
{
    let ghost c = cx.view();
    let mut per: Vec<(Site, Target)> = Vec::new();
    let mut i: usize = 0;
    while i < cx.uses.len()
        invariant
            c == cx.view(),
            cx.index.wf(),
            i <= cx.uses@.len(),
            per@.len() == i,
            forall|j: int| 0 <= j < i ==> #[trigger] per@[j] == (
                cx.uses@[j],
                match verdict(c.index.name_state(cx.uses@[j].table, cx.uses@[j].scope, n@)) {
                    Some(r) => Target::Rec(r),
                    None => Target::NoLayer,
                },
            ),
        decreases cx.uses@.len() - i,
    {
        let s = cx.uses[i];
        let t = match cx.index.by_name(s.table, s.scope, n) {
            Some(r) => Target::Rec(r),
            None => Target::NoLayer,
        };
        per.push((s, t));
        i += 1;
    }
    assert(per@ =~= Seq::new(
        c.uses.len(),
        |j: int|
            (
                c.uses[j],
                match verdict(c.index.name_state(c.uses[j].table, c.uses[j].scope, n@)) {
                    Some(r) => Target::Rec(r),
                    None => Target::NoLayer,
                },
            ),
    ));
    match agree(per.as_slice()) {
        Some(h) => {
            need_of(st, h.helper());
            Some(h.emit())
        },
        None => {
            refuse_of(st);
            None
        },
    }
}

fn elem_handle_of(cx: &Cx, k: u32, param: u32) -> (r: Option<Handle>)
    requires
        cx.index.wf(),
    ensures
        r == elem_handle(cx.view(), k, param),
{
    let ghost c = cx.view();
    let mut per: Vec<(Site, Target)> = Vec::new();
    let mut i: usize = 0;
    while i < cx.uses.len()
        invariant
            c == cx.view(),
            cx.index.wf(),
            i <= cx.uses@.len(),
            per@.len() == i,
            forall|j: int| 0 <= j < i ==> (#[trigger] control_target(c, c.uses[j], k, param)) is Some,
            forall|j: int| 0 <= j < i ==> #[trigger] per@[j] == (c.uses[j], control_target(c, c.uses[j], k, param)->0),
        decreases cx.uses@.len() - i,
    {
        let s = cx.uses[i];
        match control_target_of(cx, s, k, param) {
            Some(t) => per.push((s, t)),
            None => {
                assert(!(control_target(c, c.uses[i as int], k, param) is Some));
                return None;
            },
        }
        i += 1;
    }
    assert(per@ =~= Seq::new(c.uses.len(), |j: int| (c.uses[j], control_target(c, c.uses[j], k, param)->0)));
    agree(per.as_slice())
}

fn u32s_eq(a: &Vec<u32>, b: &Vec<u32>) -> (r: bool)
    ensures
        r == (a@ == b@),
{
    if a.len() != b.len() {
        return false;
    }
    let mut i: usize = 0;
    while i < a.len()
        invariant
            a@.len() == b@.len(),
            i <= a@.len(),
            forall|j: int| 0 <= j < i ==> a@[j] == b@[j],
        decreases a@.len() - i,
    {
        if a[i] != b[i] {
            return false;
        }
        i += 1;
    }
    assert(a@ =~= b@);
    true
}

fn table_at_of(tb: &Tabs, at: Bytes) -> (r: Option<(u32, usize)>)
    ensures
        match r {
            Some((p, k)) => k < tb.arrays@.len() && table_at(tb.view(), at, tb.view().arrays.len() as int) == Some(
                (p, tb.arrays@[k as int].1.0@),
            ),
            None => table_at(tb.view(), at, tb.view().arrays.len() as int) is None,
        },
{
    let ghost v = tb.view();
    let mut k: usize = tb.arrays.len();
    while k > 0
        invariant
            v == tb.view(),
            k <= tb.arrays@.len(),
            table_at(v, at, v.arrays.len() as int) == table_at(v, at, k as int),
        decreases k,
    {
        let name = &tb.arrays[k - 1].0;
        let entry = &tb.arrays[k - 1].1;
        proof {
            lemma_last_at_keys(tb.arrays@, name@);
            lemma_last_at_bound(keyed(tb.used@), name@);
            lemma_last_at_bound(arrays_view(tb.arrays@), name@);
        }
        match lookup_copy(&tb.used, name.as_str()) {
            Some(Some(p)) => match last_pos(&tb.arrays, name.as_str()) {
                Some(j) => {
                    if entry.1 == at && tb.arrays[j].1.1 == entry.1 && u32s_eq(&tb.arrays[j].1.0, &entry.0) {
                        return Some((p, k - 1));
                    }
                },
                None => {},
            },
            _ => {},
        }
        k -= 1;
    }
    None
}

fn render_table_of(cx: &Cx, st: &mut RwState, at: Bytes) -> (r: Option<String>)
    requires
        cx.index.wf(),
        old(st).wf(),
    ensures
        final(st).wf(),
        opt_text(r) == render_table(cx.view(), old(st).view(), at).0,
        final(st).view() == render_table(cx.view(), old(st).view(), at).1,
{
    let ghost c = cx.view();
    match table_at_of(&cx.tabs, at) {
        None => None,
        Some((param, k)) => {
            let ks = &cx.tabs.arrays[k].1.0;
            let ghost st0 = st.view();
            let mut outs: Vec<Vec<char>> = Vec::new();
            let mut i: usize = 0;
            assert(ks@.take(0) =~= Seq::<u32>::empty());
            while i < ks.len()
                invariant
                    c == cx.view(),
                    cx.index.wf(),
                    st.wf(),
                    st0 == old(st).view(),
                    table_at(c.tabs, at, c.tabs.arrays.len() as int) == Some((param, ks@)),
                    i <= ks@.len(),
                    table_elems(c, st0, param, ks@.take(i as int)) == (
                        Some(outs@.map_values(|v: Vec<char>| v@)),
                        st.view(),
                    ),
                decreases ks@.len() - i,
            {
                assert(ks@.take(i + 1).drop_last() =~= ks@.take(i as int));
                assert(ks@.take(i + 1).last() == ks@[i as int]);
                let ghost o = outs@.map_values(|v: Vec<char>| v@);
                match elem_handle_of(cx, ks[i], param) {
                    Some(h) => {
                        need_of(st, h.helper());
                        let t = chars_of(h.emit().as_str());
                        outs.push(t);
                        assert(outs@.map_values(|v: Vec<char>| v@) =~= o.push(spec_emit(h)));
                    },
                    None => {
                        let ghost sti = st.view();
                        refuse_of(st);
                        assert(table_elems(c, st0, param, ks@.take(i + 1)) == (None::<Seq<Seq<char>>>, refuse(sti)));
                        proof {
                            lemma_table_elems_none(c, st0, param, ks@, i as int + 1);
                        }
                        assert(table_elems(c, st0, param, ks@).1 == st.view());
                        assert(table_at(c.tabs, at, c.tabs.arrays.len() as int) == Some((param, ks@)));
                        assert(st0 == old(st).view());
                        assert(render_table(c, st0, at).1 == st.view());
                        return None;
                    },
                }
                i += 1;
            }
            assert(ks@.take(ks@.len() as int) =~= ks@);
            let mut out = String::new();
            crate::text::push_str(&mut out, "[");
            crate::text::push_joined_chars(&mut out, outs.as_slice(), ", ");
            crate::text::push_str(&mut out, "]");
            Some(out)
        },
    }
}

proof fn lemma_table_elems_none(cx: CxV, st: St, param: u32, ks: Seq<u32>, n: int)
    requires
        0 < n <= ks.len(),
        table_elems(cx, st, param, ks.take(n)).0 is None,
    ensures
        table_elems(cx, st, param, ks).0 is None,
        table_elems(cx, st, param, ks).1 == table_elems(cx, st, param, ks.take(n)).1,
    decreases ks.len() - n,
{
    if n < ks.len() {
        assert(ks.take(n + 1).drop_last() =~= ks.take(n));
        lemma_table_elems_none(cx, st, param, ks, n + 1);
    } else {
        assert(ks.take(n) =~= ks);
    }
}


fn join3(a: &str, b: &str, c: &str) -> (r: String)
    ensures
        r@ == a@ + b@ + c@,
{
    let mut out = String::new();
    crate::text::push_str(&mut out, a);
    crate::text::push_str(&mut out, b);
    crate::text::push_str(&mut out, c);
    assert(out@ =~= a@ + b@ + c@);
    out
}

fn join5(a: &str, b: &str, c: &str, d: &str, e: &str) -> (r: String)
    ensures
        r@ == a@ + b@ + c@ + d@ + e@,
{
    let mut out = String::new();
    crate::text::push_str(&mut out, a);
    crate::text::push_str(&mut out, b);
    crate::text::push_str(&mut out, c);
    crate::text::push_str(&mut out, d);
    crate::text::push_str(&mut out, e);
    assert(out@ =~= a@ + b@ + c@ + d@ + e@);
    out
}

fn join7(a: &str, b: &str, c: &str, d: &str, e: &str, f: &str, g: &str) -> (r: String)
    ensures
        r@ == a@ + b@ + c@ + d@ + e@ + f@ + g@,
{
    let mut out = String::new();
    crate::text::push_str(&mut out, a);
    crate::text::push_str(&mut out, b);
    crate::text::push_str(&mut out, c);
    crate::text::push_str(&mut out, d);
    crate::text::push_str(&mut out, e);
    crate::text::push_str(&mut out, f);
    crate::text::push_str(&mut out, g);
    assert(out@ =~= a@ + b@ + c@ + d@ + e@ + f@ + g@);
    out
}

fn opt_string(o: &Option<String>) -> (r: Option<String>)
    ensures
        r == *o,
{
    match o {
        Some(s) => Some(s.clone()),
        None => None,
    }
}

fn effect_names_of(fx: &Vec<LayerEffect>) -> (r: Vec<(Option<String>, Option<String>)>)
    ensures
        r@ == effect_names(fx@),
{
    let mut r: Vec<(Option<String>, Option<String>)> = Vec::new();
    let mut i: usize = 0;
    while i < fx.len()
        invariant
            i <= fx@.len(),
            r@ == effect_names(fx@).take(i as int),
        decreases fx@.len() - i,
    {
        r.push((opt_string(&fx[i].name), opt_string(&fx[i].match_name)));
        assert(effect_names(fx@).take(i + 1) =~= effect_names(fx@).take(i as int).push((fx@[i as int].name, fx@[i as int].match_name)));
        i += 1;
    }
    assert(effect_names(fx@).take(fx@.len() as int) =~= effect_names(fx@));
    r
}

fn param_names_of(ps: &Vec<LayerParam>) -> (r: Vec<(Option<String>, Option<String>)>)
    ensures
        r@ == param_names(ps@),
{
    let mut r: Vec<(Option<String>, Option<String>)> = Vec::new();
    let mut i: usize = 0;
    while i < ps.len()
        invariant
            i <= ps@.len(),
            r@ == param_names(ps@).take(i as int),
        decreases ps@.len() - i,
    {
        r.push((opt_string(&ps[i].name), opt_string(&ps[i].match_name)));
        assert(param_names(ps@).take(i + 1) =~= param_names(ps@).take(i as int).push((ps@[i as int].name, ps@[i as int].match_name)));
        i += 1;
    }
    assert(param_names(ps@).take(ps@.len() as int) =~= param_names(ps@));
    r
}

fn answers_of(p: &(Option<String>, Option<String>), w: &str) -> (r: bool)
    ensures
        r == answers(*p, w@),
{
    let a = match &p.0 {
        Some(x) => str_eq(x.as_str(), w),
        None => false,
    };
    let b = match &p.1 {
        Some(x) => str_eq(x.as_str(), w),
        None => false,
    };
    a || b
}

fn pick_of(sel: &Sel, names: &Vec<(Option<String>, Option<String>)>) -> (r: Option<Option<u32>>)
    ensures
        r == pick(*sel, names@),
{
    match sel {
        Sel::Idx(i) => Some(if (*i as usize) < names.len() {
            Some(*i)
        } else {
            None
        }),
        Sel::Name(want) => {
            let mut found: Option<usize> = None;
            let mut k: usize = 0;
            while k < names.len()
                invariant
                    *sel matches Sel::Name(w) && w@ == want@,
                    k <= names@.len(),
                    match found {
                        None => forall|j: int| 0 <= j < k ==> !answers(#[trigger] names@[j], want@),
                        Some(f) => f < k && answers(names@[f as int], want@) && forall|j: int|
                            0 <= j < k && j != f ==> !answers(#[trigger] names@[j], want@),
                    },
                decreases names@.len() - k,
            {
                if answers_of(&names[k], want.as_str()) {
                    if let Some(f) = found {
                        assert(answers(names@[f as int], want@));
                        assert(exists|a: int, b: int|
                            0 <= a < b < names@.len() && answers(#[trigger] names@[a], want@) && answers(
                                #[trigger] names@[b],
                                want@,
                            )) by {
                            assert(0 <= f as int && (f as int) < k as int && (k as int) < names@.len());
                        }
                        return None;
                    }
                    found = Some(k);
                }
                k += 1;
            }
            proof {
                match found {
                    Some(f) => {
                        let c = choose|j: int| 0 <= j < names@.len() && answers(#[trigger] names@[j], want@);
                        assert(c == f as int);
                    },
                    None => {},
                }
            }
            match found {
                Some(f) => Some(Some(f as u32)),
                None => Some(None),
            }
        },
    }
}

/// An optional borrowed expression as a value.
pub open spec fn opt_expr(o: Option<&JsExpr>) -> Option<JsExpr> {
    match o {
        Some(x) => Some(*x),
        None => None,
    }
}

fn slot_at_of(cx: &Cx, site: Site, obj: Option<&JsExpr>, nsel: &Sel, psel: &Sel) -> (r: Option<Option<(u32, u32)>>)
    requires
        cx.index.wf(),
    ensures
        r == slot_at(cx.view(), site, opt_expr(obj), *nsel, *psel),
{
    let rec = match obj {
        None => Some(site.owner),
        Some(o) => record_at_of(cx, site, o),
    };
    let r = match rec {
        Some(r) => r,
        None => return None,
    };
    let recs = match records(cx.layers, site.table) {
        Some(v) => v,
        None => return None,
    };
    if (r as usize) >= recs.len() {
        return None;
    }
    let fx = &recs[r as usize].effects;
    let en = effect_names_of(fx);
    match pick_of(nsel, &en) {
        None => None,
        Some(None) => Some(None),
        Some(Some(ei)) => {
            if (ei as usize) >= fx.len() {
                return None;
            }
            let ps = &fx[ei as usize].params;
            let pn = param_names_of(ps);
            match pick_of(psel, &pn) {
                None => None,
                Some(None) => Some(None),
                Some(Some(pi)) => if (pi as usize) < ps.len() && ps[pi as usize].ty != 10 {
                    Some(Some((ei, pi)))
                } else {
                    None
                },
            }
        },
    }
}

fn effect_slots_of(cx: &Cx, obj: Option<&JsExpr>, nsel: &Sel, psel: &Sel) -> (r: Option<Vec<Option<(u32, u32)>>>)
    requires
        cx.index.wf(),
    ensures
        match r {
            Some(v) => effect_slots(cx.view(), opt_expr(obj), *nsel, *psel) == Some(v@),
            None => effect_slots(cx.view(), opt_expr(obj), *nsel, *psel) is None,
        },
{
    let ghost c = cx.view();
    let ghost o = opt_expr(obj);
    let mut out: Vec<Option<(u32, u32)>> = Vec::new();
    let mut i: usize = 0;
    while i < cx.uses.len()
        invariant
            c == cx.view(),
            o == opt_expr(obj),
            cx.index.wf(),
            i <= cx.uses@.len(),
            out@.len() == i,
            forall|j: int| 0 <= j < i ==> (#[trigger] slot_at(c, c.uses[j], o, *nsel, *psel)) is Some,
            forall|j: int| 0 <= j < i ==> #[trigger] out@[j] == slot_at(c, c.uses[j], o, *nsel, *psel)->0,
        decreases cx.uses@.len() - i,
    {
        match slot_at_of(cx, cx.uses[i], obj, nsel, psel) {
            Some(s) => out.push(s),
            None => {
                assert(!(slot_at(c, c.uses[i as int], o, *nsel, *psel) is Some));
                return None;
            },
        }
        i += 1;
    }
    assert(out@ =~= Seq::new(c.uses.len(), |j: int| slot_at(c, c.uses[j], o, *nsel, *psel)->0));
    Some(out)
}

fn agreed_slot_of(slots: &Vec<Option<(u32, u32)>>) -> (r: Option<(u32, u32)>)
    ensures
        r == agreed_slot(slots@),
{
    if slots.len() == 0 {
        return None;
    }
    let first = match slots[0] {
        Some(f) => f,
        None => return None,
    };
    let mut i: usize = 0;
    while i < slots.len()
        invariant
            slots@.len() > 0,
            slots@[0] == Some(first),
            i <= slots@.len(),
            forall|j: int| 0 <= j < i ==> #[trigger] slots@[j] == slots@[0],
        decreases slots@.len() - i,
    {
        if slots[i] != Some(first) {
            return None;
        }
        i += 1;
    }
    Some(first)
}

fn sel_of_exec(e: &JsExpr) -> (r: Option<Sel>)
    ensures
        r == sel_of(*e),
{
    match e {
        JsExpr::Num { value: Some(i), .. } => Some(Sel::Idx(*i)),
        JsExpr::Str { value, .. } => Some(Sel::Name(value.clone())),
        _ => None,
    }
}

/// The view of exec cuts by parser range.
pub open spec fn cut_texts(cuts: Seq<(Bytes, String)>) -> Seq<(Bytes, Seq<char>)> {
    cuts.map_values(|c: (Bytes, String)| (c.0, c.1@))
}

fn splice_at_of(cx: &Cx, st: &mut RwState, at: Bytes, cuts: &Vec<(Bytes, String)>) -> (r: Option<String>)
    requires
        old(st).wf(),
    ensures
        final(st).wf(),
        opt_text(r) == splice_at(cx.view(), old(st).view(), at, cut_texts(cuts@)).0,
        final(st).view() == splice_at(cx.view(), old(st).view(), at, cut_texts(cuts@)).1,
{
    let ghost c = cx.view();
    let ghost cv = cut_texts(cuts@);
    if cuts.len() == 0 {
        return None;
    }
    let src = cx.src.as_slice();
    let base = span_of(src, at).start;
    let ghost rel = cv.map_values(
        |x: (Bytes, Seq<char>)| (char_span(c.src, x.0).start - base, char_span(c.src, x.0).end - base, x.1),
    );
    let mut list: Vec<(usize, usize, Vec<char>)> = Vec::new();
    let mut i: usize = 0;
    let ghost st_in = st.view();
    while i < cuts.len()
        invariant
            c == cx.view(),
            st.wf(),
            st.view() == st_in,
            st_in == old(st).view(),
            src@ == c.src,
            cv == cut_texts(cuts@),
            base == char_span(c.src, at).start,
            rel == cv.map_values(
                |x: (Bytes, Seq<char>)| (char_span(c.src, x.0).start - base, char_span(c.src, x.0).end - base, x.1),
            ),
            i <= cuts@.len(),
            crate::expr::resolve::cut_views(list@) == rel.take(i as int),
        decreases cuts@.len() - i,
    {
        let s = span_of(src, cuts[i].0);
        if s.start < base || s.end < base {
            let ghost whole = txt(c, at);
            assert(!crate::expr::resolve::cuts_ok(whole, rel)) by {
                assert(rel[i as int].0 < 0 || rel[i as int].1 < rel[i as int].0 || rel[i as int].0 < 0);
            }
            refuse_of(st);
            return None;
        }
        let t = chars_of(cuts[i].1.as_str());
        let ghost before = crate::expr::resolve::cut_views(list@);
        list.push((s.start - base, s.end - base, t));
        assert(crate::expr::resolve::cut_views(list@) =~= before.push(rel[i as int]));
        assert(rel.take(i + 1) =~= rel.take(i as int).push(rel[i as int]));
        i += 1;
    }
    assert(rel.take(cuts@.len() as int) =~= rel);
    let whole = chars_of(txt_of(cx, at).as_str());
    if crate::expr::resolve::cuts_fit(whole.as_slice(), &list) {
        let out = crate::expr::resolve::apply_cuts(whole.as_slice(), &list);
        Some(crate::text::string_of(out.as_slice()))
    } else {
        refuse_of(st);
        None
    }
}


fn lit(a: &str) -> (r: String)
    ensures
        r@ == a@,
{
    let mut out = String::new();
    crate::text::push_str(&mut out, a);
    assert(out@ =~= a@);
    out
}

fn join2(a: &str, b: &str) -> (r: String)
    ensures
        r@ == a@ + b@,
{
    let mut out = String::new();
    crate::text::push_str(&mut out, a);
    crate::text::push_str(&mut out, b);
    assert(out@ =~= a@ + b@);
    out
}

fn join4(a: &str, b: &str, c: &str, d: &str) -> (r: String)
    ensures
        r@ == a@ + b@ + c@ + d@,
{
    let mut out = String::new();
    crate::text::push_str(&mut out, a);
    crate::text::push_str(&mut out, b);
    crate::text::push_str(&mut out, c);
    crate::text::push_str(&mut out, d);
    assert(out@ =~= a@ + b@ + c@ + d@);
    out
}

fn render_of(cx: &Cx, st: &mut RwState, e: &JsExpr) -> (r: Option<String>)
    requires
        cx.index.wf(),
        old(st).wf(),
    ensures
        final(st).wf(),
        opt_text(r) == render(cx.view(), old(st).view(), *e).0,
        final(st).view() == render(cx.view(), old(st).view(), *e).1,
    decreases e, 6int,
{
    let tbl = match e {
        JsExpr::Array { at, .. } => render_table_of(cx, st, *at),
        _ => None,
    };
    if tbl.is_some() {
        return tbl;
    }
    if layer_of(cx, e) {
        let is_path = match e {
            JsExpr::Member { prop, .. } => str_eq(prop.as_str(), "path"),
            _ => false,
        };
        if is_path {
            match layer_text_of(cx, st, e) {
                Some(obj) => {
                    need_of(st, "lyPath");
                    Some(join3("lyPath(", obj.as_str(), ", frame)"))
                },
                None => None,
            }
        } else {
            match layer_text_of(cx, st, e) {
                Some(x) => {
                    let orig = txt_of(cx, at_of_exec(e));
                    if str_eq(x.as_str(), orig.as_str()) {
                        None
                    } else {
                        Some(x)
                    }
                },
                None => None,
            }
        }
    } else {
        match e {
            JsExpr::Member { .. } => render_member_of(cx, st, e),
            JsExpr::Call { .. } => render_call_of(cx, st, e),
            _ => render_children_of(cx, st, e),
        }
    }
}

fn arg_text_of(cx: &Cx, st: &mut RwState, a: &JsExpr) -> (r: Option<String>)
    requires
        cx.index.wf(),
        old(st).wf(),
    ensures
        final(st).wf(),
        opt_text(r) == arg_text(cx.view(), old(st).view(), *a).0,
        final(st).view() == arg_text(cx.view(), old(st).view(), *a).1,
    decreases a, 7int,
{
    if let JsExpr::Absent { .. } = a {
        return None;
    }
    match render_of(cx, st, a) {
        Some(t) => Some(t),
        None => Some(txt_of(cx, at_of_exec(a))),
    }
}

fn render_one_of(cx: &Cx, st: &mut RwState, x: &JsExpr, cuts: &mut Vec<(Bytes, String)>)
    requires
        cx.index.wf(),
        old(st).wf(),
    ensures
        final(st).wf(),
        cut_texts(final(cuts)@) == render_one(cx.view(), old(st).view(), *x, cut_texts(old(cuts)@)).0,
        final(st).view() == render_one(cx.view(), old(st).view(), *x, cut_texts(old(cuts)@)).1,
    decreases x, 7int,
{
    let ghost c0 = cut_texts(cuts@);
    match render_of(cx, st, x) {
        Some(t) => {
            let ghost tv = t@;
            cuts.push((at_of_exec(x), t));
            assert(cut_texts(cuts@) =~= c0.push((at_of(*x), tv)));
        },
        None => {},
    }
}

fn render_list_of(cx: &Cx, st: &mut RwState, xs: &Vec<JsExpr>, cuts: &mut Vec<(Bytes, String)>)
    requires
        cx.index.wf(),
        old(st).wf(),
    ensures
        final(st).wf(),
        cut_texts(final(cuts)@) == render_list(cx.view(), old(st).view(), xs@, cut_texts(old(cuts)@)).0,
        final(st).view() == render_list(cx.view(), old(st).view(), xs@, cut_texts(old(cuts)@)).1,
    decreases xs, 8int,
{
    let ghost c = cx.view();
    let ghost s0 = st.view();
    let ghost k0 = cut_texts(cuts@);
    let mut i: usize = 0;
    assert(xs@.take(0) =~= Seq::<JsExpr>::empty());
    while i < xs.len()
        invariant
            c == cx.view(),
            cx.index.wf(),
            st.wf(),
            i <= xs@.len(),
            render_list(c, s0, xs@.take(i as int), k0) == (cut_texts(cuts@), st.view()),
        decreases xs@.len() - i,
    {
        assert(xs@.take(i + 1).drop_last() =~= xs@.take(i as int));
        assert(xs@.take(i + 1).last() == xs@[i as int]);
        render_one_of(cx, st, &xs[i], cuts);
        i += 1;
    }
    assert(xs@.take(xs@.len() as int) =~= xs@);
}

fn render_children_of(cx: &Cx, st: &mut RwState, e: &JsExpr) -> (r: Option<String>)
    requires
        cx.index.wf(),
        old(st).wf(),
    ensures
        final(st).wf(),
        opt_text(r) == render_children(cx.view(), old(st).view(), *e).0,
        final(st).view() == render_children(cx.view(), old(st).view(), *e).1,
    decreases e, 4int,
{
    let mut cuts: Vec<(Bytes, String)> = Vec::new();
    assert(cut_texts(cuts@) =~= Seq::<(Bytes, Seq<char>)>::empty());
    match e {
        JsExpr::Call { callee, args, .. } => {
            render_one_of(cx, st, &**callee, &mut cuts);
            render_list_of(cx, st, args, &mut cuts);
        },
        JsExpr::Member { object, .. } => render_one_of(cx, st, &**object, &mut cuts),
        JsExpr::Index { object, index, .. } => {
            render_one_of(cx, st, &**object, &mut cuts);
            render_one_of(cx, st, &**index, &mut cuts);
        },
        JsExpr::Paren { inner, .. } => render_one_of(cx, st, &**inner, &mut cuts),
        JsExpr::Assign { value, .. } => render_one_of(cx, st, &**value, &mut cuts),
        JsExpr::Op { parts, .. } => render_list_of(cx, st, parts, &mut cuts),
        JsExpr::Array { elems, .. } => render_list_of(cx, st, elems, &mut cuts),
        _ => {},
    }
    splice_at_of(cx, st, at_of_exec(e), &cuts)
}

fn layer_text_if_layer_of(cx: &Cx, st: &mut RwState, e: &JsExpr) -> (r: Option<String>)
    requires
        cx.index.wf(),
        old(st).wf(),
    ensures
        final(st).wf(),
        opt_text(r) == layer_text_if_layer(cx.view(), old(st).view(), *e).0,
        final(st).view() == layer_text_if_layer(cx.view(), old(st).view(), *e).1,
    decreases e, 3int,
{
    if !layer_of(cx, e) {
        None
    } else {
        layer_text_of(cx, st, e)
    }
}

fn layer_text_of(cx: &Cx, st: &mut RwState, e: &JsExpr) -> (r: Option<String>)
    requires
        cx.index.wf(),
        old(st).wf(),
    ensures
        final(st).wf(),
        opt_text(r) == layer_text(cx.view(), old(st).view(), *e).0,
        final(st).view() == layer_text(cx.view(), old(st).view(), *e).1,
    decreases e, 2int,
{
    match e {
        JsExpr::Ident { name, .. } => Some(name.clone()),
        JsExpr::Paren { inner, .. } => layer_text_of(cx, st, &**inner),
        JsExpr::Index { object, index, at } => {
            let idx = render_of(cx, st, &**index);
            match idx {
                Some(t) => {
                    let obj = txt_of(cx, at_of_exec(&**object));
                    Some(join4(obj.as_str(), "[", t.as_str(), "]"))
                },
                None => Some(txt_of(cx, *at)),
            }
        },
        JsExpr::Member { object, prop, .. } => {
            if str_eq(prop.as_str(), "transform") || str_eq(prop.as_str(), "path") {
                layer_text_of(cx, st, &**object)
            } else if str_eq(prop.as_str(), "parentLayer") {
                match layer_text_of(cx, st, &**object) {
                    Some(x) => {
                        need_of(st, "lyParent");
                        Some(join3("lyParent(", x.as_str(), ")"))
                    },
                    None => None,
                }
            } else {
                None
            }
        },
        JsExpr::Call { callee, .. } => match comp_layer_name_of(e) {
            Some(n) => resolve_name_of(cx, st, n.as_str()),
            None => match control_index_of(&cx.tabs, e) {
                Some(at) => Some(txt_of(cx, at)),
                None => match &**callee {
                    JsExpr::Member { object, prop, .. } => if str_eq(prop.as_str(), "content") {
                        layer_text_of(cx, st, &**object)
                    } else {
                        layer_text_of(cx, st, &**callee)
                    },
                    _ => layer_text_of(cx, st, &**callee),
                },
            },
        },
        _ => None,
    }
}

fn scalar_sym_of(prop: &str) -> (r: Option<&'static str>)
    ensures
        match r {
            Some(s) => scalar_sym(prop@) == Some(s@),
            None => scalar_sym(prop@) is None,
        },
{
    if str_eq(prop, "position") {
        Some("lyPos")
    } else if str_eq(prop, "anchorPoint") {
        Some("lyAnchor")
    } else if str_eq(prop, "scale") {
        Some("lyScale")
    } else if str_eq(prop, "rotation") {
        Some("lyRot")
    } else if str_eq(prop, "opacity") {
        Some("lyOpacity")
    } else {
        None
    }
}

fn render_member_of(cx: &Cx, st: &mut RwState, e: &JsExpr) -> (r: Option<String>)
    requires
        cx.index.wf(),
        old(st).wf(),
    ensures
        final(st).wf(),
        opt_text(r) == render_member(cx.view(), old(st).view(), *e).0,
        final(st).view() == render_member(cx.view(), old(st).view(), *e).1,
    decreases e, 5int,
{
    match e {
        JsExpr::Member { object, prop, .. } => {
            if name_is(&**object, "thisComp") && str_eq(prop.as_str(), "frameDuration") {
                st.frame_duration = true;
                assert(st.view() =~= St { frame_duration: true, ..old(st).view() });
                return Some(lit("frameDuration"));
            }
            match layer_text_if_layer_of(cx, st, &**object) {
                None => render_children_of(cx, st, e),
                Some(obj) => match scalar_sym_of(prop.as_str()) {
                    Some(sym) => {
                        need_of(st, sym);
                        Some(join4(sym, "(", obj.as_str(), ", frame)"))
                    },
                    None => if str_eq(prop.as_str(), "index") {
                        Some(join2(obj.as_str(), ".i"))
                    } else if str_eq(prop.as_str(), "name") {
                        Some(join3("(", obj.as_str(), ".n ?? null)"))
                    } else {
                        refuse_of(st);
                        None
                    },
                },
            }
        },
        _ => None,
    }
}


fn render_method_of(cx: &Cx, st: &mut RwState, obj: String, prop: &str, args: &Vec<JsExpr>) -> (r: Option<String>)
    requires
        cx.index.wf(),
        old(st).wf(),
    ensures
        final(st).wf(),
        opt_text(r) == render_method(cx.view(), old(st).view(), obj@, prop@, args@).0,
        final(st).view() == render_method(cx.view(), old(st).view(), obj@, prop@, args@).1,
    decreases args, 7int,
{
    let ghost c = cx.view();
    let ghost s0 = st.view();
    let takes_arg = str_eq(prop, "toComp") || str_eq(prop, "fromCompToSurface") || str_eq(prop, "pointOnPath")
        || str_eq(prop, "tangentOnPath");
    if takes_arg {
        let a = if args.len() > 0 {
            arg_text_of(cx, st, &args[0])
        } else {
            Some(lit(""))
        };
        proof {
            reveal_strlit("");
        }
        let a = match a {
            Some(x) => x,
            None => return None,
        };
        if str_eq(prop, "toComp") {
            need_of(st, "toComp");
            Some(join5("toComp(", obj.as_str(), ", ", a.as_str(), ", frame)"))
        } else if str_eq(prop, "fromCompToSurface") {
            need_of(st, "fromCompToSurface");
            Some(join5("fromCompToSurface(", a.as_str(), ", ", obj.as_str(), ", frame)"))
        } else if str_eq(prop, "pointOnPath") {
            need_of(st, "pointOnPath");
            need_of(st, "lyPath");
            Some(join7("pointOnPath", "(lyPath(", obj.as_str(), ", frame), ", a.as_str(), ")", ""))
        } else {
            need_of(st, "tangentOnPath");
            need_of(st, "lyPath");
            Some(join7("tangentOnPath", "(lyPath(", obj.as_str(), ", frame), ", a.as_str(), ")", ""))
        }
    } else if str_eq(prop, "points") {
        need_of(st, "lyPoints");
        Some(join3("lyPoints(", obj.as_str(), ", frame)"))
    } else if str_eq(prop, "inTangents") {
        need_of(st, "lyPoints");
        Some(join3("lyPoints(", obj.as_str(), ", frame, 'i')"))
    } else if str_eq(prop, "outTangents") {
        need_of(st, "lyPoints");
        Some(join3("lyPoints(", obj.as_str(), ", frame, 'o')"))
    } else if str_eq(prop, "isClosed") {
        need_of(st, "lyClosed");
        Some(join3("lyClosed(", obj.as_str(), ", frame)"))
    } else {
        refuse_of(st);
        None
    }
}

fn render_call_of(cx: &Cx, st: &mut RwState, e: &JsExpr) -> (r: Option<String>)
    requires
        cx.index.wf(),
        old(st).wf(),
    ensures
        final(st).wf(),
        opt_text(r) == render_call(cx.view(), old(st).view(), *e).0,
        final(st).view() == render_call(cx.view(), old(st).view(), *e).1,
    decreases e, 5int,
{
    match e {
        JsExpr::Call { callee, args, .. } => {
            if name_is(&**callee, "fromCompToSurface") && args.len() == 1 {
                return match arg_text_of(cx, st, &args[0]) {
                    Some(p) => {
                        need_of(st, "fromCompToSurface");
                        Some(join3("fromCompToSurface(", p.as_str(), ", thisLayer, frame)"))
                    },
                    None => None,
                };
            }
            let ef = render_effect_of(cx, st, e);
            if ef.is_some() {
                return ef;
            }
            match &**callee {
                JsExpr::Member { object, prop, .. } => match layer_text_if_layer_of(cx, st, &**object) {
                    None => render_children_of(cx, st, e),
                    Some(obj) => render_method_of(cx, st, obj, prop.as_str(), args),
                },
                _ => render_children_of(cx, st, e),
            }
        },
        _ => None,
    }
}

fn render_effect_of(cx: &Cx, st: &mut RwState, e: &JsExpr) -> (r: Option<String>)
    requires
        cx.index.wf(),
        old(st).wf(),
    ensures
        final(st).wf(),
        opt_text(r) == render_effect(cx.view(), old(st).view(), *e).0,
        final(st).view() == render_effect(cx.view(), old(st).view(), *e).1,
    decreases e, 4int,
{
    let (callee, args) = match e {
        JsExpr::Call { callee, args, .. } => (callee, args),
        _ => return None,
    };
    if args.len() != 1 {
        return None;
    }
    let (ic, ia) = match &**callee {
        JsExpr::Call { callee: ic, args: ia, .. } => (ic, ia),
        _ => return None,
    };
    if ia.len() != 1 {
        return None;
    }
    let obj: Option<&JsExpr> = match &**ic {
        JsExpr::Ident { name, .. } => if str_eq(name.as_str(), "effect") {
            None
        } else {
            return None;
        },
        JsExpr::Member { object, prop, .. } => if str_eq(prop.as_str(), "effect") && layer_of(cx, &**object) {
            Some(&**object)
        } else {
            return None;
        },
        _ => return None,
    };
    let ne = &ia[0];
    let pe = &args[0];
    if let JsExpr::Absent { .. } = ne {
        return None;
    }
    if let JsExpr::Absent { .. } = pe {
        return None;
    }
    let (nsel, psel) = match (sel_of_exec(ne), sel_of_exec(pe)) {
        (Some(a), Some(b)) => (a, b),
        _ => {
            refuse_of(st);
            return None;
        },
    };
    let slots = match effect_slots_of(cx, obj, &nsel, &psel) {
        Some(s) => s,
        None => {
            refuse_of(st);
            return None;
        },
    };
    let (name, param) = match agreed_slot_of(&slots) {
        Some((ei, pi)) => (crate::text::decimal_string(ei as u64), crate::text::decimal_string(pi as u64)),
        None => (txt_of(cx, at_of_exec(ne)), txt_of(cx, at_of_exec(pe))),
    };
    let target = match obj {
        None => Some(lit("thisLayer")),
        Some(o) => layer_text_of(cx, st, o),
    };
    match target {
        Some(t) => {
            need_of(st, "lyEffect");
            Some(join7("lyEffect(", t.as_str(), ", ", name.as_str(), ", ", param.as_str(), ", frame)"))
        },
        None => None,
    }
}


fn cut_opt_of(cx: &Cx, st: &mut RwState, e: &Option<JsExpr>, cuts: &mut Vec<(Bytes, String)>)
    requires
        cx.index.wf(),
        old(st).wf(),
    ensures
        final(st).wf(),
        cut_texts(final(cuts)@) == cut_opt(cx.view(), old(st).view(), *e, cut_texts(old(cuts)@)).0,
        final(st).view() == cut_opt(cx.view(), old(st).view(), *e, cut_texts(old(cuts)@)).1,
{
    match e {
        Some(x) => render_one_of(cx, st, x, cuts),
        None => {},
    }
}

fn cut_inits_of(cx: &Cx, st: &mut RwState, ds: &Vec<JsDecl>, cuts: &mut Vec<(Bytes, String)>)
    requires
        cx.index.wf(),
        old(st).wf(),
    ensures
        final(st).wf(),
        cut_texts(final(cuts)@) == cut_inits(cx.view(), old(st).view(), ds@, cut_texts(old(cuts)@)).0,
        final(st).view() == cut_inits(cx.view(), old(st).view(), ds@, cut_texts(old(cuts)@)).1,
{
    let ghost c = cx.view();
    let ghost s0 = st.view();
    let ghost k0 = cut_texts(cuts@);
    let mut i: usize = 0;
    assert(ds@.take(0) =~= Seq::<JsDecl>::empty());
    while i < ds.len()
        invariant
            c == cx.view(),
            cx.index.wf(),
            st.wf(),
            i <= ds@.len(),
            cut_inits(c, s0, ds@.take(i as int), k0) == (cut_texts(cuts@), st.view()),
        decreases ds@.len() - i,
    {
        assert(ds@.take(i + 1).drop_last() =~= ds@.take(i as int));
        assert(ds@.take(i + 1).last() == ds@[i as int]);
        cut_opt_of(cx, st, &ds[i].init, cuts);
        i += 1;
    }
    assert(ds@.take(ds@.len() as int) =~= ds@);
}

fn cut_stmt_of(cx: &Cx, st: &mut RwState, s: &JsStmt, cuts: &mut Vec<(Bytes, String)>)
    requires
        cx.index.wf(),
        old(st).wf(),
    ensures
        final(st).wf(),
        cut_texts(final(cuts)@) == cut_stmt(cx.view(), old(st).view(), *s, cut_texts(old(cuts)@)).0,
        final(st).view() == cut_stmt(cx.view(), old(st).view(), *s, cut_texts(old(cuts)@)).1,
    decreases s,
{
    match &s.kind {
        JsStmtKind::Expr(e) => render_one_of(cx, st, e, cuts),
        JsStmtKind::Var(ds) => cut_inits_of(cx, st, ds, cuts),
        JsStmtKind::If { test, .. } => render_one_of(cx, st, test, cuts),
        JsStmtKind::While { test, .. } => render_one_of(cx, st, test, cuts),
        JsStmtKind::Return(r) => cut_opt_of(cx, st, r, cuts),
        JsStmtKind::For { init, test, update, .. } => {
            match init {
                Some(JsForInit::Var(ds)) => cut_inits_of(cx, st, ds, cuts),
                _ => {},
            }
            cut_opt_of(cx, st, test, cuts);
            cut_opt_of(cx, st, update, cuts);
        },
        _ => {},
    }
    match &s.kind {
        JsStmtKind::Block(ss) => cut_stmts_of(cx, st, ss.as_slice(), cuts),
        JsStmtKind::If { then, other, .. } => {
            cut_stmt_of(cx, st, &**then, cuts);
            match other {
                Some(o) => cut_stmt_of(cx, st, &**o, cuts),
                None => {},
            }
        },
        JsStmtKind::For { body, .. } => cut_stmt_of(cx, st, &**body, cuts),
        JsStmtKind::While { body, .. } => cut_stmt_of(cx, st, &**body, cuts),
        JsStmtKind::Try { block, handler, finalizer } => {
            cut_stmts_of(cx, st, block.as_slice(), cuts);
            match handler {
                Some(h) => cut_stmts_of(cx, st, h.as_slice(), cuts),
                None => {},
            }
            match finalizer {
                Some(f) => cut_stmts_of(cx, st, f.as_slice(), cuts),
                None => {},
            }
        },
        _ => {},
    }
}

fn cut_stmts_of(cx: &Cx, st: &mut RwState, ss: &[JsStmt], cuts: &mut Vec<(Bytes, String)>)
    requires
        cx.index.wf(),
        old(st).wf(),
    ensures
        final(st).wf(),
        cut_texts(final(cuts)@) == cut_stmts(cx.view(), old(st).view(), ss@, cut_texts(old(cuts)@)).0,
        final(st).view() == cut_stmts(cx.view(), old(st).view(), ss@, cut_texts(old(cuts)@)).1,
    decreases ss@,
{
    let ghost c = cx.view();
    let ghost s0 = st.view();
    let ghost k0 = cut_texts(cuts@);
    let mut i: usize = 0;
    assert(ss@.take(0) =~= Seq::<JsStmt>::empty());
    while i < ss.len()
        invariant
            c == cx.view(),
            cx.index.wf(),
            st.wf(),
            i <= ss@.len(),
            cut_stmts(c, s0, ss@.take(i as int), k0) == (cut_texts(cuts@), st.view()),
        decreases ss@.len() - i,
    {
        assert(ss@.take(i + 1).drop_last() =~= ss@.take(i as int));
        assert(ss@.take(i + 1).last() == ss@[i as int]);
        cut_stmt_of(cx, st, &ss[i], cuts);
        i += 1;
    }
    assert(ss@.take(ss@.len() as int) =~= ss@);
}

fn surface_of(uses: &[Site]) -> (r: Option<Surface>)
    ensures
        r == agreed_surface(uses@),
{
    if uses.len() == 0 {
        return None;
    }
    let first = uses[0].surface;
    let mut i: usize = 0;
    while i < uses.len()
        invariant
            uses@.len() > 0,
            first == uses@[0].surface,
            i <= uses@.len(),
            forall|j: int| 0 <= j < i ==> (#[trigger] uses@[j]).surface == first,
        decreases uses@.len() - i,
    {
        if uses[i].surface != first {
            return None;
        }
        i += 1;
    }
    Some(first)
}

fn uses_vec(uses: &[Site]) -> (r: Vec<Site>)
    ensures
        r@ == uses@,
{
    let mut r: Vec<Site> = Vec::new();
    let mut i: usize = 0;
    while i < uses.len()
        invariant
            i <= uses@.len(),
            r@ == uses@.take(i as int),
        decreases uses@.len() - i,
    {
        r.push(uses[i]);
        assert(uses@.take(i + 1) =~= uses@.take(i as int).push(uses@[i as int]));
        i += 1;
    }
    assert(uses@.take(uses@.len() as int) =~= uses@);
    r
}

/// Rewrite one body against the properties that use it: every layer
/// reference becomes `lyAt`/`lyRel` and every layer access a free call.
///
/// `None` when the body does not parse, when a reference or an access cannot
/// be resolved exactly for every use, or when a layer member survives the
/// rewrite ([`verify`]): the caller reports the body. A body that reaches no
/// layer comes back exactly as it was.
pub fn plan_body(body: &str, uses: &[Site], index: &Index, layers: &SceneLayers) -> (r: Option<Plan>)
    requires
        index.wf(),
    ensures
        r matches Some(p) ==> !spec_verify(p.body@),
        match js_syntax(body@) {
            None => r is None,
            Some(p) => match rewritten(body@, uses@, *index, *layers, p) {
                None => r is None,
                Some((out, st)) => r matches Some(pl) && pl.body@ == out && strictly_sorted(str_views(pl.helpers@))
                    && str_views(pl.helpers@).to_set() == st.helpers && pl.frame_duration == st.frame_duration
                    && pl.surface == agreed_surface(uses@),
            },
        },
{
    let surface = surface_of(uses);
    let p = match parse_js(body) {
        Some(p) => p,
        None => return None,
    };
    let tabs = tables_in(p.as_slice());
    let tys = types_in(&tabs, p.as_slice());
    let cx = Cx { src: chars_of(body), uses: uses_vec(uses), index, layers, tabs, tys };
    assert(cx.view() == cx_of(body@, uses@, *index, *layers, p@));
    let mut st = RwState { helpers: Vec::new(), refused: false, frame_duration: false };
    assert(str_views(st.helpers@) =~= Seq::<Seq<char>>::empty());
    assert(st.view() =~= fresh());
    let mut cuts: Vec<(Bytes, String)> = Vec::new();
    assert(cut_texts(cuts@) =~= Seq::<(Bytes, Seq<char>)>::empty());
    cut_stmts_of(&cx, &mut st, p.as_slice(), &mut cuts);
    if st.refused {
        return None;
    }
    let src = cx.src.as_slice();
    let ghost wc = whole_cuts(body@, cut_texts(cuts@));
    let mut list: Vec<(usize, usize, Vec<char>)> = Vec::new();
    let mut i: usize = 0;
    while i < cuts.len()
        invariant
            src@ == body@,
            wc == whole_cuts(body@, cut_texts(cuts@)),
            i <= cuts@.len(),
            crate::expr::resolve::cut_views(list@) == wc.take(i as int),
        decreases cuts@.len() - i,
    {
        let s = span_of(src, cuts[i].0);
        let t = chars_of(cuts[i].1.as_str());
        let ghost before = crate::expr::resolve::cut_views(list@);
        list.push((s.start, s.end, t));
        assert(crate::expr::resolve::cut_views(list@) =~= before.push(wc[i as int]));
        assert(wc.take(i + 1) =~= wc.take(i as int).push(wc[i as int]));
        i += 1;
    }
    assert(wc.take(cuts@.len() as int) =~= wc);
    if !crate::expr::resolve::cuts_fit(src, &list) {
        return None;
    }
    let out = crate::text::string_of(crate::expr::resolve::apply_cuts(src, &list).as_slice());
    if verify(out.as_str()) {
        return None;
    }
    Some(Plan { body: out, helpers: st.helpers, frame_duration: st.frame_duration, surface })
}

} // verus!
