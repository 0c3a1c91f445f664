//! Lowering a module to the wire format: which modules it can take, and the
//! numbering the wire uses for layer kinds and stroke styles.

use vstd::prelude::*;
use crate::data::PrimRef;
use crate::ir::{AssetKind, Layer, LayerKind, LineCap, LineJoin, Module, ShapeNode};

verus! {

/// Whether the wire can carry a layer: every kind but one the compiler has no
/// lowering for.
pub open spec fn layer_ok(l: Layer) -> bool {
    !(l.kind is Other)
}

/// Whether every layer of a list is one the wire can carry.
pub open spec fn layers_ok(ls: Seq<Layer>) -> bool {
    forall|i: int| 0 <= i < ls.len() ==> layer_ok(#[trigger] ls[i])
}

/// Whether the encoder can take a module: every root layer and every layer
/// of every precomp asset is one the wire can carry.
pub open spec fn spec_can_encode(m: Module) -> bool {
    &&& layers_ok(m.layers@)
    &&& forall|a: int| 0 <= a < m.assets@.len() ==> match (#[trigger] m.assets@[a]).kind {
        AssetKind::Precomp { layers } => layers_ok(layers@),
        AssetKind::Image => true,
    }
}

/// Whether the shape tree under a shape layer can be encoded. Every node kind
/// has a wire form, so the walk through the groups finds nothing to refuse.
fn shapes_supported(shapes: &[ShapeNode]) -> (r: bool)
    ensures
        r,
    decreases shapes@,
{
    let mut i: usize = 0;
    while i < shapes.len()
        invariant
            i <= shapes@.len(),
        decreases shapes@.len() - i,
    {
        match &shapes[i] {
            ShapeNode::Group { items } => {
                assert(decreases_to!(shapes@ => shapes@[i as int]));
                if !shapes_supported(items.as_slice()) {
                    return false;
                }
            },
            _ => {},
        }
        i += 1;
    }
    true
}

fn layer_supported(layer: &Layer) -> (r: bool)
    ensures
        r == layer_ok(*layer),
{
    match &layer.kind {
        LayerKind::Shape { shapes } => shapes_supported(shapes.as_slice()),
        LayerKind::Null | LayerKind::Solid | LayerKind::Precomp | LayerKind::Image => true,
        LayerKind::Other { .. } => false,
    }
}

fn all_supported(layers: &[Layer]) -> (r: bool)
    ensures
        r == layers_ok(layers@),
{
    let mut i: usize = 0;
    while i < layers.len()
        invariant
            i <= layers@.len(),
            forall|k: int| 0 <= k < i ==> layer_ok(#[trigger] layers@[k]),
        decreases layers@.len() - i,
    {
        if !layer_supported(&layers[i]) {
            return false;
        }
        i += 1;
    }
    true
}

/// Whether the wire format can carry this module at all.
pub fn can_encode(m: &Module) -> (r: bool)
    ensures
        r == spec_can_encode(*m),
{
    let mut a: usize = 0;
    while a < m.assets.len()
        invariant
            a <= m.assets@.len(),
            forall|k: int| 0 <= k < a ==> match (#[trigger] m.assets@[k]).kind {
                AssetKind::Precomp { layers } => layers_ok(layers@),
                AssetKind::Image => true,
            },
        decreases m.assets@.len() - a,
    {
        if let AssetKind::Precomp { layers } = &m.assets[a].kind {
            if !all_supported(layers.as_slice()) {
                return false;
            }
        }
        a += 1;
    }
    all_supported(m.layers.as_slice())
}

/// The wire's number for a layer kind: a precomp 0, a solid 1, an image 2, a
/// null 3, a shape 4, and anything else its own Lottie type.
pub open spec fn spec_layer_ty_num(kind: LayerKind) -> u32 {
    match kind {
        LayerKind::Precomp => 0,
        LayerKind::Solid => 1,
        LayerKind::Image => 2,
        LayerKind::Null => 3,
        LayerKind::Shape { .. } => 4,
        LayerKind::Other { ty } => ty,
    }
}

/// The wire's number for a layer kind.
pub fn layer_ty_num(kind: &LayerKind) -> (r: u32)
    ensures
        r == spec_layer_ty_num(*kind),
{
    match kind {
        LayerKind::Precomp => 0,
        LayerKind::Solid => 1,
        LayerKind::Image => 2,
        LayerKind::Null => 3,
        LayerKind::Shape { .. } => 4,
        LayerKind::Other { ty } => *ty,
    }
}

/// Lottie's layer types in the order its `ty` numbers them.
pub open spec fn lottie_layer_types() -> Seq<Seq<char>> {
    seq!["precomp"@, "solid"@, "image"@, "null"@, "shape"@, "text"@]
}

/// What a fixed layer kind is called among Lottie's layer types.
pub open spec fn kind_label(kind: LayerKind) -> Option<Seq<char>> {
    match kind {
        LayerKind::Precomp => Some("precomp"@),
        LayerKind::Solid => Some("solid"@),
        LayerKind::Image => Some("image"@),
        LayerKind::Null => Some("null"@),
        LayerKind::Shape { .. } => Some("shape"@),
        LayerKind::Other { .. } => None,
    }
}

/// The wire numbers a fixed layer kind as Lottie numbers that layer type, so
/// reading the number back through Lottie's list gives the kind again.
pub proof fn lemma_layer_numbers_are_lottie_types(kind: LayerKind)
    requires
        !(kind is Other),
    ensures
        spec_layer_ty_num(kind) < lottie_layer_types().len(),
        kind_label(kind) == Some(lottie_layer_types()[spec_layer_ty_num(kind) as int]),
{
}

/// A layer kind the compiler has no lowering for is written as its own Lottie
/// type number.
pub proof fn lemma_other_layers_keep_their_type(ty: u32)
    ensures
        spec_layer_ty_num(LayerKind::Other { ty }) == ty,
{
}

/// Distinct fixed layer kinds get distinct wire numbers.
pub proof fn lemma_layer_numbers_distinct(a: LayerKind, b: LayerKind)
    requires
        !(a is Other),
        !(b is Other),
        spec_layer_ty_num(a) == spec_layer_ty_num(b),
    ensures
        kind_label(a) == kind_label(b),
{
    lemma_layer_numbers_are_lottie_types(a);
    lemma_layer_numbers_are_lottie_types(b);
}

/// The wire's number for a line cap: butt 1, round 2, square 3.
pub fn linecap_num(c: LineCap) -> (r: u8)
    ensures
        r == match c {
            LineCap::Butt => 1u8,
            LineCap::Round => 2u8,
            LineCap::Square => 3u8,
        },
{
    match c {
        LineCap::Butt => 1,
        LineCap::Round => 2,
        LineCap::Square => 3,
    }
}

/// The wire's number for a line join: miter 1, round 2, bevel 3.
pub fn linejoin_num(j: LineJoin) -> (r: u8)
    ensures
        r == match j {
            LineJoin::Miter => 1u8,
            LineJoin::Round => 2u8,
            LineJoin::Bevel => 3u8,
        },
{
    match j {
        LineJoin::Miter => 1,
        LineJoin::Round => 2,
        LineJoin::Bevel => 3,
    }
}

/// The styles that paint a primitive: its group's own, then the inherited
/// ones.
pub fn styles_at(own: &[u32], inherited: &[u32]) -> (r: Vec<u32>)
    ensures
        r@ == own@ + inherited@,
{
    let mut v: Vec<u32> = Vec::new();
    let mut i: usize = 0;
    while i < own.len()
        invariant
            i <= own@.len(),
            v@ == own@.take(i as int),
        decreases own@.len() - i,
    {
        v.push(own[i]);
        assert(own@.take(i + 1) =~= own@.take(i as int).push(own@[i as int]));
        i += 1;
    }
    let mut j: usize = 0;
    while j < inherited.len()
        invariant
            i == own@.len(),
            j <= inherited@.len(),
            v@ == own@.take(i as int) + inherited@.take(j as int),
        decreases inherited@.len() - j,
    {
        v.push(inherited[j]);
        assert(inherited@.take(j + 1) =~= inherited@.take(j as int).push(inherited@[j as int]));
        j += 1;
    }
    assert(own@.take(i as int) =~= own@);
    assert(inherited@.take(j as int) =~= inherited@);
    v
}

// ---------------------------------------------------------------------------
// The shape walk
// ---------------------------------------------------------------------------

/// A placed shape reference, as the wire's shape list holds it.
pub enum Placed {
    /// A primitive: its shape-table id, the styles that paint it, its trim.
    Prim(PrimRef),
    /// A group drawn under a transform of its own: what it holds, and where
    /// its transform item sits.
    Group(Vec<Placed>, Vec<usize>),
}

/// The content of a [`Placed`] reference.
pub enum PlacedV {
    Prim(u32, Seq<u32>, Option<u32>),
    Group(Seq<PlacedV>, Seq<usize>),
}

/// The content of a reference, all the way down.
pub open spec fn placed_view(p: Placed) -> PlacedV
    decreases p,
{
    match p {
        Placed::Prim(r) => PlacedV::Prim(r.s, r.y@, r.tm),
        Placed::Group(c, t) => PlacedV::Group(
            Seq::new(
                c@.len(),
                |i: int| if 0 <= i < c@.len() { placed_view(c@[i]) } else { PlacedV::Group(seq![], seq![]) },
            ),
            t@,
        ),
    }
}

/// The contents of a list of references.
pub open spec fn placed_views(v: Seq<Placed>) -> Seq<PlacedV> {
    v.map_values(|p: Placed| placed_view(p))
}

/// Which item each style id and each shape id of the wire's tables was made
/// from, by its path: its index in each list on the way down. Both tables are
/// shared by every layer of a payload.
pub struct Tables {
    pub styles: Vec<Vec<usize>>,
    pub shapes: Vec<Vec<usize>>,
}

/// A list of paths, as sequences.
pub open spec fn paths(v: Seq<Vec<usize>>) -> Seq<Seq<usize>> {
    v.map_values(|p: Vec<usize>| p@)
}

/// Where a backwards walk over a list stands: what it has placed, the
/// tables, the list's own styles met so far (in list order), and the trim in
/// force.
pub struct WalkV {
    pub out: Seq<PlacedV>,
    pub styles: Seq<Seq<usize>>,
    pub shapes: Seq<Seq<usize>>,
    pub own: Seq<u32>,
    pub trim: Option<u32>,
}

/// The walk after the last `m` items of a list, from the end backwards.
///
/// A style gets the next style id and goes to the front of the list's own
/// styles; a trim gets the next style id and is in force from there on;
/// geometry gets the next shape id and is placed with the own styles ahead of
/// the inherited ones; a group is walked with those styles inherited.
pub open spec fn walk_list(
    items: Seq<ShapeNode>,
    m: int,
    path: Seq<usize>,
    inherited: Seq<u32>,
    itrim: Option<u32>,
    styles: Seq<Seq<usize>>,
    shapes: Seq<Seq<usize>>,
) -> WalkV
    decreases items, m,
{
    if m <= 0 || m > items.len() {
        WalkV { out: seq![], styles, shapes, own: seq![], trim: itrim }
    } else {
        let st = walk_list(items, m - 1, path, inherited, itrim, styles, shapes);
        let j = items.len() - m;
        let here = path.push(j as usize);
        match items[j] {
            ShapeNode::Style => WalkV {
                out: st.out,
                styles: st.styles.push(here),
                shapes: st.shapes,
                own: seq![st.styles.len() as u32] + st.own,
                trim: st.trim,
            },
            ShapeNode::TrimPath => WalkV {
                out: st.out,
                styles: st.styles.push(here),
                shapes: st.shapes,
                own: st.own,
                trim: Some(st.styles.len() as u32),
            },
            ShapeNode::Geometry => WalkV {
                out: st.out.push(PlacedV::Prim(st.shapes.len() as u32, st.own + inherited, st.trim)),
                styles: st.styles,
                shapes: st.shapes.push(here),
                own: st.own,
                trim: st.trim,
            },
            ShapeNode::Group { items: sub } => {
                let g = walk_group(sub@, here, st.own + inherited, st.trim, st.styles, st.shapes);
                WalkV { out: st.out + g.0, styles: g.1, shapes: g.2, own: st.own, trim: st.trim }
            },
            _ => st,
        }
    }
}

/// Where the last transform among the first `n` items sits.
pub open spec fn last_transform(items: Seq<ShapeNode>, n: int) -> Option<int>
    decreases n,
{
    if n <= 0 || n > items.len() {
        None
    } else if items[n - 1] is Transform {
        Some(n - 1)
    } else {
        last_transform(items, n - 1)
    }
}

/// Whether a list is drawn under a transform of its own: its last transform
/// item is not statically the identity.
pub open spec fn own_transform(items: Seq<ShapeNode>) -> Option<int> {
    match last_transform(items, items.len() as int) {
        Some(k) => if items[k] matches ShapeNode::Transform { identity } && !identity {
            Some(k)
        } else {
            None
        },
        None => None,
    }
}

/// A whole list walked: what it places into its parent's list (its items
/// directly, or one group holding them when it has a transform of its own),
/// and the tables after it.
pub open spec fn walk_group(
    items: Seq<ShapeNode>,
    path: Seq<usize>,
    inherited: Seq<u32>,
    itrim: Option<u32>,
    styles: Seq<Seq<usize>>,
    shapes: Seq<Seq<usize>>,
) -> (Seq<PlacedV>, Seq<Seq<usize>>, Seq<Seq<usize>>)
    decreases items, items.len() + 1,
{
    let w = walk_list(items, items.len() as int, path, inherited, itrim, styles, shapes);
    match own_transform(items) {
        Some(k) => (seq![PlacedV::Group(w.out, path.push(k as usize))], w.styles, w.shapes),
        None => (w.out, w.styles, w.shapes),
    }
}

/// A path one level deeper.
fn extended(path: &Vec<usize>, j: usize) -> (r: Vec<usize>)
    ensures
        r@ == path@.push(j),
{
    let mut r: Vec<usize> = Vec::new();
    let mut i: usize = 0;
    while i < path.len()
        invariant
            i <= path@.len(),
            r@ == path@.take(i as int),
        decreases path@.len() - i,
    {
        r.push(path[i]);
        assert(r@ =~= path@.take(i as int + 1));
        i += 1;
    }
    assert(path@.take(path@.len() as int) =~= path@);
    r.push(j);
    r
}

/// Where the last transform item of a list sits.
fn find_transform(items: &Vec<ShapeNode>) -> (r: Option<usize>)
    ensures
        r matches Some(k) ==> k < items@.len(),
        match r {
            Some(k) => last_transform(items@, items@.len() as int) == Some(k as int),
            None => last_transform(items@, items@.len() as int) is None,
        },
{
    let mut t: Option<usize> = None;
    let mut i: usize = 0;
    while i < items.len()
        invariant
            i <= items@.len(),
            t matches Some(k) ==> k < i,
            match t {
                Some(k) => last_transform(items@, i as int) == Some(k as int),
                None => last_transform(items@, i as int) is None,
            },
        decreases items@.len() - i,
    {
        if let ShapeNode::Transform { .. } = &items[i] {
            t = Some(i);
        }
        i += 1;
    }
    t
}

/// Walk one group's item list into `out`, numbering styles and shapes in
/// `tables`.
///
/// The walk runs backwards, and that is the whole contract. Lottie authors a
/// list top-first and lottie-web walks it from the end appending as it goes,
/// so the first item is appended last and paints on top. Two rules fall out
/// of that one, and both come out wrong if the list is read forwards:
/// geometry is placed in reverse list order, and a style or trim reaches only
/// the items above it, which are exactly the ones the walk has not passed
/// yet. Each primitive's styles are kept in list order, the group's own ahead
/// of anything inherited, because the emitter resolves an attribute to the
/// first style carrying it and the topmost is the one that shows.
pub fn walk_shapes(
    items: &Vec<ShapeNode>,
    path: &Vec<usize>,
    inherited: &Vec<u32>,
    itrim: Option<u32>,
    tables: &mut Tables,
    out: &mut Vec<Placed>,
)
    ensures
        placed_views(final(out)@) == placed_views(old(out)@) + walk_group(
            items@,
            path@,
            inherited@,
            itrim,
            paths(old(tables).styles@),
            paths(old(tables).shapes@),
        ).0,
        paths(final(tables).styles@) == walk_group(
            items@,
            path@,
            inherited@,
            itrim,
            paths(old(tables).styles@),
            paths(old(tables).shapes@),
        ).1,
        paths(final(tables).shapes@) == walk_group(
            items@,
            path@,
            inherited@,
            itrim,
            paths(old(tables).styles@),
            paths(old(tables).shapes@),
        ).2,
    decreases items@,
{
    let ghost s0 = paths(tables.styles@);
    let ghost h0 = paths(tables.shapes@);
    let t = find_transform(items);
    let into_group = match t {
        Some(k) => match &items[k] {
            ShapeNode::Transform { identity } => !*identity,
            _ => false,
        },
        None => false,
    };
    let mut emitted: Vec<Placed> = Vec::new();
    let mut own: Vec<u32> = Vec::new();
    let mut trim = itrim;
    let n = items.len();
    let mut m: usize = 0;
    while m < n
        invariant
            n == items@.len(),
            m <= n,
            s0 == paths(old(tables).styles@),
            h0 == paths(old(tables).shapes@),
            ({
                let st = walk_list(items@, m as int, path@, inherited@, itrim, s0, h0);
                &&& placed_views(emitted@) == st.out
                &&& paths(tables.styles@) == st.styles
                &&& paths(tables.shapes@) == st.shapes
                &&& own@ == st.own
                &&& trim == st.trim
            }),
        decreases n - m,
    {
        let j = n - 1 - m;
        let ghost st = walk_list(items@, m as int, path@, inherited@, itrim, s0, h0);
        let ghost e0 = emitted@;
        let ghost ts0 = tables.styles@;
        let ghost th0 = tables.shapes@;
        match &items[j] {
            ShapeNode::Style => {
                let id = tables.styles.len() as u32;
                tables.styles.push(extended(path, j));
                own.insert(0, id);
                proof {
                    assert(paths(tables.styles@) =~= paths(ts0).push(path@.push(j)));
                    assert(own@ =~= seq![id] + st.own);
                }
            },
            ShapeNode::TrimPath => {
                let id = tables.styles.len() as u32;
                tables.styles.push(extended(path, j));
                trim = Some(id);
                proof {
                    assert(paths(tables.styles@) =~= paths(ts0).push(path@.push(j)));
                }
            },
            ShapeNode::Geometry => {
                let sid = tables.shapes.len() as u32;
                tables.shapes.push(extended(path, j));
                let y = styles_at(own.as_slice(), inherited.as_slice());
                emitted.push(Placed::Prim(PrimRef { s: sid, y, tm: trim }));
                proof {
                    assert(paths(tables.shapes@) =~= paths(th0).push(path@.push(j)));
                    assert(placed_views(emitted@) =~= placed_views(e0).push(PlacedV::Prim(sid, st.own + inherited@, st.trim)));
                }
            },
            ShapeNode::Group { items: sub } => {
                let y = styles_at(own.as_slice(), inherited.as_slice());
                let here = extended(path, j);
                proof {
                    assert(decreases_to!(items@ => items@[j as int]));
                }
                walk_shapes(sub, &here, &y, trim, tables, &mut emitted);
            },
            _ => {},
        }
        m += 1;
    }
    let ghost w = walk_list(items@, n as int, path@, inherited@, itrim, s0, h0);
    if into_group {
        let k = match t {
            Some(k) => k,
            None => 0,
        };
        let tp = extended(path, k);
        let ghost o1 = out@;
        let ghost ev = emitted@;
        let g = Placed::Group(emitted, tp);
        proof {
            match placed_view(g) {
                PlacedV::Group(c, p) => {
                    assert(c.len() == ev.len());
                    assert forall|i: int| 0 <= i < ev.len() implies c[i] == placed_views(ev)[i] by {}
                    assert(c =~= placed_views(ev));
                },
                _ => {},
            }
            assert(placed_view(g) == PlacedV::Group(w.out, path@.push(k)));
        }
        out.push(g);
        proof {
            assert(placed_views(out@) =~= placed_views(o1).push(placed_view(g)));
        }
    } else {
        let ghost o1 = out@;
        let ghost ev = emitted@;
        out.append(&mut emitted);
        proof {
            assert(placed_views(out@) =~= placed_views(o1) + placed_views(ev));
        }
    }
}

// ---------------------------------------------------------------------------
// What reaches what
// ---------------------------------------------------------------------------

/// Items in the tree under a node, counting the node.
pub open spec fn node_size(v: ShapeNode) -> nat
    decreases v, 0int,
{
    match v {
        ShapeNode::Group { items } => 1 + tail_size(items@, 0),
        _ => 1,
    }
}

/// Items in the trees under the items of a list from position `from` on.
pub open spec fn tail_size(items: Seq<ShapeNode>, from: int) -> nat
    decreases items, items.len() - from,
{
    if from < 0 || from >= items.len() {
        0
    } else {
        node_size(items[from]) + tail_size(items, from + 1)
    }
}

/// The paths of the styles among the items of a list from position `from`
/// on, in list order.
pub open spec fn style_paths(items: Seq<ShapeNode>, path: Seq<usize>, from: int) -> Seq<Seq<usize>>
    decreases items.len() - from,
{
    if from < 0 || from >= items.len() {
        seq![]
    } else {
        (if items[from] is Style {
            seq![path.push(from as usize)]
        } else {
            seq![]
        }) + style_paths(items, path, from + 1)
    }
}

/// The items a list of style ids names, by the table.
pub open spec fn resolve(ids: Seq<u32>, table: Seq<Seq<usize>>) -> Seq<Seq<usize>> {
    Seq::new(ids.len(), |i: int| table[ids[i] as int])
}

/// Every id is below `n`.
pub open spec fn below(ids: Seq<u32>, n: int) -> bool {
    forall|i: int| 0 <= i < ids.len() ==> #[trigger] ids[i] < n
}

/// `b` is `a` with more at the end.
pub open spec fn grows(a: Seq<Seq<usize>>, b: Seq<Seq<usize>>) -> bool {
    a.len() <= b.len() && forall|i: int| 0 <= i < a.len() ==> #[trigger] b[i] == a[i]
}

/// `p` lies strictly under `path`.
pub open spec fn under(path: Seq<usize>, p: Seq<usize>) -> bool {
    path.len() < p.len() && forall|i: int| 0 <= i < path.len() ==> #[trigger] p[i] == path[i]
}

/// Every shape entry from `from` on lies under `path`.
pub open spec fn new_under(path: Seq<usize>, from: int, shapes: Seq<Seq<usize>>) -> bool {
    forall|i: int| from <= i < shapes.len() ==> under(path, #[trigger] shapes[i])
}

/// Every primitive placed is a new shape entry under `path`, painted by
/// styles already in the table.
pub open spec fn placed_ok(out: Seq<PlacedV>, path: Seq<usize>, from: int, styles_len: int, shapes: Seq<Seq<usize>>) -> bool {
    forall|q: int|
        0 <= q < out.len() ==> (#[trigger] out[q] matches PlacedV::Prim(sid, y, tm) ==> from <= sid < shapes.len()
            && under(path, shapes[sid as int]) && below(y, styles_len))
}

/// Every primitive placed straight from this list (its shape entry is one
/// level under `path`) comes from a geometry item, and is painted by exactly
/// the styles below that item in the list, in list order, then the inherited
/// ones.
pub open spec fn reach_ok(
    items: Seq<ShapeNode>,
    path: Seq<usize>,
    inherited: Seq<u32>,
    out: Seq<PlacedV>,
    styles: Seq<Seq<usize>>,
    shapes: Seq<Seq<usize>>,
) -> bool {
    forall|q: int|
        0 <= q < out.len() ==> (#[trigger] out[q] matches PlacedV::Prim(sid, y, tm) ==> (shapes[sid as int].len()
            == path.len() + 1 ==> {
            let j = shapes[sid as int].last() as int;
            &&& shapes[sid as int] == path.push(j as usize)
            &&& 0 <= j < items.len()
            &&& items[j] is Geometry
            &&& resolve(y, styles) == style_paths(items, path, j + 1) + resolve(inherited, styles)
        }))
}

/// The first trim among the items of a list from position `from` on.
pub open spec fn nearest_trim(items: Seq<ShapeNode>, from: int) -> Option<int>
    decreases items.len() - from,
{
    if from < 0 || from >= items.len() {
        None
    } else if items[from] is TrimPath {
        Some(from)
    } else {
        nearest_trim(items, from + 1)
    }
}

/// `tm` is the trim nearest below position `from` in the list, by the table,
/// or the inherited trim when there is none.
pub open spec fn trim_reaches(
    items: Seq<ShapeNode>,
    path: Seq<usize>,
    itrim: Option<u32>,
    from: int,
    tm: Option<u32>,
    styles: Seq<Seq<usize>>,
) -> bool {
    match nearest_trim(items, from) {
        Some(k) => tm matches Some(t) && t < styles.len() && styles[t as int] == path.push(k as usize),
        None => tm == itrim,
    }
}

/// Every primitive placed straight from the list is cut by the trim nearest
/// below its item, or the inherited one.
pub open spec fn trim_ok(
    items: Seq<ShapeNode>,
    path: Seq<usize>,
    itrim: Option<u32>,
    out: Seq<PlacedV>,
    styles: Seq<Seq<usize>>,
    shapes: Seq<Seq<usize>>,
) -> bool {
    forall|q: int|
        0 <= q < out.len() ==> (#[trigger] out[q] matches PlacedV::Prim(sid, y, tm) ==> (shapes[sid as int].len()
            == path.len() + 1 ==> trim_reaches(items, path, itrim, shapes[sid as int].last() as int + 1, tm, styles)))
}

proof fn lemma_trim_keep(
    items: Seq<ShapeNode>,
    path: Seq<usize>,
    itrim: Option<u32>,
    out: Seq<PlacedV>,
    s1: Seq<Seq<usize>>,
    s2: Seq<Seq<usize>>,
    h1: Seq<Seq<usize>>,
    h2: Seq<Seq<usize>>,
    fs: int,
    sl: int,
)
    requires
        grows(s1, s2),
        grows(h1, h2),
        placed_ok(out, path, fs, sl, h1),
        trim_ok(items, path, itrim, out, s1, h1),
    ensures
        trim_ok(items, path, itrim, out, s2, h2),
{
    assert forall|q: int| 0 <= q < out.len() implies (#[trigger] out[q] matches PlacedV::Prim(sid, y, tm) ==> (
    h2[sid as int].len() == path.len() + 1 ==> trim_reaches(items, path, itrim, h2[sid as int].last() as int + 1, tm, s2))) by {
        if let PlacedV::Prim(sid, y, tm) = out[q] {
            assert(h2[sid as int] == h1[sid as int]);
            if let Some(t) = tm {
                if t < s1.len() {
                    assert(s2[t as int] == s1[t as int]);
                }
            }
        }
    }
}

proof fn lemma_trim_state_keep(
    items: Seq<ShapeNode>,
    path: Seq<usize>,
    itrim: Option<u32>,
    from: int,
    tm: Option<u32>,
    s1: Seq<Seq<usize>>,
    s2: Seq<Seq<usize>>,
)
    requires
        grows(s1, s2),
        trim_reaches(items, path, itrim, from, tm, s1),
    ensures
        trim_reaches(items, path, itrim, from, tm, s2),
{
    if let Some(t) = tm {
        if t < s1.len() {
            assert(s2[t as int] == s1[t as int]);
        }
    }
}

/// The position of the item a primitive placed straight from the list came
/// from; `None` for anything else.
pub open spec fn direct_at(path: Seq<usize>, shapes: Seq<Seq<usize>>, p: PlacedV) -> Option<int> {
    match p {
        PlacedV::Prim(sid, y, tm) => if sid < shapes.len() && shapes[sid as int].len() == path.len() + 1 {
            Some(shapes[sid as int].last() as int)
        } else {
            None
        },
        _ => None,
    }
}

/// The primitives placed straight from the list come from positions `from`
/// on, in descending position order.
pub open spec fn order_ok(path: Seq<usize>, out: Seq<PlacedV>, shapes: Seq<Seq<usize>>, from: int) -> bool {
    &&& forall|q: int|
        0 <= q < out.len() ==> (#[trigger] direct_at(path, shapes, out[q]) matches Some(j) ==> j >= from)
    &&& forall|q1: int, q2: int|
        0 <= q1 < q2 < out.len() && (#[trigger] direct_at(path, shapes, out[q1])) is Some && (#[trigger] direct_at(
            path,
            shapes,
            out[q2],
        )) is Some ==> direct_at(path, shapes, out[q1])->0 > direct_at(path, shapes, out[q2])->0
}

proof fn lemma_direct_keep(path: Seq<usize>, out: Seq<PlacedV>, h1: Seq<Seq<usize>>, h2: Seq<Seq<usize>>, from: int, sl: int)
    requires
        grows(h1, h2),
        placed_ok(out, path, from, sl, h1),
    ensures
        forall|q: int| 0 <= q < out.len() ==> #[trigger] direct_at(path, h2, out[q]) == direct_at(path, h1, out[q]),
{
    assert forall|q: int| 0 <= q < out.len() implies #[trigger] direct_at(path, h2, out[q]) == direct_at(path, h1, out[q]) by {
        if let PlacedV::Prim(sid, y, tm) = out[q] {
            assert(h2[sid as int] == h1[sid as int]);
        }
    }
}

proof fn lemma_order_from(path: Seq<usize>, out: Seq<PlacedV>, shapes: Seq<Seq<usize>>, a: int, b: int)
    requires
        order_ok(path, out, shapes, a),
        b <= a,
    ensures
        order_ok(path, out, shapes, b),
{
    assert forall|q: int| 0 <= q < out.len() implies (#[trigger] direct_at(path, shapes, out[q]) matches Some(j) ==> j >= b) by {}
}

proof fn lemma_resolve_grows(ids: Seq<u32>, a: Seq<Seq<usize>>, b: Seq<Seq<usize>>)
    requires
        grows(a, b),
        below(ids, a.len() as int),
    ensures
        resolve(ids, b) == resolve(ids, a),
{
    assert forall|i: int| 0 <= i < ids.len() implies #[trigger] resolve(ids, b)[i] == resolve(ids, a)[i] by {
        assert(ids[i] < a.len());
    }
    assert(resolve(ids, b) =~= resolve(ids, a));
}

proof fn lemma_resolve_concat(x: Seq<u32>, y: Seq<u32>, t: Seq<Seq<usize>>)
    ensures
        resolve(x + y, t) == resolve(x, t) + resolve(y, t),
{
    assert(resolve(x + y, t) =~= resolve(x, t) + resolve(y, t));
}

proof fn lemma_tail_size_step(items: Seq<ShapeNode>, j: int)
    requires
        0 <= j < items.len(),
    ensures
        tail_size(items, j) == node_size(items[j]) + tail_size(items, j + 1),
        node_size(items[j]) >= 1,
{
}

proof fn lemma_tail_size_mono(items: Seq<ShapeNode>, a: int, b: int)
    requires
        0 <= a <= b,
    ensures
        tail_size(items, a) >= tail_size(items, b),
    decreases b - a,
{
    if a < b && a < items.len() {
        lemma_tail_size_mono(items, a + 1, b);
    }
}

proof fn lemma_tail_size_len(items: Seq<ShapeNode>, from: int)
    requires
        0 <= from <= items.len(),
    ensures
        tail_size(items, from) >= items.len() - from,
    decreases items.len() - from,
{
    if from < items.len() {
        lemma_tail_size_len(items, from + 1);
        lemma_tail_size_step(items, from);
    }
}

proof fn lemma_under_deeper(path: Seq<usize>, j: usize, p: Seq<usize>)
    requires
        under(path.push(j), p),
    ensures
        under(path, p),
        p.len() > path.len() + 1,
{
    assert forall|i: int| 0 <= i < path.len() implies #[trigger] p[i] == path[i] by {
        assert(p[i] == path.push(j)[i]);
    }
}

/// Growing the style table keeps what the placed primitives are painted by.
proof fn lemma_styles_grow_keep(
    items: Seq<ShapeNode>,
    path: Seq<usize>,
    inherited: Seq<u32>,
    out: Seq<PlacedV>,
    s1: Seq<Seq<usize>>,
    s2: Seq<Seq<usize>>,
    shapes: Seq<Seq<usize>>,
    from: int,
)
    requires
        grows(s1, s2),
        below(inherited, s1.len() as int),
        placed_ok(out, path, from, s1.len() as int, shapes),
        reach_ok(items, path, inherited, out, s1, shapes),
    ensures
        placed_ok(out, path, from, s2.len() as int, shapes),
        reach_ok(items, path, inherited, out, s2, shapes),
{
    lemma_resolve_grows(inherited, s1, s2);
    assert forall|q: int| 0 <= q < out.len() implies (#[trigger] out[q] matches PlacedV::Prim(sid, y, tm) ==> from <= sid
        < shapes.len() && under(path, shapes[sid as int]) && below(y, s2.len() as int)) by {
        if let PlacedV::Prim(sid, y, tm) = out[q] {
            assert forall|i: int| 0 <= i < y.len() implies #[trigger] y[i] < s2.len() by {
                assert(y[i] < s1.len());
            }
        }
    }
    assert forall|q: int| 0 <= q < out.len() implies (#[trigger] out[q] matches PlacedV::Prim(sid, y, tm) ==> (
    shapes[sid as int].len() == path.len() + 1 ==> {
        let j = shapes[sid as int].last() as int;
        &&& shapes[sid as int] == path.push(j as usize)
        &&& 0 <= j < items.len()
        &&& items[j] is Geometry
        &&& resolve(y, s2) == style_paths(items, path, j + 1) + resolve(inherited, s2)
    })) by {
        if let PlacedV::Prim(sid, y, tm) = out[q] {
            lemma_resolve_grows(y, s1, s2);
        }
    }
}

/// Growing the shape table keeps where the placed primitives came from.
proof fn lemma_shapes_grow_keep(
    items: Seq<ShapeNode>,
    path: Seq<usize>,
    inherited: Seq<u32>,
    out: Seq<PlacedV>,
    styles: Seq<Seq<usize>>,
    h1: Seq<Seq<usize>>,
    h2: Seq<Seq<usize>>,
    from: int,
)
    requires
        grows(h1, h2),
        placed_ok(out, path, from, styles.len() as int, h1),
        reach_ok(items, path, inherited, out, styles, h1),
    ensures
        placed_ok(out, path, from, styles.len() as int, h2),
        reach_ok(items, path, inherited, out, styles, h2),
{
    assert forall|q: int| 0 <= q < out.len() implies (#[trigger] out[q] matches PlacedV::Prim(sid, y, tm) ==> from <= sid
        < h2.len() && under(path, h2[sid as int]) && below(y, styles.len() as int)) by {
        if let PlacedV::Prim(sid, y, tm) = out[q] {
            assert(h2[sid as int] == h1[sid as int]);
        }
    }
    assert forall|q: int| 0 <= q < out.len() implies (#[trigger] out[q] matches PlacedV::Prim(sid, y, tm) ==> (
    h2[sid as int].len() == path.len() + 1 ==> {
        let j = h2[sid as int].last() as int;
        &&& h2[sid as int] == path.push(j as usize)
        &&& 0 <= j < items.len()
        &&& items[j] is Geometry
        &&& resolve(y, styles) == style_paths(items, path, j + 1) + resolve(inherited, styles)
    })) by {
        if let PlacedV::Prim(sid, y, tm) = out[q] {
            assert(h2[sid as int] == h1[sid as int]);
        }
    }
}

/// The walk over the last `m` items keeps the tables growing within the
/// items it met, puts every new shape entry under the list's path, and paints
/// every primitive it placed straight from the list by the styles below that
/// primitive's item.
proof fn lemma_walk_list(
    items: Seq<ShapeNode>,
    m: int,
    path: Seq<usize>,
    inherited: Seq<u32>,
    itrim: Option<u32>,
    styles: Seq<Seq<usize>>,
    shapes: Seq<Seq<usize>>,
)
    requires
        0 <= m <= items.len(),
        styles.len() + tail_size(items, 0) <= u32::MAX,
        shapes.len() + tail_size(items, 0) <= u32::MAX,
        below(inherited, styles.len() as int),
    ensures
        ({
            let st = walk_list(items, m, path, inherited, itrim, styles, shapes);
            let from = items.len() - m;
            &&& grows(styles, st.styles)
            &&& grows(shapes, st.shapes)
            &&& st.styles.len() <= styles.len() + tail_size(items, from)
            &&& st.shapes.len() <= shapes.len() + tail_size(items, from)
            &&& new_under(path, shapes.len() as int, st.shapes)
            &&& below(st.own, st.styles.len() as int)
            &&& resolve(st.own, st.styles) == style_paths(items, path, from)
            &&& placed_ok(st.out, path, shapes.len() as int, st.styles.len() as int, st.shapes)
            &&& reach_ok(items, path, inherited, st.out, st.styles, st.shapes)
            &&& order_ok(path, st.out, st.shapes, from)
            &&& trim_reaches(items, path, itrim, from, st.trim, st.styles)
            &&& trim_ok(items, path, itrim, st.out, st.styles, st.shapes)
        }),
    decreases items, m,
{
    let n = items.len() as int;
    if m == 0 {
        assert(resolve(seq![], styles) =~= Seq::<Seq<usize>>::empty());
        lemma_tail_size_mono(items, 0, n);
    } else {
        lemma_walk_list(items, m - 1, path, inherited, itrim, styles, shapes);
        let st = walk_list(items, m - 1, path, inherited, itrim, styles, shapes);
        let j = n - m;
        let here = path.push(j as usize);
        lemma_tail_size_step(items, j);
        lemma_tail_size_mono(items, 0, j);
        lemma_tail_size_len(items, 0);
        assert(j < u32::MAX);
        let nx = walk_list(items, m, path, inherited, itrim, styles, shapes);
        assert(below(inherited, st.styles.len() as int)) by {
            assert forall|i: int| 0 <= i < inherited.len() implies #[trigger] inherited[i] < st.styles.len() by {
                assert(inherited[i] < styles.len());
            }
        }
        match items[j] {
            ShapeNode::Style => {
                let id = st.styles.len() as u32;
                assert(id as int == st.styles.len());
                let s2 = st.styles.push(here);
                assert(nx.styles == s2);
                assert(nx.own == seq![id] + st.own);
                lemma_styles_grow_keep(items, path, inherited, st.out, st.styles, s2, st.shapes, shapes.len() as int);
                lemma_resolve_concat(seq![id], st.own, s2);
                lemma_resolve_grows(st.own, st.styles, s2);
                assert(resolve(seq![id], s2) =~= seq![here]);
                assert(style_paths(items, path, j) == seq![here] + style_paths(items, path, j + 1));
                assert forall|i: int| 0 <= i < nx.own.len() implies #[trigger] nx.own[i] < nx.styles.len() by {
                    if i > 0 {
                        assert(nx.own[i] == st.own[i - 1]);
                    }
                }
                lemma_order_from(path, st.out, st.shapes, j + 1, j);
            },
            ShapeNode::TrimPath => {
                let s2 = st.styles.push(here);
                assert(nx.styles == s2);
                lemma_styles_grow_keep(items, path, inherited, st.out, st.styles, s2, st.shapes, shapes.len() as int);
                lemma_resolve_grows(st.own, st.styles, s2);
                assert(style_paths(items, path, j) =~= style_paths(items, path, j + 1));
                assert forall|i: int| 0 <= i < nx.own.len() implies #[trigger] nx.own[i] < nx.styles.len() by {
                    assert(st.own[i] < st.styles.len());
                }
                lemma_order_from(path, st.out, st.shapes, j + 1, j);
            },
            ShapeNode::Geometry => {
                let sid = st.shapes.len() as u32;
                assert(sid as int == st.shapes.len());
                let h2 = st.shapes.push(here);
                let y = st.own + inherited;
                let pr = PlacedV::Prim(sid, y, st.trim);
                assert(nx.shapes == h2);
                assert(nx.out == st.out.push(pr));
                lemma_shapes_grow_keep(items, path, inherited, st.out, st.styles, st.shapes, h2, shapes.len() as int);
                assert(style_paths(items, path, j) =~= style_paths(items, path, j + 1));
                lemma_resolve_concat(st.own, inherited, st.styles);
                assert(h2[sid as int] == here);
                assert(here.last() == j as usize);
                assert(under(path, here)) by {
                    assert forall|i: int| 0 <= i < path.len() implies #[trigger] here[i] == path[i] by {}
                }
                assert(below(y, st.styles.len() as int)) by {
                    assert forall|i: int| 0 <= i < y.len() implies #[trigger] y[i] < st.styles.len() by {
                        if i < st.own.len() {
                            assert(y[i] == st.own[i]);
                        } else {
                            assert(y[i] == inherited[i - st.own.len()]);
                        }
                    }
                }
                assert forall|q: int| 0 <= q < nx.out.len() implies (#[trigger] nx.out[q] matches PlacedV::Prim(s, yy, tm)
                    ==> shapes.len() <= s < h2.len() && under(path, h2[s as int]) && below(yy, st.styles.len() as int)) by {
                    if q < st.out.len() {
                        assert(nx.out[q] == st.out[q]);
                    }
                }
                assert forall|q: int| 0 <= q < nx.out.len() implies (#[trigger] nx.out[q] matches PlacedV::Prim(s, yy, tm) ==> (
                h2[s as int].len() == path.len() + 1 ==> {
                    let jj = h2[s as int].last() as int;
                    &&& h2[s as int] == path.push(jj as usize)
                    &&& 0 <= jj < items.len()
                    &&& items[jj] is Geometry
                    &&& resolve(yy, st.styles) == style_paths(items, path, jj + 1) + resolve(inherited, st.styles)
                })) by {
                    if q < st.out.len() {
                        assert(nx.out[q] == st.out[q]);
                    } else {
                        assert(nx.out[q] == pr);
                        assert(h2[sid as int].last() as int == j);
                        assert(items[j] is Geometry);
                        assert(resolve(y, st.styles) == style_paths(items, path, j + 1) + resolve(inherited, st.styles));
                    }
                }
                assert forall|i: int| shapes.len() <= i < h2.len() implies under(path, #[trigger] h2[i]) by {
                    if i < st.shapes.len() {
                        assert(h2[i] == st.shapes[i]);
                    }
                }
                lemma_direct_keep(path, st.out, st.shapes, h2, shapes.len() as int, st.styles.len() as int);
                assert(direct_at(path, h2, pr) == Some(j));
                assert forall|k: int| 0 <= k < nx.out.len() implies (#[trigger] direct_at(path, h2, nx.out[k]) matches Some(jj)
                    ==> jj >= j) by {
                    if k < st.out.len() {
                        assert(nx.out[k] == st.out[k]);
                    }
                }
                assert forall|q1: int, q2: int| 0 <= q1 < q2 < nx.out.len() && (#[trigger] direct_at(path, h2, nx.out[q1])) is Some
                    && (#[trigger] direct_at(path, h2, nx.out[q2])) is Some implies direct_at(path, h2, nx.out[q1])->0
                    > direct_at(path, h2, nx.out[q2])->0 by {
                    assert(nx.out[q1] == st.out[q1]);
                    let e1 = direct_at(path, h2, nx.out[q1]);
                    let e2 = direct_at(path, h2, nx.out[q2]);
                    assert(e1 == direct_at(path, st.shapes, st.out[q1]));
                    if q2 < st.out.len() {
                        assert(nx.out[q2] == st.out[q2]);
                        assert(e2 == direct_at(path, st.shapes, st.out[q2]));
                        if e1 is Some && e2 is Some {
                            assert(e1->0 > e2->0);
                        }
                    } else {
                        assert(nx.out[q2] == pr);
                        assert(e2 == Some(j));
                        if e1 is Some {
                            assert(e1->0 >= j + 1);
                        }
                    }
                }
            },
            ShapeNode::Group { items: sub } => {
                let inh2 = st.own + inherited;
                assert(decreases_to!(items => items[j]));
                lemma_tail_size_mono(items, 0, j + 1);
                assert(below(inh2, st.styles.len() as int)) by {
                    assert forall|i: int| 0 <= i < inh2.len() implies #[trigger] inh2[i] < st.styles.len() by {
                        if i < st.own.len() {
                            assert(inh2[i] == st.own[i]);
                        } else {
                            assert(inh2[i] == inherited[i - st.own.len()]);
                        }
                    }
                }
                lemma_walk_group(sub@, here, inh2, st.trim, st.styles, st.shapes);
                let g = walk_group(sub@, here, inh2, st.trim, st.styles, st.shapes);
                assert(nx.out == st.out + g.0);
                assert(nx.styles == g.1);
                assert(nx.shapes == g.2);
                lemma_styles_grow_keep(items, path, inherited, st.out, st.styles, g.1, st.shapes, shapes.len() as int);
                lemma_shapes_grow_keep(items, path, inherited, st.out, g.1, st.shapes, g.2, shapes.len() as int);
                lemma_resolve_grows(st.own, st.styles, g.1);
                assert(style_paths(items, path, j) =~= style_paths(items, path, j + 1));
                assert forall|i: int| 0 <= i < st.own.len() implies #[trigger] st.own[i] < g.1.len() by {
                    assert(st.own[i] < st.styles.len());
                }
                assert forall|i: int| shapes.len() <= i < g.2.len() implies under(path, #[trigger] g.2[i]) by {
                    if i < st.shapes.len() {
                        assert(g.2[i] == st.shapes[i]);
                    } else {
                        lemma_under_deeper(path, j as usize, g.2[i]);
                    }
                }
                assert forall|q: int| 0 <= q < nx.out.len() implies (#[trigger] nx.out[q] matches PlacedV::Prim(s, yy, tm)
                    ==> shapes.len() <= s < g.2.len() && under(path, g.2[s as int]) && below(yy, g.1.len() as int)) by {
                    if q < st.out.len() {
                        assert(nx.out[q] == st.out[q]);
                    } else {
                        assert(nx.out[q] == g.0[q - st.out.len()]);
                        if let PlacedV::Prim(s, yy, tm) = g.0[q - st.out.len()] {
                            lemma_under_deeper(path, j as usize, g.2[s as int]);
                        }
                    }
                }
                assert forall|q: int| 0 <= q < nx.out.len() implies (#[trigger] nx.out[q] matches PlacedV::Prim(s, yy, tm) ==> (
                g.2[s as int].len() == path.len() + 1 ==> {
                    let jj = g.2[s as int].last() as int;
                    &&& g.2[s as int] == path.push(jj as usize)
                    &&& 0 <= jj < items.len()
                    &&& items[jj] is Geometry
                    &&& resolve(yy, g.1) == style_paths(items, path, jj + 1) + resolve(inherited, g.1)
                })) by {
                    if q < st.out.len() {
                        assert(nx.out[q] == st.out[q]);
                    } else {
                        assert(nx.out[q] == g.0[q - st.out.len()]);
                        if let PlacedV::Prim(s, yy, tm) = g.0[q - st.out.len()] {
                            lemma_under_deeper(path, j as usize, g.2[s as int]);
                        }
                    }
                }
                lemma_direct_keep(path, st.out, st.shapes, g.2, shapes.len() as int, st.styles.len() as int);
                assert forall|k: int| 0 <= k < nx.out.len() implies #[trigger] direct_at(path, g.2, nx.out[k]) == if k
                    < st.out.len() {
                    direct_at(path, st.shapes, st.out[k])
                } else {
                    None
                } by {
                    if k < st.out.len() {
                        assert(nx.out[k] == st.out[k]);
                    } else {
                        assert(nx.out[k] == g.0[k - st.out.len()]);
                        if let PlacedV::Prim(s, yy, tm) = g.0[k - st.out.len()] {
                            lemma_under_deeper(path, j as usize, g.2[s as int]);
                        }
                    }
                }
                assert forall|k: int| 0 <= k < nx.out.len() implies (#[trigger] direct_at(path, g.2, nx.out[k]) matches Some(jj)
                    ==> jj >= j) by {
                    if k < st.out.len() {
                        assert(direct_at(path, st.shapes, st.out[k]) == direct_at(path, g.2, nx.out[k]));
                    }
                }
                assert forall|q1: int, q2: int| 0 <= q1 < q2 < nx.out.len() && (#[trigger] direct_at(path, g.2, nx.out[q1])) is Some
                    && (#[trigger] direct_at(path, g.2, nx.out[q2])) is Some implies direct_at(path, g.2, nx.out[q1])->0
                    > direct_at(path, g.2, nx.out[q2])->0 by {
                    let e1 = direct_at(path, g.2, nx.out[q1]);
                    let e2 = direct_at(path, g.2, nx.out[q2]);
                    if q2 < st.out.len() {
                        assert(nx.out[q1] == st.out[q1]);
                        assert(nx.out[q2] == st.out[q2]);
                        assert(direct_at(path, st.shapes, st.out[q1]) == e1);
                        assert(direct_at(path, st.shapes, st.out[q2]) == e2);
                    } else {
                        assert(e2 is None);
                    }
                }
            },
            _ => {
                assert(nx == st);
                assert(style_paths(items, path, j) =~= style_paths(items, path, j + 1));
                lemma_order_from(path, st.out, st.shapes, j + 1, j);
            },
        }
    }
}

/// A whole list walked keeps the tables growing within its tree, puts every
/// new shape entry under its path, and places only primitives made here.
proof fn lemma_walk_group(
    items: Seq<ShapeNode>,
    path: Seq<usize>,
    inherited: Seq<u32>,
    itrim: Option<u32>,
    styles: Seq<Seq<usize>>,
    shapes: Seq<Seq<usize>>,
)
    requires
        styles.len() + tail_size(items, 0) <= u32::MAX,
        shapes.len() + tail_size(items, 0) <= u32::MAX,
        below(inherited, styles.len() as int),
    ensures
        ({
            let g = walk_group(items, path, inherited, itrim, styles, shapes);
            &&& grows(styles, g.1)
            &&& grows(shapes, g.2)
            &&& g.1.len() <= styles.len() + tail_size(items, 0)
            &&& g.2.len() <= shapes.len() + tail_size(items, 0)
            &&& new_under(path, shapes.len() as int, g.2)
            &&& placed_ok(g.0, path, shapes.len() as int, g.1.len() as int, g.2)
        }),
    decreases items, items.len() + 1,
{
    lemma_walk_list(items, items.len() as int, path, inherited, itrim, styles, shapes);
    let g = walk_group(items, path, inherited, itrim, styles, shapes);
    let w = walk_list(items, items.len() as int, path, inherited, itrim, styles, shapes);
    match own_transform(items) {
        Some(k) => {
            assert forall|q: int| 0 <= q < g.0.len() implies (#[trigger] g.0[q] matches PlacedV::Prim(sid, y, tm) ==> shapes.len()
                <= sid < g.2.len() && under(path, g.2[sid as int]) && below(y, g.1.len() as int)) by {
                assert(g.0[q] is Group);
            }
        },
        None => {},
    }
}

/// A style reaches only the items above it. Every primitive a walk over a
/// list places straight from that list (its shape entry is one level under
/// the list's path) comes from a geometry item of the list, and is painted by
/// exactly the styles that follow that item in the list, in list order, then
/// the inherited ones: never by a style before it, and never by one inside a
/// sibling group.
pub proof fn lemma_a_style_reaches_only_the_items_above_it(
    items: Seq<ShapeNode>,
    path: Seq<usize>,
    inherited: Seq<u32>,
    itrim: Option<u32>,
    styles: Seq<Seq<usize>>,
    shapes: Seq<Seq<usize>>,
    q: int,
)
    requires
        styles.len() + tail_size(items, 0) <= u32::MAX,
        shapes.len() + tail_size(items, 0) <= u32::MAX,
        below(inherited, styles.len() as int),
        ({
            let w = walk_list(items, items.len() as int, path, inherited, itrim, styles, shapes);
            &&& 0 <= q < w.out.len()
            &&& w.out[q] matches PlacedV::Prim(sid, y, tm) && w.shapes[sid as int].len() == path.len() + 1
        }),
    ensures
        ({
            let w = walk_list(items, items.len() as int, path, inherited, itrim, styles, shapes);
            w.out[q] matches PlacedV::Prim(sid, y, tm) && {
                let j = w.shapes[sid as int].last() as int;
                &&& w.shapes[sid as int] == path.push(j as usize)
                &&& 0 <= j < items.len()
                &&& items[j] is Geometry
                &&& resolve(y, w.styles) == style_paths(items, path, j + 1) + resolve(inherited, styles)
            }
        }),
{
    lemma_walk_list(items, items.len() as int, path, inherited, itrim, styles, shapes);
    let w = walk_list(items, items.len() as int, path, inherited, itrim, styles, shapes);
    lemma_resolve_grows(inherited, styles, w.styles);
    assert(w.out[q] matches PlacedV::Prim(sid, y, tm));
}

/// Geometry is placed in reverse list order: of two primitives a walk over a
/// list places straight from it, the one placed first comes from the item
/// further down the list, so the first item is placed last and paints on top.
pub proof fn lemma_geometry_is_placed_in_reverse_list_order(
    items: Seq<ShapeNode>,
    path: Seq<usize>,
    inherited: Seq<u32>,
    itrim: Option<u32>,
    styles: Seq<Seq<usize>>,
    shapes: Seq<Seq<usize>>,
    q1: int,
    q2: int,
)
    requires
        styles.len() + tail_size(items, 0) <= u32::MAX,
        shapes.len() + tail_size(items, 0) <= u32::MAX,
        below(inherited, styles.len() as int),
        ({
            let w = walk_list(items, items.len() as int, path, inherited, itrim, styles, shapes);
            &&& 0 <= q1 < q2 < w.out.len()
            &&& direct_at(path, w.shapes, w.out[q1]) is Some
            &&& direct_at(path, w.shapes, w.out[q2]) is Some
        }),
    ensures
        ({
            let w = walk_list(items, items.len() as int, path, inherited, itrim, styles, shapes);
            direct_at(path, w.shapes, w.out[q1])->0 > direct_at(path, w.shapes, w.out[q2])->0
        }),
{
    lemma_walk_list(items, items.len() as int, path, inherited, itrim, styles, shapes);
}

/// A trim reaches only the items above it, and the nearest one wins: every
/// primitive a walk over a list places straight from that list is cut by the
/// first trim that follows its item in the list, or, when none follows, by the
/// trim the list inherited.
pub proof fn lemma_a_trim_reaches_only_the_items_above_it(
    items: Seq<ShapeNode>,
    path: Seq<usize>,
    inherited: Seq<u32>,
    itrim: Option<u32>,
    styles: Seq<Seq<usize>>,
    shapes: Seq<Seq<usize>>,
    q: int,
)
    requires
        styles.len() + tail_size(items, 0) <= u32::MAX,
        shapes.len() + tail_size(items, 0) <= u32::MAX,
        below(inherited, styles.len() as int),
        ({
            let w = walk_list(items, items.len() as int, path, inherited, itrim, styles, shapes);
            &&& 0 <= q < w.out.len()
            &&& w.out[q] matches PlacedV::Prim(sid, y, tm) && w.shapes[sid as int].len() == path.len() + 1
        }),
    ensures
        ({
            let w = walk_list(items, items.len() as int, path, inherited, itrim, styles, shapes);
            w.out[q] matches PlacedV::Prim(sid, y, tm) && trim_reaches(
                items,
                path,
                itrim,
                w.shapes[sid as int].last() as int + 1,
                tm,
                w.styles,
            )
        }),
{
    lemma_walk_list(items, items.len() as int, path, inherited, itrim, styles, shapes);
    let w = walk_list(items, items.len() as int, path, inherited, itrim, styles, shapes);
    assert(w.out[q] matches PlacedV::Prim(sid, y, tm));
}

} // verus!
