use ulottie_compiler::data::encode::{can_encode, walk_shapes, Placed, Tables};
use ulottie_compiler::ir::{Asset, AssetKind, Layer, LayerKind, Module, ShapeNode};

/// A shape item with the one number the tests look at: a fill's red channel.
enum T {
    Path,
    Fill(f64),
    Group(Vec<T>),
    Trim,
    Transform(bool),
}

fn path_named(_nm: &str) -> T {
    T::Path
}

fn fill(r: f64) -> T {
    T::Fill(r)
}

fn group(items: Vec<T>) -> T {
    T::Group(items)
}

fn node(t: &T) -> ShapeNode {
    match t {
        T::Path => ShapeNode::Geometry,
        T::Fill(_) => ShapeNode::Style,
        T::Group(items) => ShapeNode::Group { items: items.iter().map(node).collect() },
        T::Trim => ShapeNode::TrimPath,
        T::Transform(identity) => ShapeNode::Transform { identity: *identity },
    }
}

fn at<'a>(items: &'a [T], path: &[usize]) -> &'a T {
    let t = &items[path[0]];
    if path.len() == 1 {
        return t;
    }
    match t {
        T::Group(inner) => at(inner, &path[1..]),
        _ => panic!("a path runs through a leaf"),
    }
}

fn run(shapes: &[T]) -> (Vec<Placed>, Tables) {
    let items: Vec<ShapeNode> = shapes.iter().map(node).collect();
    let mut tables = Tables { styles: Vec::new(), shapes: Vec::new() };
    let mut out = Vec::new();
    walk_shapes(&items, &vec![], &vec![], None, &mut tables, &mut out);
    (out, tables)
}

/// The red channel of each placed primitive's first style, in the order they
/// were placed; `-1` for one with no style and `-2` for a group.
fn walk(shapes: &[T]) -> Vec<f64> {
    let (out, tables) = run(shapes);
    out.iter()
        .map(|r| match r {
            Placed::Prim(p) => match p.y.first() {
                Some(id) => match at(shapes, &tables.styles[*id as usize]) {
                    T::Fill(v) => *v,
                    _ => -1.0,
                },
                None => -1.0,
            },
            Placed::Group(..) => -2.0,
        })
        .collect()
}

#[test]
fn group_items_paint_in_reverse_it_order() {
    let shapes = vec![group(vec![
        group(vec![path_named("first"), fill(0.1)]),
        group(vec![path_named("second"), fill(0.2)]),
    ])];
    assert_eq!(walk(&shapes), vec![0.2, 0.1]);
}

#[test]
fn a_fill_reaches_only_the_items_above_it() {
    let shapes = vec![group(vec![
        path_named("top"),
        fill(0.1),
        path_named("bottom"),
        fill(0.2),
    ])];
    assert_eq!(walk(&shapes), vec![0.2, 0.1]);
}

#[test]
fn an_inner_fill_outranks_an_inherited_one() {
    let shapes = vec![group(vec![group(vec![path_named("p"), fill(0.1)]), fill(0.2)])];
    assert_eq!(walk(&shapes), vec![0.1]);
}

#[test]
fn ids_are_handed_out_backwards_and_a_primitive_lists_its_own_styles_first() {
    let shapes = vec![T::Path, fill(0.1), T::Path, fill(0.2), fill(0.3)];
    let (out, tables) = run(&shapes);
    assert_eq!(tables.styles, vec![vec![4], vec![3], vec![1]]);
    assert_eq!(tables.shapes, vec![vec![2], vec![0]]);
    match (&out[0], &out[1]) {
        (Placed::Prim(a), Placed::Prim(b)) => {
            assert_eq!((a.s, a.y.clone(), a.tm), (0, vec![1, 0], None));
            assert_eq!((b.s, b.y.clone(), b.tm), (1, vec![2, 1, 0], None));
        }
        _ => panic!("expected two primitives"),
    }
}

#[test]
fn a_trim_reaches_the_items_above_it_and_the_nearest_one_wins() {
    let shapes = vec![T::Path, T::Trim, T::Path, T::Trim, T::Path];
    let (out, tables) = run(&shapes);
    assert_eq!(tables.styles, vec![vec![3], vec![1]]);
    let tms: Vec<Option<u32>> = out
        .iter()
        .map(|r| match r {
            Placed::Prim(p) => p.tm,
            _ => panic!("expected primitives"),
        })
        .collect();
    assert_eq!(tms, vec![None, Some(0), Some(1)]);
}

#[test]
fn a_group_under_a_transform_of_its_own_is_placed_as_one_group() {
    let shapes = vec![
        group(vec![T::Path, fill(0.5), T::Transform(false)]),
        group(vec![T::Path, T::Transform(true)]),
    ];
    let (out, tables) = run(&shapes);
    assert_eq!(out.len(), 2);
    match &out[0] {
        Placed::Prim(p) => assert_eq!(tables.shapes[p.s as usize], vec![1, 0]),
        _ => panic!("an identity transform does not make a group"),
    }
    match &out[1] {
        Placed::Group(inner, t) => {
            assert_eq!(t, &vec![0, 2]);
            assert_eq!(inner.len(), 1);
        }
        _ => panic!("a transform of its own makes a group"),
    }
}

#[test]
fn a_module_encodes_unless_a_layer_has_no_lowering() {
    let shape = Layer {
        index: 1,
        kind: LayerKind::Shape { shapes: vec![ShapeNode::Group { items: vec![ShapeNode::Geometry, ShapeNode::Style] }] },
    };
    let ok = Module { layers: vec![shape, Layer { index: 2, kind: LayerKind::Null }], assets: vec![] };
    assert!(can_encode(&ok));
    let text = Module { layers: vec![Layer { index: 1, kind: LayerKind::Other { ty: 5 } }], assets: vec![] };
    assert!(!can_encode(&text));
    let nested = Module {
        layers: vec![Layer { index: 1, kind: LayerKind::Precomp }],
        assets: vec![
            Asset { kind: AssetKind::Image },
            Asset { kind: AssetKind::Precomp { layers: vec![Layer { index: 1, kind: LayerKind::Other { ty: 6 } }] } },
        ],
    };
    assert!(!can_encode(&nested));
}
