//! The parts of the compiler's intermediate representation that the verified
//! passes read: layers and their shape trees, precomp assets, and the effects
//! an expression body can look up by name.

use vstd::prelude::*;

verus! {

/// One parameter of a layer effect, as an expression body can name it.
pub struct EffectParam {
    pub name: Option<String>,
    pub match_name: Option<String>,
}

/// A layer effect and its parameters.
pub struct Effect {
    pub name: Option<String>,
    pub match_name: Option<String>,
    pub parameters: Vec<EffectParam>,
}

/// A node of a shape layer's content tree, as far as the walk over it tells
/// nodes apart.
pub enum ShapeNode {
    /// A group and the items inside it, in authored (`it`) order.
    Group { items: Vec<ShapeNode> },
    /// A fill, stroke, gradient fill or gradient stroke.
    Style,
    /// A trim-paths modifier.
    TrimPath,
    /// Geometry: a rectangle, ellipse, path or polystar.
    Geometry,
    /// A group transform, and whether every component of it is statically
    /// the identity.
    Transform { identity: bool },
    /// Any other item: nothing the encoder carries.
    Item,
}

/// What a layer draws.
pub enum LayerKind {
    Shape { shapes: Vec<ShapeNode> },
    Null,
    Solid,
    Precomp,
    Image,
    /// A layer type the compiler has no lowering for (text, audio, …), by its
    /// Lottie type number.
    Other { ty: u32 },
}

/// One layer of a composition.
pub struct Layer {
    pub index: u32,
    pub kind: LayerKind,
}

/// What an asset holds.
pub enum AssetKind {
    Precomp { layers: Vec<Layer> },
    Image,
}

/// A reusable asset: a precomposition or an image.
pub struct Asset {
    pub kind: AssetKind,
}

/// How a stroke ends.
#[derive(Clone, Copy, PartialEq, Eq, Structural, Debug)]
pub enum LineCap {
    Butt,
    Round,
    Square,
}

/// How stroke segments meet.
#[derive(Clone, Copy, PartialEq, Eq, Structural, Debug)]
pub enum LineJoin {
    Miter,
    Round,
    Bevel,
}

/// A lowered animation: its root layers and its assets.
pub struct Module {
    pub layers: Vec<Layer>,
    pub assets: Vec<Asset>,
}

} // verus!
