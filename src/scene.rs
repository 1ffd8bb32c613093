//! The part of the scene graph that clip paths and masks are made of, and
//! the renderer that paints it.

use vstd::prelude::*;
use crate::surface::Surface;
use usvg::{NonZeroRect, Transform};

verus! {

/// usvg's affine transform, carried through unchanged.
#[verifier::external_type_specification]
#[verifier::external_body]
pub struct ExTransform(Transform);

/// usvg's rectangle of positive size, carried through unchanged.
#[verifier::external_type_specification]
#[verifier::external_body]
pub struct ExNonZeroRect(NonZeroRect);

/// Relies on usvg's `Transform::pre_concat` (from tiny-skia-path): `a`
/// followed by `b` in local coordinates.
#[verifier::external_body]
pub(crate) fn pre_concat(a: Transform, b: Transform) -> (r: Transform) {
    a.pre_concat(b)
}

/// Relies on usvg's `Transform::from_bbox` (from tiny-skia-path): the map
/// from the unit square onto `bbox`.
#[verifier::external_body]
pub(crate) fn from_bbox(bbox: NonZeroRect) -> (r: Transform) {
    Transform::from_bbox(bbox)
}

/// The coordinate system that a definition's geometry is written in.
#[derive(Clone, Copy, Debug)]
pub enum Units {
    /// The user space of the element that refers to the definition.
    UserSpaceOnUse,
    /// The unit square, mapped onto the referring element's bounding box.
    ObjectBoundingBox,
}

/// How a shape is painted onto a surface.
#[derive(Clone, Copy, Debug)]
pub enum PaintMode {
    /// The shape's coverage is erased from the surface.
    Clear,
    /// The shape is painted over the surface with its own fill and stroke.
    Normal,
}

/// A group node.
#[derive(Clone, Copy, Debug)]
pub struct Group {
    /// Index of the clip path in `Defs::clip_paths` that clips the group.
    pub clip_path: Option<usize>,
}

/// What a node is.
#[derive(Clone, Copy, Debug)]
pub enum NodeKind {
    /// A shape; the renderer knows it by this number.
    Path(usize),
    /// A group of the node's children.
    Group(Group),
    /// Any other node, which clip paths ignore.
    Other,
}

/// A node of the scene graph.
pub struct Node {
    /// Transform from the node's coordinates to its parent's.
    pub transform: Transform,
    /// What the node is.
    pub kind: NodeKind,
    /// Children, in painting order.
    pub children: Vec<Node>,
}

/// A clip path definition.
pub struct ClipPath {
    /// Transform applied to the clip path's children.
    pub transform: Transform,
    /// The coordinate system of the children.
    pub units: Units,
    /// Index of a further clip path in `Defs::clip_paths` that clips this one.
    pub clip_path: Option<usize>,
    /// The shapes and groups whose union is the clip region.
    pub children: Vec<Node>,
}

/// A mask definition. The renderer paints its content, knowing it by the
/// mask's index in `Defs::masks`.
pub struct Mask {
    /// The region outside which the mask hides everything.
    pub rect: NonZeroRect,
    /// The coordinate system of `rect`.
    pub units: Units,
    /// The coordinate system of the content.
    pub content_units: Units,
    /// Index of a further mask in `Defs::masks` applied after this one.
    pub mask: Option<usize>,
}

/// The document's table of definitions; references between them are
/// indices, and one out of range refers to nothing.
pub struct Defs {
    /// Clip path definitions.
    pub clip_paths: Vec<ClipPath>,
    /// Mask definitions.
    pub masks: Vec<Mask>,
}

/// Paints shapes and mask content onto surfaces.
pub trait SceneRenderer {
    /// Paints shape `path` onto `surface` under `ts`.
    fn draw_path(&mut self, path: usize, ts: Transform, mode: PaintMode, surface: &mut Surface);

    /// Paints the content of mask `mask` onto `surface` under `content_ts`,
    /// limited to `region` under `region_ts`.
    fn draw_mask_content(
        &mut self,
        mask: usize,
        region: NonZeroRect,
        region_ts: Transform,
        content_ts: Transform,
        surface: &mut Surface,
    );
}

} // verus!
