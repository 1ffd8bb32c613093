//! Resolution of clip paths and masks onto a target surface.

use vstd::prelude::*;
use usvg::{NonZeroRect, Transform};
use crate::pixel::{
    alpha_of, dst_in_seq, dst_out_seq, lemma_dst_in_within, lemma_dst_out_extremes,
    lemma_dst_out_within, lemma_within_trans, lemma_channels, lemma_scale_keeps_within,
    lemma_dst_out_of_clear, lemma_white_keeps_black_erases, lemma_xor_transparent, luminance_seq,
    xor_seq, OPAQUE_WHITE, within, OPAQUE_BLACK,
};
use crate::pool::SurfacePool;
use crate::scene::{
    from_bbox, pre_concat, ClipPath, Defs, Group, Node, NodeKind, PaintMode, SceneRenderer, Units,
};
use crate::surface::Surface;

verus! {

/// How many clip path or mask references are followed from one another
/// before the rest of a chain is ignored; this also stops cycles.
pub const MAX_REFERENCE_DEPTH: usize = 32;

/// `after` is `before` with some coverage taken away and none added.
pub open spec fn only_erased(after: Seq<u32>, before: Seq<u32>) -> bool {
    &&& after.len() == before.len()
    &&& forall|i: int| 0 <= i < after.len() ==> within(#[trigger] after[i], before[i])
}

/// Every pixel is fully transparent.
pub open spec fn all_clear(s: Seq<u32>) -> bool {
    forall|i: int| 0 <= i < s.len() ==> #[trigger] s[i] == 0u32
}

/// Whether `r` names a clip path of `defs`.
pub open spec fn clip_ref_resolves(defs: &Defs, r: Option<usize>) -> bool {
    match r {
        Some(i) => i < defs.clip_paths@.len(),
        None => false,
    }
}

/// Whether `r` names a mask of `defs`.
pub open spec fn mask_ref_resolves(defs: &Defs, r: Option<usize>) -> bool {
    match r {
        Some(i) => i < defs.masks@.len(),
        None => false,
    }
}

/// A child of a clip path that takes nothing from the clip layer: neither a
/// shape nor a group with a clip path of its own.
pub open spec fn draws_nothing(defs: &Defs, n: Node) -> bool {
    match n.kind {
        NodeKind::Path(_) => false,
        NodeKind::Group(g) => !clip_ref_resolves(defs, g.clip_path),
        NodeKind::Other => true,
    }
}

/// A clip path with no clip shapes: none of its children draws anything.
pub open spec fn has_no_shapes(defs: &Defs, cp: ClipPath) -> bool {
    forall|k: int| 0 <= k < cp.children@.len() ==> draws_nothing(defs, #[trigger] cp.children@[k])
}

/// A clip path whose chained clip path has no clip shapes.
pub open spec fn chains_to_no_shapes(defs: &Defs, cp: ClipPath) -> bool {
    match cp.clip_path {
        Some(j) => j < defs.clip_paths@.len() && has_no_shapes(defs, defs.clip_paths@[j as int]),
        None => false,
    }
}

proof fn lemma_clear_layer_keeps(mid: Seq<u32>)
    ensures
        dst_out_seq(Seq::new(mid.len(), |i: int| 0u32), mid) == mid,
{
    let zeros = Seq::new(mid.len(), |i: int| 0u32);
    assert forall|k: int| 0 <= k < mid.len() implies #[trigger] dst_out_seq(zeros, mid)[k]
        == mid[k] by {
        assert(alpha_of(zeros[k]) == 0);
        lemma_dst_out_extremes(zeros[k], mid[k]);
    }
    assert(dst_out_seq(zeros, mid) =~= mid);
}

proof fn lemma_white_layer_keeps(mid: Seq<u32>)
    ensures
        dst_in_seq(luminance_seq(Seq::new(mid.len(), |i: int| OPAQUE_WHITE)), mid) == mid,
{
    let whites = Seq::new(mid.len(), |i: int| OPAQUE_WHITE);
    assert forall|k: int| 0 <= k < mid.len() implies #[trigger] dst_in_seq(
        luminance_seq(whites),
        mid,
    )[k] == mid[k] by {
        lemma_white_keeps_black_erases(mid[k]);
    }
    assert(dst_in_seq(luminance_seq(whites), mid) =~= mid);
}

proof fn lemma_clear_xor_keeps(d: Seq<u32>)
    ensures
        xor_seq(Seq::new(d.len(), |i: int| 0u32), d) == d,
{
    let zeros = Seq::new(d.len(), |i: int| 0u32);
    assert forall|k: int| 0 <= k < d.len() implies #[trigger] xor_seq(zeros, d)[k] == d[k] by {
        lemma_xor_transparent(d[k]);
    }
    assert(xor_seq(zeros, d) =~= d);
}

proof fn lemma_clear_stays_clear(layer: Seq<u32>, mid: Seq<u32>)
    requires
        all_clear(mid),
    ensures
        all_clear(dst_out_seq(layer, mid)),
{
    assert forall|k: int| 0 <= k < mid.len() implies #[trigger] dst_out_seq(layer, mid)[k]
        == 0u32 by {
        lemma_dst_out_of_clear(layer[k]);
    }
}

proof fn lemma_only_erased_refl(s: Seq<u32>)
    ensures
        only_erased(s, s),
{
}

proof fn lemma_dst_out_erases(src: Seq<u32>, mid: Seq<u32>, before: Seq<u32>)
    requires
        only_erased(mid, before),
    ensures
        only_erased(dst_out_seq(src, mid), before),
{
    assert forall|i: int| 0 <= i < mid.len() implies within(
        #[trigger] dst_out_seq(src, mid)[i],
        before[i],
    ) by {
        lemma_dst_out_within(src[i], mid[i]);
        lemma_within_trans(dst_out_seq(src, mid)[i], mid[i], before[i]);
    }
}

proof fn lemma_dst_in_erases(src: Seq<u32>, mid: Seq<u32>, before: Seq<u32>)
    requires
        only_erased(mid, before),
    ensures
        only_erased(dst_in_seq(src, mid), before),
{
    assert forall|i: int| 0 <= i < mid.len() implies within(
        #[trigger] dst_in_seq(src, mid)[i],
        before[i],
    ) by {
        lemma_dst_in_within(src[i], mid[i]);
        lemma_within_trans(dst_in_seq(src, mid)[i], mid[i], before[i]);
    }
}

/// Clipping by a layer keeps each target pixel where the clip shapes cleared
/// the layer and erases it where the layer was left opaque; so a clip path
/// whose shapes cover exactly an element's own geometry leaves the element
/// as it was inside that geometry and nothing outside it.
pub proof fn lemma_clip_keeps_covered(layer: Seq<u32>, target: Seq<u32>)
    ensures
        forall|i: int|
            0 <= i < target.len() && alpha_of(layer[i]) == 0 ==> #[trigger] dst_out_seq(
                layer,
                target,
            )[i] == target[i],
        forall|i: int|
            0 <= i < target.len() && alpha_of(layer[i]) == 255 ==> #[trigger] dst_out_seq(
                layer,
                target,
            )[i] == 0u32,
{
    assert forall|i: int| 0 <= i < target.len() implies (alpha_of(layer[i]) == 0 ==> #[trigger] dst_out_seq(layer, target)[i] == target[i]) && (alpha_of(layer[i]) == 255 ==> dst_out_seq(layer, target)[i] == 0u32) by {
        lemma_dst_out_extremes(layer[i], target[i]);
    }
}

/// Chained clip paths intersect: clipping by `first` after the chained
/// `second` leaves no pixel with more coverage than clipping by `first`
/// alone, nor than clipping by `second` alone.
pub proof fn lemma_chained_clips_intersect(first: Seq<u32>, second: Seq<u32>, target: Seq<u32>)
    ensures
        only_erased(dst_out_seq(first, dst_out_seq(second, target)), dst_out_seq(first, target)),
        only_erased(dst_out_seq(first, dst_out_seq(second, target)), dst_out_seq(second, target)),
{
    let both = dst_out_seq(first, dst_out_seq(second, target));
    assert forall|i: int| 0 <= i < both.len() implies within(
        #[trigger] both[i],
        dst_out_seq(first, target)[i],
    ) && within(both[i], dst_out_seq(second, target)[i]) by {
        lemma_dst_out_within(second[i], target[i]);
        lemma_dst_out_within(first[i], dst_out_seq(second, target)[i]);
        lemma_channels(first[i]);
        lemma_scale_keeps_within(dst_out_seq(second, target)[i], target[i], 256 - alpha_of(first[i]));
    }
}

/// Clips `target` by clip path `clip_path` of `defs`: what the clip path's
/// shapes do not cover is erased. `ts` is the target's current transform and
/// `bbox` the bounding box of the clipped element.
///
/// The target becomes the result of the chained clip path (or the target
/// itself, when there is none), composited destination-out with a clip
/// layer. When the pool has no surface left, or the index refers to nothing,
/// the target is left as it was. A clip path without clip shapes erases the
/// whole target, and so does one that chains to such a clip path. In every
/// case the pool ends as it began.
pub fn clip<R: SceneRenderer>(
    renderer: &mut R,
    defs: &Defs,
    clip_path: usize,
    ts: Transform,
    bbox: NonZeroRect,
    pool: &mut SurfacePool,
    target: &mut Surface,
)
    requires
        old(pool).spec_width() == old(target).spec_width(),
        old(pool).spec_height() == old(target).spec_height(),
    ensures
        *final(pool) == *old(pool),
        final(target).same_size(old(target)),
        only_erased(final(target)@, old(target)@),
        !old(pool).available() ==> final(target)@ == old(target)@,
        clip_path >= defs.clip_paths@.len() ==> final(target)@ == old(target)@,
        old(pool).available() && clip_path < defs.clip_paths@.len() && has_no_shapes(
            defs,
            defs.clip_paths@[clip_path as int],
        ) ==> all_clear(final(target)@),
        old(pool).in_use() + 2 <= old(pool).limit() && clip_path < defs.clip_paths@.len()
            && chains_to_no_shapes(defs, defs.clip_paths@[clip_path as int]) ==> all_clear(
            final(target)@,
        ),
        old(pool).available() && clip_path < defs.clip_paths@.len() ==> exists|
            layer: Seq<u32>,
            mid: Seq<u32>,
        |
            {
                &&& layer.len() == mid.len()
                &&& only_erased(mid, old(target)@)
                &&& !clip_ref_resolves(defs, defs.clip_paths@[clip_path as int].clip_path)
                    ==> mid == old(target)@
                &&& final(target)@ == dst_out_seq(layer, mid)
            },
{
    if clip_path < defs.clip_paths.len() {
        clip_with_depth(
            renderer,
            defs,
            &defs.clip_paths[clip_path],
            ts,
            bbox,
            pool,
            target,
            MAX_REFERENCE_DEPTH,
        );
    }
}

fn clip_with_depth<R: SceneRenderer>(
    renderer: &mut R,
    defs: &Defs,
    cp: &ClipPath,
    ts: Transform,
    bbox: NonZeroRect,
    pool: &mut SurfacePool,
    target: &mut Surface,
    depth: usize,
)
    requires
        old(pool).spec_width() == old(target).spec_width(),
        old(pool).spec_height() == old(target).spec_height(),
    ensures
        *final(pool) == *old(pool),
        final(target).same_size(old(target)),
        only_erased(final(target)@, old(target)@),
        !old(pool).available() ==> final(target)@ == old(target)@,
        old(pool).available() && has_no_shapes(defs, *cp) ==> all_clear(final(target)@),
        old(pool).in_use() + 2 <= old(pool).limit() && depth > 0 && chains_to_no_shapes(
            defs,
            *cp,
        ) ==> all_clear(final(target)@),
        old(pool).available() ==> exists|layer: Seq<u32>, mid: Seq<u32>|
            {
                &&& layer.len() == mid.len()
                &&& only_erased(mid, old(target)@)
                &&& !clip_ref_resolves(defs, cp.clip_path) ==> mid == old(target)@
                &&& final(target)@ == dst_out_seq(layer, mid)
            },
    decreases depth, 0nat,
{
    let ghost pool0 = *old(pool);
    let mut scratch = match pool.acquire() {
        Some(s) => s,
        None => return ,
    };
    let ghost pool1 = *pool;
    scratch.fill(OPAQUE_BLACK);
    let ghost opaque = scratch@;
    assert(forall|k: int| 0 <= k < opaque.len() ==> opaque[k] == OPAQUE_BLACK);
    let mut base = pre_concat(ts, cp.transform);
    match cp.units {
        Units::ObjectBoundingBox => {
            base = pre_concat(base, from_bbox(bbox));
        },
        Units::UserSpaceOnUse => {},
    }
    let mut i: usize = 0;
    while i < cp.children.len()
        invariant
            i <= cp.children@.len(),
            *pool == pool1,
            pool1.released() == pool0,
            pool1.in_use() > 0,
            pool1.spec_width() == target.spec_width(),
            pool1.spec_height() == target.spec_height(),
            (forall|k: int| 0 <= k < i ==> draws_nothing(defs, #[trigger] cp.children@[k]))
                ==> scratch@ == opaque && scratch.spec_width() == pool1.spec_width()
                && scratch.spec_height() == pool1.spec_height(),
        decreases cp.children@.len() - i,
    {
        let child = &cp.children[i];
        let child_ts = pre_concat(base, child.transform);
        match child.kind {
            NodeKind::Path(p) => {
                renderer.draw_path(p, child_ts, PaintMode::Clear, &mut scratch);
            },
            NodeKind::Group(g) => {
                if depth > 0 {
                    clip_group(renderer, defs, child, g, child_ts, bbox, pool, &mut scratch, depth - 1);
                }
            },
            NodeKind::Other => {},
        }
        proof {
            if forall|k: int| 0 <= k < i + 1 ==> draws_nothing(defs, #[trigger] cp.children@[k]) {
                assert(draws_nothing(defs, cp.children@[i as int]));
            }
        }
        i = i + 1;
    }
    proof {
        lemma_only_erased_refl(target@);
    }
    match cp.clip_path {
        Some(id) => {
            if depth > 0 && id < defs.clip_paths.len() {
                clip_with_depth(
                    renderer,
                    defs,
                    &defs.clip_paths[id],
                    ts,
                    bbox,
                    pool,
                    target,
                    depth - 1,
                );
            }
        },
        None => {},
    }
    let ghost mid = target@;
    if scratch.width() != target.width() || scratch.height() != target.height() {
        proof {
            lemma_clear_layer_keeps(mid);
        }
        pool.release(scratch);
        return ;
    }
    scratch.check_well_formed();
    target.check_well_formed();
    target.composite_dst_out(&scratch);
    proof {
        lemma_dst_out_erases(scratch@, mid, old(target)@);
        if has_no_shapes(defs, *cp) {
            assert(scratch@ == opaque);
            assert forall|k: int| 0 <= k < target@.len() implies #[trigger] target@[k] == 0u32 by {
                assert(scratch@[k] == OPAQUE_BLACK);
                assert(alpha_of(OPAQUE_BLACK) == 255);
                lemma_dst_out_extremes(scratch@[k], mid[k]);
            }
        }
        if all_clear(mid) {
            lemma_clear_stays_clear(scratch@, mid);
        }
    }
    pool.release(scratch);
}

/// A group inside a clip path that has a clip path of its own: its first
/// child is painted on a layer of its own, the layer is clipped, and the
/// result is combined into `dt` by exclusive-or. A group whose clip path
/// refers to nothing, or a pool with no surface left, leaves `dt` as it was.
fn clip_group<R: SceneRenderer>(
    renderer: &mut R,
    defs: &Defs,
    node: &Node,
    g: Group,
    ts: Transform,
    bbox: NonZeroRect,
    pool: &mut SurfacePool,
    dt: &mut Surface,
    depth: usize,
)
    ensures
        *final(pool) == *old(pool),
        final(dt).same_size(old(dt)),
        !clip_ref_resolves(defs, g.clip_path) || !old(pool).available() ==> *final(dt) == *old(
            dt,
        ),
        exists|l: Seq<u32>| l.len() == old(dt)@.len() && final(dt)@ == xor_seq(l, old(dt)@),
    decreases depth, 1nat,
{
    proof {
        lemma_clear_xor_keeps(dt@);
    }
    match g.clip_path {
        Some(id) => {
            if id < defs.clip_paths.len() {
                let mut layer = match pool.acquire() {
                    Some(s) => s,
                    None => return ,
                };
                let child_ts = draw_group_child(renderer, node, ts, &mut layer);
                if layer.width() == pool.width() && layer.height() == pool.height() {
                    clip_with_depth(
                        renderer,
                        defs,
                        &defs.clip_paths[id],
                        child_ts,
                        bbox,
                        pool,
                        &mut layer,
                        depth,
                    );
                    if layer.width() == dt.width() && layer.height() == dt.height() {
                        layer.check_well_formed();
                        dt.check_well_formed();
                        dt.composite_xor(&layer);
                    }
                }
                pool.release(layer);
            }
        },
        None => {},
    }
}

/// Paints the first child of `node` onto `dt`, if it is a shape, and returns
/// the transform of that child. A node without children, or whose first
/// child is not a shape, leaves `dt` as it was.
fn draw_group_child<R: SceneRenderer>(
    renderer: &mut R,
    node: &Node,
    ts: Transform,
    dt: &mut Surface,
) -> (r: Transform)
    ensures
        node.children@.len() == 0 ==> *final(dt) == *old(dt) && r == ts,
        node.children@.len() > 0 && !(node.children@[0].kind is Path) ==> *final(dt) == *old(dt),
{
    if node.children.len() > 0 {
        let child = &node.children[0];
        let child_ts = pre_concat(ts, child.transform);
        match child.kind {
            NodeKind::Path(p) => {
                renderer.draw_path(p, child_ts, PaintMode::Normal, dt);
            },
            _ => {},
        }
        child_ts
    } else {
        ts
    }
}

/// Masks `target` by mask `mask` of `defs`: the mask's content is painted
/// on a layer, turned into alpha by its luminance, and each target pixel is
/// kept in proportion to that alpha. A mask that the mask refers to is
/// applied to the target first. `ts` is the target's current transform and
/// `bbox` the bounding box of the masked element.
///
/// The target becomes the result of the chained mask (or the target itself,
/// when there is none), composited destination-in with the luminance of a
/// painted layer. When the pool has no surface left, or the index refers to
/// nothing, the target is left as it was. In every case the pool ends as it
/// began.
pub fn mask<R: SceneRenderer>(
    renderer: &mut R,
    defs: &Defs,
    mask: usize,
    ts: Transform,
    bbox: NonZeroRect,
    pool: &mut SurfacePool,
    target: &mut Surface,
)
    requires
        old(pool).spec_width() == old(target).spec_width(),
        old(pool).spec_height() == old(target).spec_height(),
    ensures
        *final(pool) == *old(pool),
        final(target).same_size(old(target)),
        only_erased(final(target)@, old(target)@),
        !old(pool).available() ==> final(target)@ == old(target)@,
        mask >= defs.masks@.len() ==> final(target)@ == old(target)@,
        old(pool).available() && mask < defs.masks@.len() ==> exists|
            content: Seq<u32>,
            mid: Seq<u32>,
        |
            {
                &&& content.len() == mid.len()
                &&& only_erased(mid, old(target)@)
                &&& !mask_ref_resolves(defs, defs.masks@[mask as int].mask) ==> mid == old(
                    target,
                )@
                &&& final(target)@ == dst_in_seq(luminance_seq(content), mid)
            },
{
    if mask < defs.masks.len() {
        mask_with_depth(renderer, defs, mask, ts, bbox, pool, target, MAX_REFERENCE_DEPTH);
    }
}

fn mask_with_depth<R: SceneRenderer>(
    renderer: &mut R,
    defs: &Defs,
    mask: usize,
    ts: Transform,
    bbox: NonZeroRect,
    pool: &mut SurfacePool,
    target: &mut Surface,
    depth: usize,
)
    requires
        mask < defs.masks@.len(),
        old(pool).spec_width() == old(target).spec_width(),
        old(pool).spec_height() == old(target).spec_height(),
    ensures
        *final(pool) == *old(pool),
        final(target).same_size(old(target)),
        only_erased(final(target)@, old(target)@),
        !old(pool).available() ==> final(target)@ == old(target)@,
        old(pool).available() ==> exists|content: Seq<u32>, mid: Seq<u32>|
            {
                &&& content.len() == mid.len()
                &&& only_erased(mid, old(target)@)
                &&& !mask_ref_resolves(defs, defs.masks@[mask as int].mask) ==> mid == old(
                    target,
                )@
                &&& final(target)@ == dst_in_seq(luminance_seq(content), mid)
            },
    decreases depth,
{
    let m = &defs.masks[mask];
    let mut layer = match pool.acquire() {
        Some(s) => s,
        None => return ,
    };
    let region_ts = match m.units {
        Units::ObjectBoundingBox => pre_concat(ts, from_bbox(bbox)),
        Units::UserSpaceOnUse => ts,
    };
    let content_ts = match m.content_units {
        Units::ObjectBoundingBox => pre_concat(ts, from_bbox(bbox)),
        Units::UserSpaceOnUse => ts,
    };
    renderer.draw_mask_content(mask, m.rect, region_ts, content_ts, &mut layer);
    proof {
        lemma_only_erased_refl(target@);
    }
    match m.mask {
        Some(next) => {
            if depth > 0 && next < defs.masks.len() {
                mask_with_depth(renderer, defs, next, ts, bbox, pool, target, depth - 1);
            }
        },
        None => {},
    }
    let ghost mid = target@;
    if layer.width() != target.width() || layer.height() != target.height() {
        proof {
            lemma_white_layer_keeps(mid);
        }
        pool.release(layer);
        return ;
    }
    layer.check_well_formed();
    target.check_well_formed();
    let ghost content = layer@;
    target.composite_mask(&mut layer);
    proof {
        lemma_dst_in_erases(luminance_seq(content), mid, old(target)@);
    }
    pool.release(layer);
}

} // verus!
