use resvg::clip_and_mask::{clip, mask};
use resvg::pool::SurfacePool;
use resvg::scene::{ClipPath, Defs, Group, Mask, Node, NodeKind, PaintMode, SceneRenderer, Units};
use resvg::surface::Surface;
use usvg::{NonZeroRect, Transform};

const SIZE: usize = 4;
const RED: u32 = 0xffff_0000;
const WHITE: u32 = 0xffff_ffff;
const BLACK: u32 = 0xff00_0000;

/// Shapes are rectangles in their own coordinates; mask content fills the
/// mask region with one colour.
struct RectRenderer {
    shapes: Vec<(f32, f32, f32, f32)>,
    mask_colours: Vec<raqote::SolidSource>,
}

fn to_raqote(ts: Transform) -> raqote::Transform {
    raqote::Transform::new(ts.sx, ts.ky, ts.kx, ts.sy, ts.tx, ts.ty)
}

fn fill(
    surface: &mut Surface,
    rect: (f32, f32, f32, f32),
    ts: Transform,
    colour: raqote::SolidSource,
    blend_mode: raqote::BlendMode,
) {
    let mut dt = raqote::DrawTarget::from_vec(
        surface.width() as i32,
        surface.height() as i32,
        surface.pixels().to_vec(),
    );
    dt.set_transform(&to_raqote(ts));
    let options = raqote::DrawOptions { blend_mode, ..raqote::DrawOptions::new() };
    dt.fill_rect(rect.0, rect.1, rect.2, rect.3, &raqote::Source::Solid(colour), &options);
    assert!(surface.set_pixels(dt.into_vec()));
}

impl SceneRenderer for RectRenderer {
    fn draw_path(&mut self, path: usize, ts: Transform, mode: PaintMode, surface: &mut Surface) {
        let blend = match mode {
            PaintMode::Clear => raqote::BlendMode::Clear,
            PaintMode::Normal => raqote::BlendMode::SrcOver,
        };
        let white = raqote::SolidSource { r: 255, g: 255, b: 255, a: 255 };
        fill(surface, self.shapes[path], ts, white, blend);
    }

    fn draw_mask_content(
        &mut self,
        mask: usize,
        region: NonZeroRect,
        region_ts: Transform,
        _content_ts: Transform,
        surface: &mut Surface,
    ) {
        let rect = (region.x(), region.y(), region.width(), region.height());
        fill(surface, rect, region_ts, self.mask_colours[mask], raqote::BlendMode::SrcOver);
    }
}

fn renderer(shapes: Vec<(f32, f32, f32, f32)>) -> RectRenderer {
    RectRenderer { shapes, mask_colours: Vec::new() }
}

fn bbox() -> NonZeroRect {
    NonZeroRect::from_xywh(0.0, 0.0, SIZE as f32, SIZE as f32).unwrap()
}

fn unit_rect() -> NonZeroRect {
    NonZeroRect::from_xywh(0.0, 0.0, 1.0, 1.0).unwrap()
}

fn filled(p: u32) -> Surface {
    let mut s = Surface::new(SIZE, SIZE).unwrap();
    s.fill(p);
    s
}

fn pool(limit: usize) -> SurfacePool {
    SurfacePool::new(SIZE, SIZE, limit).unwrap()
}

fn shape(path: usize) -> Node {
    Node { transform: Transform::identity(), kind: NodeKind::Path(path), children: Vec::new() }
}

fn clip_path(units: Units, next: Option<usize>, children: Vec<Node>) -> ClipPath {
    ClipPath { transform: Transform::identity(), units, clip_path: next, children }
}

fn column(s: &Surface, x: usize) -> Vec<u32> {
    (0..SIZE).map(|y| s.pixels()[y * SIZE + x]).collect()
}

fn row(s: &Surface, y: usize) -> Vec<u32> {
    s.pixels()[y * SIZE..(y + 1) * SIZE].to_vec()
}

#[test]
fn empty_clip_path_erases_everything() {
    let defs = Defs { clip_paths: vec![clip_path(Units::UserSpaceOnUse, None, Vec::new())], masks: Vec::new() };
    let mut target = filled(RED);
    let mut p = pool(4);
    clip(&mut renderer(Vec::new()), &defs, 0, Transform::identity(), bbox(), &mut p, &mut target);
    assert!(target.pixels().iter().all(|&px| px == 0));
}

#[test]
fn left_half_clip_keeps_left_half() {
    let defs = Defs {
        clip_paths: vec![clip_path(Units::ObjectBoundingBox, None, vec![shape(0)])],
        masks: Vec::new(),
    };
    let mut target = filled(RED);
    let mut p = pool(4);
    let mut r = renderer(vec![(0.0, 0.0, 0.5, 1.0)]);
    clip(&mut r, &defs, 0, Transform::identity(), bbox(), &mut p, &mut target);
    for y in 0..SIZE {
        assert_eq!(row(&target, y), vec![RED, RED, 0, 0]);
    }
}

#[test]
fn clip_by_own_geometry_changes_nothing() {
    let mut target = Surface::new(SIZE, SIZE).unwrap();
    let mut r = renderer(vec![(1.0, 1.0, 2.0, 2.0)]);
    r.draw_path(0, Transform::identity(), PaintMode::Normal, &mut target);
    let before = target.pixels().to_vec();
    let defs = Defs {
        clip_paths: vec![clip_path(Units::UserSpaceOnUse, None, vec![shape(0)])],
        masks: Vec::new(),
    };
    let mut p = pool(4);
    clip(&mut r, &defs, 0, Transform::identity(), bbox(), &mut p, &mut target);
    assert_eq!(target.pixels().to_vec(), before);
    assert_eq!(before.iter().filter(|&&px| px == WHITE).count(), 4);
}

#[test]
fn chained_clip_paths_intersect() {
    let defs = Defs {
        clip_paths: vec![
            clip_path(Units::ObjectBoundingBox, Some(1), vec![shape(0)]),
            clip_path(Units::ObjectBoundingBox, None, vec![shape(1)]),
        ],
        masks: Vec::new(),
    };
    let mut r = renderer(vec![(0.0, 0.0, 0.5, 1.0), (0.0, 0.0, 1.0, 0.5)]);
    let mut target = filled(RED);
    let mut p = pool(4);
    clip(&mut r, &defs, 0, Transform::identity(), bbox(), &mut p, &mut target);
    assert_eq!(row(&target, 0), vec![RED, RED, 0, 0]);
    assert_eq!(row(&target, 1), vec![RED, RED, 0, 0]);
    assert_eq!(row(&target, 2), vec![0, 0, 0, 0]);
    assert_eq!(row(&target, 3), vec![0, 0, 0, 0]);
}

#[test]
fn clip_path_cycle_terminates() {
    let defs = Defs {
        clip_paths: vec![clip_path(Units::ObjectBoundingBox, Some(0), vec![shape(0)])],
        masks: Vec::new(),
    };
    let mut r = renderer(vec![(0.0, 0.0, 0.5, 1.0)]);
    let mut target = filled(RED);
    let mut p = pool(64);
    clip(&mut r, &defs, 0, Transform::identity(), bbox(), &mut p, &mut target);
    assert_eq!(column(&target, 0), vec![RED; SIZE]);
    assert_eq!(column(&target, 3), vec![0; SIZE]);
}

#[test]
fn clipped_group_inside_clip_path() {
    // The group's only child covers the whole box; the group's own clip
    // path, drawn in the coordinates of that child, keeps its top half, so
    // only the top half survives.
    let group = Node {
        transform: Transform::identity(),
        kind: NodeKind::Group(Group { clip_path: Some(1) }),
        children: vec![shape(0)],
    };
    let defs = Defs {
        clip_paths: vec![
            clip_path(Units::ObjectBoundingBox, None, vec![group]),
            clip_path(Units::UserSpaceOnUse, None, vec![shape(1)]),
        ],
        masks: Vec::new(),
    };
    let mut r = renderer(vec![(0.0, 0.0, 1.0, 1.0), (0.0, 0.0, 1.0, 0.5)]);
    let mut target = filled(RED);
    let mut p = pool(4);
    clip(&mut r, &defs, 0, Transform::identity(), bbox(), &mut p, &mut target);
    assert_eq!(row(&target, 0), vec![RED; SIZE]);
    assert_eq!(row(&target, 1), vec![RED; SIZE]);
    assert_eq!(row(&target, 2), vec![0; SIZE]);
    assert_eq!(row(&target, 3), vec![0; SIZE]);
}

#[test]
fn unknown_clip_path_changes_nothing() {
    let defs = Defs { clip_paths: Vec::new(), masks: Vec::new() };
    let mut target = filled(RED);
    let mut p = pool(4);
    clip(&mut renderer(Vec::new()), &defs, 3, Transform::identity(), bbox(), &mut p, &mut target);
    assert_eq!(target.pixels().to_vec(), vec![RED; SIZE * SIZE]);
}

#[test]
fn exhausted_pool_skips_clip() {
    let defs = Defs { clip_paths: vec![clip_path(Units::UserSpaceOnUse, None, Vec::new())], masks: Vec::new() };
    let mut target = filled(RED);
    let mut p = pool(0);
    clip(&mut renderer(Vec::new()), &defs, 0, Transform::identity(), bbox(), &mut p, &mut target);
    assert_eq!(target.pixels().to_vec(), vec![RED; SIZE * SIZE]);
    assert!(p.acquire().is_none());
}

fn mask_def(next: Option<usize>) -> Mask {
    Mask { rect: unit_rect(), units: Units::ObjectBoundingBox, content_units: Units::ObjectBoundingBox, mask: next }
}

fn mask_renderer(colours: Vec<raqote::SolidSource>) -> RectRenderer {
    RectRenderer { shapes: Vec::new(), mask_colours: colours }
}

fn grey(v: u8) -> raqote::SolidSource {
    raqote::SolidSource { r: v, g: v, b: v, a: 255 }
}

#[test]
fn white_mask_keeps_target() {
    let defs = Defs { clip_paths: Vec::new(), masks: vec![mask_def(None)] };
    let mut target = filled(RED);
    let mut p = pool(4);
    mask(&mut mask_renderer(vec![grey(255)]), &defs, 0, Transform::identity(), bbox(), &mut p, &mut target);
    assert_eq!(target.pixels().to_vec(), vec![RED; SIZE * SIZE]);
}

#[test]
fn black_mask_erases_target() {
    let defs = Defs { clip_paths: Vec::new(), masks: vec![mask_def(None)] };
    let mut target = filled(RED);
    let mut p = pool(4);
    mask(&mut mask_renderer(vec![grey(0)]), &defs, 0, Transform::identity(), bbox(), &mut p, &mut target);
    assert_eq!(target.pixels().to_vec(), vec![0; SIZE * SIZE]);
}

#[test]
fn chained_masks_multiply() {
    // Grey 128 has luminance 128; each stage scales by 129 / 256.
    let defs = Defs { clip_paths: Vec::new(), masks: vec![mask_def(Some(1)), mask_def(None)] };
    let mut target = filled(WHITE);
    let mut p = pool(4);
    mask(&mut mask_renderer(vec![grey(128), grey(128)]), &defs, 0, Transform::identity(), bbox(), &mut p, &mut target);
    let once = 255 * 129 / 256;
    let twice = once * 129 / 256;
    assert_eq!(once, 128);
    assert_eq!(twice, 64);
    let expected = (twice << 24) | (twice << 16) | (twice << 8) | twice;
    assert_eq!(target.pixels().to_vec(), vec![expected; SIZE * SIZE]);
}

#[test]
fn exhausted_pool_skips_mask() {
    let defs = Defs { clip_paths: Vec::new(), masks: vec![mask_def(None)] };
    let mut target = filled(RED);
    let mut p = pool(0);
    mask(&mut mask_renderer(vec![grey(0)]), &defs, 0, Transform::identity(), bbox(), &mut p, &mut target);
    assert_eq!(target.pixels().to_vec(), vec![RED; SIZE * SIZE]);
}

#[test]
fn mask_region_limits_content() {
    // Content outside the mask's region does not count: the right half of
    // the target is erased even though the content is white.
    let half = NonZeroRect::from_xywh(0.0, 0.0, 0.5, 1.0).unwrap();
    let defs = Defs {
        clip_paths: Vec::new(),
        masks: vec![Mask { rect: half, units: Units::ObjectBoundingBox, content_units: Units::UserSpaceOnUse, mask: None }],
    };
    let mut target = filled(RED);
    let mut p = pool(4);
    mask(&mut mask_renderer(vec![grey(255)]), &defs, 0, Transform::identity(), bbox(), &mut p, &mut target);
    for y in 0..SIZE {
        assert_eq!(row(&target, y), vec![RED, RED, 0, 0]);
    }
}

#[test]
fn clip_path_without_shapes_erases_everything() {
    let other = Node { transform: Transform::identity(), kind: NodeKind::Other, children: Vec::new() };
    let dangling = Node {
        transform: Transform::identity(),
        kind: NodeKind::Group(Group { clip_path: Some(7) }),
        children: vec![shape(0)],
    };
    let defs = Defs {
        clip_paths: vec![clip_path(Units::UserSpaceOnUse, None, vec![other, dangling])],
        masks: Vec::new(),
    };
    let mut target = filled(RED);
    let mut p = pool(4);
    clip(&mut renderer(vec![(0.0, 0.0, 4.0, 4.0)]), &defs, 0, Transform::identity(), bbox(), &mut p, &mut target);
    assert!(target.pixels().iter().all(|&px| px == 0));
}

#[test]
fn chain_to_empty_clip_path_erases_everything() {
    let defs = Defs {
        clip_paths: vec![
            clip_path(Units::ObjectBoundingBox, Some(1), vec![shape(0)]),
            clip_path(Units::ObjectBoundingBox, None, Vec::new()),
        ],
        masks: Vec::new(),
    };
    let mut target = filled(RED);
    let mut p = pool(4);
    clip(&mut renderer(vec![(0.0, 0.0, 1.0, 1.0)]), &defs, 0, Transform::identity(), bbox(), &mut p, &mut target);
    assert!(target.pixels().iter().all(|&px| px == 0));
}
