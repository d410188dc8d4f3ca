use scene_graph::batch::{BatchIterator, PrimitiveBatch};
use scene_graph::bounds_tree::BoundsTree;
use scene_graph::color::Hsla;
use scene_graph::geometry::{point, size, Bounds, ContentMask, Corners, Size};
use scene_graph::motion::{EffectAnimation, RetainedMotionDamageFallback};
use scene_graph::number::{DevicePixels, Scalar};
use scene_graph::path::{Path, PathId};
use scene_graph::primitive::{
    AtlasTextureId, AtlasTextureKind, AtlasTile, EffectPrimitive, EffectQuad, MonochromeSprite,
    PaddedBool32, PaintSurface, PolychromeSprite, Primitive, PrimitiveKind, Quad, Shadow,
    SubpixelSprite, TileId, Underline,
};
use scene_graph::scene::Scene;
use scene_graph::surface::SurfaceHandle;
use scene_graph::time::{Duration, Instant};
use scene_graph::transform::TransformationMatrix;

#[derive(Clone, Copy, Debug, PartialEq)]
struct ScaledPixels(f32);

impl Scalar for ScaledPixels {
    fn zero_spec() -> Self {
        Self::zero()
    }
    fn one_spec() -> Self {
        Self::one()
    }
    fn half_spec() -> Self {
        Self::half()
    }
    fn plus_spec(self, other: Self) -> Self {
        self.plus(other)
    }
    fn minus_spec(self, other: Self) -> Self {
        self.minus(other)
    }
    fn times_spec(self, other: Self) -> Self {
        self.times(other)
    }
    fn negated_spec(self) -> Self {
        self.negated()
    }
    fn less_than_spec(self, other: Self) -> bool {
        self.less_than(other)
    }
    fn at_most_spec(self, other: Self) -> bool {
        self.at_most(other)
    }
    fn same_spec(self, other: Self) -> bool {
        self.same(other)
    }
    fn zero() -> Self {
        ScaledPixels(0.0)
    }
    fn one() -> Self {
        ScaledPixels(1.0)
    }
    fn half() -> Self {
        ScaledPixels(0.5)
    }
    fn plus(self, other: Self) -> Self {
        ScaledPixels(self.0 + other.0)
    }
    fn minus(self, other: Self) -> Self {
        ScaledPixels(self.0 - other.0)
    }
    fn times(self, other: Self) -> Self {
        ScaledPixels(self.0 * other.0)
    }
    fn negated(self) -> Self {
        ScaledPixels(-self.0)
    }
    fn less_than(self, other: Self) -> bool {
        self.0 < other.0
    }
    fn at_most(self, other: Self) -> bool {
        self.0 <= other.0
    }
    fn same(self, other: Self) -> bool {
        self.0 == other.0
    }
}

fn rect(x: f32, y: f32, w: f32, h: f32) -> Bounds<ScaledPixels> {
    Bounds {
        origin: point(ScaledPixels(x), ScaledPixels(y)),
        size: size(ScaledPixels(w), ScaledPixels(h)),
    }
}

fn everywhere() -> ContentMask<ScaledPixels> {
    ContentMask::from_bounds(rect(-1000.0, -1000.0, 2000.0, 2000.0))
}

fn quad(bounds: Bounds<ScaledPixels>) -> Quad<ScaledPixels> {
    Quad {
        bounds,
        content_mask: everywhere(),
        ..Default::default()
    }
}

fn tile(index: u32, kind: AtlasTextureKind) -> AtlasTile {
    AtlasTile {
        texture_id: AtlasTextureId { index, kind },
        tile_id: TileId(0),
        padding: 0,
        bounds: Bounds::zero(),
    }
}

fn glyph(bounds: Bounds<ScaledPixels>, texture: u32) -> MonochromeSprite<ScaledPixels> {
    MonochromeSprite {
        order: 0,
        pad: 0,
        bounds,
        content_mask: everywhere(),
        color: Hsla::zero(),
        tile: tile(texture, AtlasTextureKind::Monochrome),
        transformation: TransformationMatrix::unit(),
    }
}

fn shadow(bounds: Bounds<ScaledPixels>) -> Shadow<ScaledPixels> {
    Shadow {
        order: 0,
        blur_radius: ScaledPixels(1.0),
        bounds,
        corner_radii: Corners::zero(),
        content_mask: everywhere(),
        color: Hsla::zero(),
        element_bounds: bounds,
        element_corner_radii: Corners::zero(),
        inset: 0,
        pad: 0,
    }
}

fn underline(bounds: Bounds<ScaledPixels>) -> Underline<ScaledPixels> {
    Underline {
        order: 0,
        pad: 0,
        bounds,
        content_mask: everywhere(),
        color: Hsla::zero(),
        thickness: ScaledPixels(1.0),
        wavy: true.into(),
    }
}

fn effect(
    bounds: Bounds<ScaledPixels>,
    animation: Option<EffectAnimation>,
) -> EffectPrimitive<ScaledPixels> {
    EffectPrimitive {
        instance: EffectQuad {
            bounds,
            content_mask: everywhere(),
            ..Default::default()
        },
        animation,
    }
}

fn triangle(x: f32) -> Path<ScaledPixels> {
    let at = |x: f32, y: f32| point(ScaledPixels(x), ScaledPixels(y));
    let mut path = Path::new(at(x, 0.0));
    path.line_to(at(x + 10.0, 0.0));
    path.line_to(at(x + 10.0, 10.0));
    path.set_content_mask(everywhere());
    path
}

fn all_kinds(x: f32) -> Vec<Primitive<ScaledPixels>> {
    let bounds = rect(x, 0.0, 10.0, 10.0);
    vec![
        shadow(bounds).into(),
        quad(bounds).into(),
        effect(bounds, None).into(),
        triangle(x).into(),
        underline(bounds).into(),
        glyph(bounds, 0).into(),
        SubpixelSprite {
            order: 0,
            pad: 0,
            bounds,
            content_mask: everywhere(),
            color: Hsla::zero(),
            tile: tile(0, AtlasTextureKind::Subpixel),
            transformation: TransformationMatrix::unit(),
        }
        .into(),
        PolychromeSprite {
            order: 0,
            pad: 0,
            grayscale: false.into(),
            opacity: ScaledPixels(1.0),
            bounds,
            content_mask: everywhere(),
            corner_radii: Corners::zero(),
            tile: tile(0, AtlasTextureKind::Polychrome),
        }
        .into(),
        PaintSurface {
            order: 0,
            bounds,
            content_mask: everywhere(),
            image_buffer: SurfaceHandle(17),
        }
        .into(),
    ]
}

#[test]
fn a_padded_boolean_is_zero_or_one() {
    assert_eq!(PaddedBool32::from(true).bits(), 1);
    assert_eq!(PaddedBool32::from(false).bits(), 0);
    assert_eq!(PaddedBool32::default().bits(), 0);
}

#[test]
fn later_primitives_are_above_what_they_overlap() {
    let mut scene = Scene::default();
    scene.insert_primitive(quad(rect(0.0, 0.0, 100.0, 100.0)).into());
    scene.insert_primitive(quad(rect(200.0, 0.0, 10.0, 10.0)).into());
    scene.insert_primitive(quad(rect(50.0, 50.0, 10.0, 10.0)).into());
    scene.insert_primitive(quad(rect(55.0, 55.0, 200.0, 10.0)).into());
    let orders: Vec<u32> = scene.quads.iter().map(|quad| quad.order).collect();
    assert_eq!(orders, [1, 1, 2, 3]);
}

#[test]
fn the_tree_hands_out_blocks_of_orders() {
    let mut tree = BoundsTree::new();
    assert_eq!(tree.insert(rect(0.0, 0.0, 10.0, 10.0)), 1);
    assert_eq!(tree.peek(rect(5.0, 5.0, 10.0, 10.0)), 2);
    assert_eq!(tree.insert_block(rect(5.0, 5.0, 10.0, 10.0), 7), 2);
    assert_eq!(tree.insert(rect(12.0, 12.0, 1.0, 1.0)), 10);
    assert_eq!(tree.insert(rect(0.0, 0.0, 1.0, 1.0)), 2);
    tree.clear();
    assert_eq!(tree.insert(rect(0.0, 0.0, 10.0, 10.0)), 1);
}

#[test]
fn what_a_mask_hides_leaves_no_trace_outside_a_cached_view() {
    let mut scene = Scene::default();
    let mut hidden = quad(rect(0.0, 0.0, 10.0, 10.0));
    hidden.content_mask = ContentMask::from_bounds(rect(100.0, 100.0, 10.0, 10.0));
    scene.insert_primitive(hidden.into());
    assert!(scene.quads.is_empty());
    assert_eq!(scene.len(), 0);
    // Inside one it is logged, and not drawn.
    scene.insert_primitive_clipped(hidden.into(), Some(&everywhere()), None);
    assert!(scene.quads.is_empty());
    assert_eq!(scene.len(), 1);
}

#[test]
fn a_clip_narrows_the_drawn_mask_and_not_the_logged_one() {
    let mut scene = Scene::default();
    let clip = ContentMask::from_bounds(rect(0.0, 0.0, 5.0, 5.0));
    let start = scene.len();
    scene.insert_primitive_clipped(quad(rect(0.0, 0.0, 10.0, 10.0)).into(), Some(&clip), Some(42));
    let end = scene.len();
    assert_eq!(scene.quads[0].content_mask, clip);
    assert_eq!(scene.quads[0].order, 42);
    let mut next = Scene::default();
    next.replay(start..end, &scene, &everywhere());
    assert_eq!(next.quads[0].content_mask, everywhere());
}

#[test]
fn primitives_of_a_layer_share_its_order() {
    let mut scene = Scene::default();
    scene.push_layer(rect(0.0, 0.0, 100.0, 100.0));
    scene.insert_primitive(quad(rect(0.0, 0.0, 10.0, 10.0)).into());
    scene.insert_primitive(quad(rect(5.0, 5.0, 10.0, 10.0)).into());
    scene.push_layer_hidden(rect(0.0, 0.0, 0.0, 0.0));
    scene.insert_primitive(quad(rect(5.0, 5.0, 10.0, 10.0)).into());
    scene.pop_layer();
    scene.insert_primitive(quad(rect(5.0, 5.0, 10.0, 10.0)).into());
    scene.pop_layer();
    scene.pop_layer();
    scene.insert_primitive(quad(rect(5.0, 5.0, 10.0, 10.0)).into());
    let orders: Vec<u32> = scene.quads.iter().map(|quad| quad.order).collect();
    assert_eq!(orders, [1, 1, 2, 1, 2]);
    // Two layers, three ends, and a run between any two of them.
    assert_eq!(scene.len(), 9);
}

#[test]
fn closing_a_layer_brings_the_outer_one_back() {
    let mut recorded = Scene::default();
    let start = recorded.len();
    recorded.push_layer(rect(0.0, 0.0, 10.0, 10.0));
    recorded.insert_primitive(quad(rect(0.0, 0.0, 10.0, 10.0)).into());
    recorded.pop_layer();
    let end = recorded.len();

    let mut scene = Scene::default();
    scene.push_layer(rect(0.0, 0.0, 100.0, 100.0));
    scene.insert_primitive(quad(rect(0.0, 0.0, 10.0, 10.0)).into());
    scene.push_layer(rect(0.0, 0.0, 100.0, 100.0));
    scene.insert_primitive(quad(rect(0.0, 0.0, 10.0, 10.0)).into());
    scene.replay(start..end, &recorded, &everywhere());
    scene.pop_layer();
    scene.insert_primitive(quad(rect(0.0, 0.0, 10.0, 10.0)).into());
    let orders: Vec<u32> = scene.quads.iter().map(|quad| quad.order).collect();
    assert_eq!(orders, [1, 2, 3, 1]);
}

#[test]
fn a_length_stays_a_boundary_whatever_comes_after_it() {
    let mut recorded = Scene::default();
    recorded.insert_primitive(quad(rect(0.0, 0.0, 10.0, 10.0)).into());
    let end = recorded.len();

    let mut scene = Scene::default();
    scene.insert_primitive(quad(rect(0.0, 0.0, 10.0, 10.0)).into());
    let boundary = scene.len();
    scene.replay(0..end, &recorded, &everywhere());
    scene.insert_primitive(quad(rect(20.0, 0.0, 10.0, 10.0)).into());
    scene.push_layer(rect(0.0, 0.0, 10.0, 10.0));
    scene.pop_layer();
    assert!(scene.len() > boundary);
    let mut next = Scene::default();
    next.replay(0..boundary, &scene, &everywhere());
    assert_eq!(next.quads.len(), 1);
    assert_eq!(next.quads[0].bounds, rect(0.0, 0.0, 10.0, 10.0));
}

#[test]
fn drawn_paths_are_numbered_by_their_place() {
    let mut scene = Scene::default();
    scene.insert_primitive(triangle(0.0).into());
    scene.insert_primitive(triangle(100.0).into());
    assert_eq!(scene.paths[0].id, PathId(0));
    assert_eq!(scene.paths[1].id, PathId(1));
}

#[test]
fn drawn_effects_are_scheduled() {
    let mut scene = Scene::default();
    let animation = EffectAnimation {
        frame_interval: Duration::from_millis(16),
        ends_at: None,
    };
    let mut hidden = effect(rect(0.0, 0.0, 10.0, 10.0), Some(animation));
    hidden.instance.content_mask = ContentMask::from_bounds(rect(50.0, 50.0, 1.0, 1.0));
    scene.insert_primitive_clipped(hidden.into(), Some(&everywhere()), None);
    let now = Instant { nanos: 0 };
    assert_eq!(scene.motion_schedule().active_frame_interval(now), None);
    scene.insert_primitive(effect(rect(0.0, 0.0, 10.0, 10.0), Some(animation)).into());
    assert_eq!(
        scene.motion_schedule().active_frame_interval(now),
        Some(Duration::from_millis(16))
    );
    scene.clear();
    assert_eq!(scene.motion_schedule().active_frame_interval(now), None);
}

#[test]
fn a_cleared_scene_is_as_new() {
    let mut scene = Scene::default();
    for primitive in all_kinds(0.0) {
        scene.insert_primitive(primitive);
    }
    scene.push_layer(rect(0.0, 0.0, 10.0, 10.0));
    scene.clear();
    assert_eq!(scene.len(), 0);
    assert!(scene.batches().is_empty());
    assert_eq!(
        scene.retained_motion_damage(),
        Err(RetainedMotionDamageFallback::NoEffect)
    );

    let mut new = Scene::default();
    let mut recorded = Scene::default();
    let start = recorded.len();
    for primitive in all_kinds(50.0) {
        recorded.insert_primitive(primitive);
    }
    let end = recorded.len();
    for target in [&mut scene, &mut new] {
        target.insert_primitive(quad(rect(0.0, 0.0, 10.0, 10.0)).into());
        target.push_layer(rect(0.0, 0.0, 10.0, 10.0));
        target.insert_primitive(quad(rect(5.0, 0.0, 10.0, 10.0)).into());
        target.pop_layer();
        target.replay(start..end, &recorded, &everywhere());
        target.insert_primitive(quad(rect(50.0, 0.0, 10.0, 10.0)).into());
    }
    let orders = |scene: &Scene<ScaledPixels>| -> Vec<u32> {
        scene.quads.iter().map(|quad| quad.order).collect()
    };
    assert_eq!(orders(&scene), orders(&new));
    assert_eq!(orders(&scene)[0], 1);
    assert_eq!(scene.len(), new.len());
    assert_eq!(scene.batches().len(), new.batches().len());
}

#[test]
fn every_kind_is_replayed_moved() {
    let mut scene = Scene::default();
    let start = scene.len();
    for primitive in all_kinds(0.0) {
        scene.insert_primitive_clipped(primitive, Some(&everywhere()), None);
    }
    let end = scene.len();
    assert_eq!(end - start, 9);
    let mut next = Scene::default();
    next.replay_translated(
        start..end,
        &scene,
        point(ScaledPixels(100.0), ScaledPixels(7.0)),
        &everywhere(),
    );
    let moved = rect(100.0, 7.0, 10.0, 10.0);
    assert_eq!(next.shadows[0].bounds, moved);
    assert_eq!(next.shadows[0].element_bounds, moved);
    assert_eq!(next.quads[0].bounds, moved);
    assert_eq!(next.effects[0].bounds, moved);
    assert_eq!(next.paths[0].bounds, moved);
    assert_eq!(next.paths[0].vertices[0].xy_position, moved.origin);
    assert_eq!(next.underlines[0].bounds, moved);
    assert_eq!(next.monochrome_sprites[0].bounds, moved);
    assert_eq!(next.subpixel_sprites[0].bounds, moved);
    assert_eq!(next.polychrome_sprites[0].bounds, moved);
    assert_eq!(next.surfaces[0].bounds, moved);
    assert_eq!(next.surfaces[0].image_buffer, SurfaceHandle(17));
    assert_eq!(next.len(), 9);
}

#[test]
fn a_replayed_block_keeps_its_distances_and_later_primitives_are_above_it() {
    let mut recorded = Scene::default();
    let start = recorded.len();
    recorded.insert_primitive(quad(rect(0.0, 0.0, 100.0, 100.0)).into());
    recorded.push_layer(rect(0.0, 0.0, 50.0, 50.0));
    recorded.insert_primitive(quad(rect(10.0, 10.0, 10.0, 10.0)).into());
    recorded.pop_layer();
    recorded.insert_primitive(quad(rect(15.0, 15.0, 10.0, 10.0)).into());
    let end = recorded.len();
    let before: Vec<u32> = recorded.quads.iter().map(|quad| quad.order).collect();
    assert_eq!(before, [1, 2, 3]);

    let mut next = Scene::default();
    next.insert_primitive(quad(rect(0.0, 0.0, 10.0, 10.0)).into());
    next.insert_primitive(quad(rect(0.0, 0.0, 10.0, 10.0)).into());
    next.replay(start..end, &recorded, &everywhere());
    next.insert_primitive(quad(rect(90.0, 90.0, 1.0, 1.0)).into());
    let after: Vec<u32> = next.quads.iter().map(|quad| quad.order).collect();
    assert_eq!(after, [1, 2, 3, 4, 5, 6]);
}

#[test]
fn a_replay_fits_as_long_as_orders_remain() {
    let mut recorded = Scene::default();
    let start = recorded.len();
    recorded.insert_primitive_clipped(quad(rect(0.0, 0.0, 9.0, 9.0)).into(), None, Some(1));
    recorded.insert_primitive_clipped(quad(rect(0.0, 0.0, 9.0, 9.0)).into(), None, Some(11));
    let end = recorded.len();
    let nowhere = point(ScaledPixels(0.0), ScaledPixels(0.0));
    let mut next = Scene::default();
    assert!(next.has_room_for(PrimitiveKind::default()));
    assert!(next.can_replay(start..end, &recorded, nowhere, &everywhere()));
    // Hidden, it would start above the last order.
    let elsewhere = ContentMask::from_bounds(rect(500.0, 500.0, 1.0, 1.0));
    let last = u32::MAX - 11;
    next.insert_primitive_clipped(quad(rect(0.0, 0.0, 9.0, 9.0)).into(), None, Some(last));
    assert!(next.can_replay(start..end, &recorded, nowhere, &elsewhere));
    next.insert_primitive_clipped(quad(rect(0.0, 0.0, 9.0, 9.0)).into(), None, Some(last + 1));
    assert!(!next.can_replay(start..end, &recorded, nowhere, &elsewhere));
    assert!(next.can_replay(start..start, &recorded, nowhere, &elsewhere));
    assert!(next.can_replay(start..end, &recorded, nowhere, &everywhere()));
}

#[test]
fn a_range_without_primitives_is_not_replayed() {
    let mut recorded: Scene<ScaledPixels> = Scene::default();
    let start = recorded.len();
    recorded.pop_layer();
    let end = recorded.len();
    let mut next = Scene::default();
    next.replay(start..end, &recorded, &everywhere());
    assert_eq!(next.len(), 0);
}

#[test]
fn finishing_sorts_stably_and_once() {
    let mut scene: Scene<ScaledPixels> = Scene::default();
    for (order, x) in [(3, 0.0), (1, 1.0), (3, 2.0), (1, 3.0)] {
        scene.quads.push(Quad {
            order,
            bounds: rect(x, 0.0, 1.0, 1.0),
            ..Default::default()
        });
        let mut sprite = glyph(rect(x, 0.0, 1.0, 1.0), if x == 0.0 { 9 } else { 4 });
        sprite.order = order;
        scene.monochrome_sprites.push(sprite);
    }
    scene.finish();
    let quads: Vec<(u32, f32)> = scene
        .quads
        .iter()
        .map(|quad| (quad.order, quad.bounds.origin.x.0))
        .collect();
    assert_eq!(quads, [(1, 1.0), (1, 3.0), (3, 0.0), (3, 2.0)]);
    let sprites: Vec<(u32, u32)> = scene
        .monochrome_sprites
        .iter()
        .map(|sprite| (sprite.order, sprite.tile.texture_id.index))
        .collect();
    assert_eq!(sprites, [(1, 4), (1, 4), (3, 4), (3, 9)]);
    scene.finish();
    let again: Vec<(u32, f32)> = scene
        .quads
        .iter()
        .map(|quad| (quad.order, quad.bounds.origin.x.0))
        .collect();
    assert_eq!(again, quads);
}

fn kind_and_range(batch: &PrimitiveBatch) -> (PrimitiveKind, usize, usize) {
    match batch {
        PrimitiveBatch::Shadows(range) => (PrimitiveKind::Shadow, range.start, range.end),
        PrimitiveBatch::Quads(range) => (PrimitiveKind::Quad, range.start, range.end),
        PrimitiveBatch::Effects(range) => (PrimitiveKind::Effect, range.start, range.end),
        PrimitiveBatch::Paths(range) => (PrimitiveKind::Path, range.start, range.end),
        PrimitiveBatch::Underlines(range) => (PrimitiveKind::Underline, range.start, range.end),
        PrimitiveBatch::MonochromeSprites { range, .. } => {
            (PrimitiveKind::MonochromeSprite, range.start, range.end)
        }
        PrimitiveBatch::SubpixelSprites { range, .. } => {
            (PrimitiveKind::SubpixelSprite, range.start, range.end)
        }
        PrimitiveBatch::PolychromeSprites { range, .. } => {
            (PrimitiveKind::PolychromeSprite, range.start, range.end)
        }
        PrimitiveBatch::Surfaces(range) => (PrimitiveKind::Surface, range.start, range.end),
    }
}

#[test]
fn batches_go_by_order_and_by_kind_within_an_order() {
    let mut scene = Scene::default();
    for primitive in all_kinds(0.0).into_iter().rev() {
        scene.insert_primitive_clipped(primitive, None, Some(5));
    }
    scene.insert_primitive_clipped(quad(rect(0.0, 0.0, 10.0, 10.0)).into(), None, Some(4));
    scene.insert_primitive_clipped(quad(rect(0.0, 0.0, 10.0, 10.0)).into(), None, Some(6));
    scene.finish();
    let batches: Vec<(PrimitiveKind, usize, usize)> =
        scene.batches().iter().map(kind_and_range).collect();
    assert_eq!(
        batches,
        [
            (PrimitiveKind::Quad, 0, 1),
            (PrimitiveKind::Shadow, 0, 1),
            (PrimitiveKind::Quad, 1, 2),
            (PrimitiveKind::Effect, 0, 1),
            (PrimitiveKind::Path, 0, 1),
            (PrimitiveKind::Underline, 0, 1),
            (PrimitiveKind::MonochromeSprite, 0, 1),
            (PrimitiveKind::SubpixelSprite, 0, 1),
            (PrimitiveKind::PolychromeSprite, 0, 1),
            (PrimitiveKind::Surface, 0, 1),
            (PrimitiveKind::Quad, 2, 3),
        ]
    );
}

#[test]
fn consecutive_primitives_of_a_kind_are_one_batch() {
    let mut scene = Scene::default();
    for order in 1..5 {
        scene.insert_primitive_clipped(quad(rect(0.0, 0.0, 1.0, 1.0)).into(), None, Some(order));
    }
    scene.insert_primitive_clipped(glyph(rect(0.0, 0.0, 1.0, 1.0), 0).into(), None, Some(3));
    let batches: Vec<(PrimitiveKind, usize, usize)> =
        scene.batches().iter().map(kind_and_range).collect();
    assert_eq!(
        batches,
        [
            (PrimitiveKind::Quad, 0, 3),
            (PrimitiveKind::MonochromeSprite, 0, 1),
            (PrimitiveKind::Quad, 3, 4),
        ]
    );
}

#[test]
fn a_batch_ends_only_where_it_must() {
    let mut scene = Scene::default();
    // A second order of quads, with and without a shadow that comes between.
    scene.insert_primitive_clipped(quad(rect(0.0, 0.0, 10.0, 10.0)).into(), None, Some(1));
    scene.insert_primitive_clipped(quad(rect(20.0, 0.0, 10.0, 10.0)).into(), None, Some(2));
    scene.finish();
    assert_eq!(scene.batches().len(), 1);
    scene.insert_primitive_clipped(shadow(rect(0.0, 0.0, 10.0, 10.0)).into(), None, Some(2));
    scene.finish();
    let batches: Vec<_> = scene.batches().iter().map(kind_and_range).collect();
    assert_eq!(
        batches,
        [
            (PrimitiveKind::Quad, 0, 1),
            (PrimitiveKind::Shadow, 0, 1),
            (PrimitiveKind::Quad, 1, 2),
        ]
    );
}

#[test]
fn a_batch_of_sprites_has_one_texture() {
    let mut scene = Scene::default();
    for texture in [7, 7, 8] {
        scene.insert_primitive_clipped(
            glyph(rect(0.0, 0.0, 1.0, 1.0), texture).into(),
            None,
            Some(1),
        );
    }
    let labels: Vec<String> = scene.batches().iter().map(PrimitiveBatch::label).collect();
    assert_eq!(
        labels,
        [
            "monochrome sprites (2) on atlas 7",
            "monochrome sprites (1) on atlas 8"
        ]
    );
}

#[test]
fn a_primitive_of_the_highest_order_may_be_left_out() {
    let mut scene = Scene::default();
    scene.insert_primitive_clipped(quad(rect(0.0, 0.0, 1.0, 1.0)).into(), None, Some(u32::MAX));
    assert!(scene.batches().is_empty());
    scene.insert_primitive_clipped(shadow(rect(0.0, 0.0, 1.0, 1.0)).into(), None, Some(1));
    let mut iterator = BatchIterator::new(&scene);
    assert!(matches!(iterator.next(), Some(PrimitiveBatch::Shadows(_))));
    assert!(iterator.next().is_none());
}

#[test]
fn labels_name_the_kind_and_the_number() {
    let texture_id = AtlasTextureId {
        index: 12,
        kind: AtlasTextureKind::Subpixel,
    };
    assert_eq!(PrimitiveBatch::Shadows(0..0).label(), "shadows (0)");
    assert_eq!(PrimitiveBatch::Quads(3..13).label(), "quads (10)");
    assert_eq!(PrimitiveBatch::Effects(0..1).label(), "effects (1)");
    assert_eq!(PrimitiveBatch::Paths(0..907).label(), "paths (907)");
    assert_eq!(PrimitiveBatch::Underlines(5..4).label(), "underlines (0)");
    assert_eq!(PrimitiveBatch::Surfaces(0..2).label(), "surfaces (2)");
    assert_eq!(
        PrimitiveBatch::SubpixelSprites {
            texture_id,
            range: 0..4
        }
        .label(),
        "subpixel sprites (4) on atlas 12"
    );
    assert_eq!(
        PrimitiveBatch::PolychromeSprites {
            texture_id,
            range: 0..4
        }
        .label(),
        "polychrome sprites (4) on atlas 12"
    );
}

#[test]
fn a_path_consists_of_triangles_within_its_bounds() {
    let at = |x: f32, y: f32| point(ScaledPixels(x), ScaledPixels(y));
    let mut path = Path::new(at(1.0, 2.0));
    path.line_to(at(5.0, 2.0));
    assert!(path.vertices.is_empty(), "the first line encloses nothing");
    path.line_to(at(5.0, 6.0));
    assert_eq!(path.vertices.len(), 3);
    assert_eq!(path.vertices[2].st_position, at(0.0, 1.0));
    path.curve_to(at(1.0, 6.0), at(-1.0, 9.0));
    assert_eq!(path.vertices.len(), 9);
    assert_eq!(path.vertices[7].xy_position, at(-1.0, 9.0));
    assert_eq!(path.vertices[7].st_position, at(0.5, 0.0));
    assert_eq!(path.vertices[8].st_position, at(1.0, 1.0));
    assert_eq!(path.bounds, rect(-1.0, 2.0, 6.0, 7.0));
    path.move_to(at(0.0, 0.0));
    path.line_to(at(1.0, 1.0));
    assert_eq!(path.vertices.len(), 12, "a moved path encloses from its first line");

    let scaled = path.scale(ScaledPixels(2.0));
    assert_eq!(scaled.vertices[7].xy_position, at(-2.0, 18.0));
    assert_eq!(scaled.vertices[7].st_position, at(0.5, 0.0));
    assert_eq!(scaled.bounds, rect(-2.0, 0.0, 12.0, 18.0));

    path.set_content_mask(ContentMask::from_bounds(rect(0.0, 0.0, 2.0, 100.0)));
    assert_eq!(path.clipped_bounds(), rect(0.0, 0.0, 2.0, 9.0));
    assert_eq!(path.vertices[0].content_mask, path.content_mask);
}

#[test]
fn composing_applies_the_other_transformation_first() {
    let at = |x: i32, y: i32| point(DevicePixels(x), DevicePixels(y));
    let extent = |w: i32, h: i32| -> Size<DevicePixels> { size(DevicePixels(w), DevicePixels(h)) };
    let moved = TransformationMatrix::unit().translate(at(10, 20));
    let scaled = TransformationMatrix::unit().scale(extent(2, 3));
    assert!(moved.apply(at(1, 1)) == at(11, 21));
    assert!(scaled.apply(at(1, 1)) == at(2, 3));
    assert!(moved.compose(scaled).apply(at(1, 1)) == at(12, 23));
    assert!(scaled.compose(moved).apply(at(1, 1)) == at(22, 63));
    assert!(scaled.translate(at(10, 20)).apply(at(1, 1)) == at(22, 63));
    let quarter = TransformationMatrix::unit().rotate(DevicePixels(0), DevicePixels(1));
    assert!(quarter.apply(at(3, 4)) == at(-4, 3));
    let unit: TransformationMatrix<DevicePixels> = TransformationMatrix::default();
    assert!(moved.compose(unit).apply(at(0, 0)) == at(10, 20));
    let composed = unit.compose(moved);
    assert!(composed.rotation_scale == moved.rotation_scale);
    assert!(composed.translation == moved.translation);
}
