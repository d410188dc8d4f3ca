use scene_graph::color::Hsla;
use scene_graph::geometry::{point, size, Bounds, ContentMask};
use scene_graph::number::Scalar;
use scene_graph::primitive::{
    AtlasTextureId, AtlasTextureKind, AtlasTile, MonochromeSprite, Quad, TileId,
};
use scene_graph::scene::Scene;
use scene_graph::transform::TransformationMatrix;

#[derive(Clone, Copy, Debug, PartialEq)]
struct ScaledPixels(f32);

impl Scalar for ScaledPixels {
    fn zero_spec() -> Self {
        Self::zero()
    }
    fn one_spec() -> Self {
        Self::one()
    }
    fn half_spec() -> Self {
        Self::half()
    }
    fn plus_spec(self, other: Self) -> Self {
        self.plus(other)
    }
    fn minus_spec(self, other: Self) -> Self {
        self.minus(other)
    }
    fn times_spec(self, other: Self) -> Self {
        self.times(other)
    }
    fn negated_spec(self) -> Self {
        self.negated()
    }
    fn less_than_spec(self, other: Self) -> bool {
        self.less_than(other)
    }
    fn at_most_spec(self, other: Self) -> bool {
        self.at_most(other)
    }
    fn same_spec(self, other: Self) -> bool {
        self.same(other)
    }
    fn zero() -> Self {
        ScaledPixels(0.0)
    }
    fn one() -> Self {
        ScaledPixels(1.0)
    }
    fn half() -> Self {
        ScaledPixels(0.5)
    }
    fn plus(self, other: Self) -> Self {
        ScaledPixels(self.0 + other.0)
    }
    fn minus(self, other: Self) -> Self {
        ScaledPixels(self.0 - other.0)
    }
    fn times(self, other: Self) -> Self {
        ScaledPixels(self.0 * other.0)
    }
    fn negated(self) -> Self {
        ScaledPixels(-self.0)
    }
    fn less_than(self, other: Self) -> bool {
        self.0 < other.0
    }
    fn at_most(self, other: Self) -> bool {
        self.0 <= other.0
    }
    fn same(self, other: Self) -> bool {
        self.0 == other.0
    }
}

fn rect(x: f32, y: f32, w: f32, h: f32) -> Bounds<ScaledPixels> {
    Bounds {
        origin: point(ScaledPixels(x), ScaledPixels(y)),
        size: size(ScaledPixels(w), ScaledPixels(h)),
    }
}

fn quad(bounds: Bounds<ScaledPixels>, mask: ContentMask<ScaledPixels>) -> Quad<ScaledPixels> {
    Quad {
        bounds,
        content_mask: mask,
        ..Default::default()
    }
}

fn sprite(
    bounds: Bounds<ScaledPixels>,
    mask: ContentMask<ScaledPixels>,
) -> MonochromeSprite<ScaledPixels> {
    MonochromeSprite {
        order: 0,
        pad: 0,
        bounds,
        content_mask: mask,
        color: Hsla::zero(),
        tile: AtlasTile {
            texture_id: AtlasTextureId {
                index: 0,
                kind: AtlasTextureKind::Monochrome,
            },
            tile_id: TileId(0),
            padding: 0,
            bounds: Bounds::zero(),
        },
        transformation: TransformationMatrix::unit(),
    }
}

#[test]
fn a_range_replayed_while_fully_hidden_keeps_its_order_when_revealed() {
    let clip = ContentMask::from_bounds(rect(0.0, 0.0, 1000.0, 1000.0));
    let pane_mask = ContentMask::from_bounds(rect(-400.0, 0.0, 400.0, 300.0));
    // A pane fully to the left of the viewport: background then content.
    let mut recorded = Scene::default();
    let start = recorded.len();
    recorded.insert_primitive_clipped(
        quad(rect(-400.0, 0.0, 400.0, 300.0), pane_mask).into(),
        Some(&clip),
        None,
    );
    recorded.insert_primitive_clipped(
        quad(rect(-300.0, 50.0, 40.0, 20.0), pane_mask).into(),
        Some(&clip),
        None,
    );
    let end = recorded.len();
    assert!(recorded.quads.is_empty(), "nothing draws while hidden");

    // Replayed while still hidden, then revealed by a second replay.
    let mut middle = Scene::default();
    let middle_start = middle.len();
    middle.replay_translated(
        start..end,
        &recorded,
        point(ScaledPixels(-50.0), ScaledPixels(0.0)),
        &clip,
    );
    let middle_end = middle.len();
    assert!(middle.quads.is_empty(), "still hidden after the first move");

    let mut revealed = Scene::default();
    revealed.replay_translated(
        middle_start..middle_end,
        &middle,
        point(ScaledPixels(500.0), ScaledPixels(0.0)),
        &clip,
    );
    assert_eq!(revealed.quads.len(), 2, "both quads draw once revealed");
    let background = revealed.quads[0];
    let content = revealed.quads[1];
    assert!(
        content.order > background.order,
        "the content stays above its pane background: {} vs {}",
        content.order,
        background.order
    );
}

#[test]
fn replay_reveals_content_recorded_fully_hidden_above_its_background() {
    // The viewport clip: x in [0, 1000).
    let clip = ContentMask::from_bounds(rect(0.0, 0.0, 1000.0, 1000.0));
    // A frame at x in [-400, 400): its left pane [-400, 0) is fully
    // hidden, its right pane [0, 400) visible.
    let frame_mask = ContentMask::from_bounds(rect(-400.0, 0.0, 800.0, 300.0));
    let left_mask = ContentMask::from_bounds(rect(-400.0, 0.0, 400.0, 300.0));
    let right_mask = ContentMask::from_bounds(rect(0.0, 0.0, 400.0, 300.0));

    let mut recorded = Scene::default();
    let start = recorded.len();
    // Frame surface, then the hidden left pane, then the visible right pane.
    recorded.insert_primitive_clipped(
        quad(rect(-400.0, 0.0, 800.0, 300.0), frame_mask).into(),
        Some(&clip),
        None,
    );
    recorded.insert_primitive_clipped(
        quad(rect(-400.0, 0.0, 400.0, 300.0), left_mask).into(),
        Some(&clip),
        None,
    );
    recorded.insert_primitive_clipped(
        sprite(rect(-300.0, 50.0, 10.0, 10.0), left_mask).into(),
        Some(&clip),
        None,
    );
    recorded.insert_primitive_clipped(
        quad(rect(0.0, 0.0, 400.0, 300.0), right_mask).into(),
        Some(&clip),
        None,
    );
    recorded.insert_primitive_clipped(
        sprite(rect(100.0, 50.0, 10.0, 10.0), right_mask).into(),
        Some(&clip),
        None,
    );
    let end = recorded.len();
    assert_eq!(
        recorded.monochrome_sprites.len(),
        1,
        "only the visible pane's glyph draws"
    );

    // The frame moves 500 px to the right: the left pane is now inside.
    let mut next = Scene::default();
    next.replay_translated(
        start..end,
        &recorded,
        point(ScaledPixels(500.0), ScaledPixels(0.0)),
        &clip,
    );
    assert_eq!(
        next.monochrome_sprites.len(),
        2,
        "both glyphs draw after the move"
    );
    let left_glyph = next
        .monochrome_sprites
        .iter()
        .find(|s| s.bounds.origin.x == ScaledPixels(200.0))
        .expect("the hidden glyph is drawn at its moved position");
    assert!(
        !left_glyph
            .bounds
            .intersect(&left_glyph.content_mask.bounds)
            .is_empty(),
        "the moved glyph is inside its mask: {:?}",
        left_glyph.content_mask.bounds
    );
    let covering = next
        .quads
        .iter()
        .filter(|q| {
            !q.bounds.intersect(&left_glyph.bounds).is_empty() && q.order >= left_glyph.order
        })
        .count();
    assert_eq!(
        covering,
        0,
        "no quad draws at or above the revealed glyph's order (glyph order {}, quads {:?})",
        left_glyph.order,
        next.quads
            .iter()
            .map(|q| (q.order, q.bounds.origin.x.0))
            .collect::<Vec<_>>()
    );
}

#[test]
fn replay_log_runs_end_on_range_boundaries_and_replay_one_to_one() {
    let mask = ContentMask::from_bounds(rect(0.0, 0.0, 100.0, 100.0));
    let quad = |x: f32| quad(rect(x, 0.0, 10.0, 10.0), mask);
    let mut scene = Scene::default();
    scene.insert_primitive(quad(0.0).into());
    scene.insert_primitive(quad(20.0).into());
    assert_eq!(scene.len(), 1, "same kind and mask join one run");
    // `len` marks a range boundary: the next primitive starts a new run.
    scene.insert_primitive(quad(40.0).into());
    scene.insert_primitive(quad(60.0).into());
    assert_eq!(scene.len(), 2);

    let mut next = Scene::default();
    next.replay(0..2, &scene, &mask);
    assert_eq!(next.len(), 2, "a replayed operation stays one operation");
    assert_eq!(next.quads.len(), 4);
}
