use scene_graph::geometry::{point, size, Bounds, ContentMask};
use scene_graph::motion::{
    EffectAnimation, MotionSchedule, RetainedMotionDamage, RetainedMotionDamageFallback,
    RetainedMotionDamageHistory,
};
use scene_graph::number::Scalar;
use scene_graph::primitive::{EffectQuad, PaintSurface, Quad};
use scene_graph::scene::Scene;
use scene_graph::surface::SurfaceHandle;
use scene_graph::time::{Duration, Instant};

#[derive(Clone, Copy, Debug, PartialEq)]
struct ScaledPixels(f32);

impl Scalar for ScaledPixels {
    fn zero_spec() -> Self {
        Self::zero()
    }
    fn one_spec() -> Self {
        Self::one()
    }
    fn half_spec() -> Self {
        Self::half()
    }
    fn plus_spec(self, other: Self) -> Self {
        self.plus(other)
    }
    fn minus_spec(self, other: Self) -> Self {
        self.minus(other)
    }
    fn times_spec(self, other: Self) -> Self {
        self.times(other)
    }
    fn negated_spec(self) -> Self {
        self.negated()
    }
    fn less_than_spec(self, other: Self) -> bool {
        self.less_than(other)
    }
    fn at_most_spec(self, other: Self) -> bool {
        self.at_most(other)
    }
    fn same_spec(self, other: Self) -> bool {
        self.same(other)
    }
    fn zero() -> Self {
        ScaledPixels(0.0)
    }
    fn one() -> Self {
        ScaledPixels(1.0)
    }
    fn half() -> Self {
        ScaledPixels(0.5)
    }
    fn plus(self, other: Self) -> Self {
        ScaledPixels(self.0 + other.0)
    }
    fn minus(self, other: Self) -> Self {
        ScaledPixels(self.0 - other.0)
    }
    fn times(self, other: Self) -> Self {
        ScaledPixels(self.0 * other.0)
    }
    fn negated(self) -> Self {
        ScaledPixels(-self.0)
    }
    fn less_than(self, other: Self) -> bool {
        self.0 < other.0
    }
    fn at_most(self, other: Self) -> bool {
        self.0 <= other.0
    }
    fn same(self, other: Self) -> bool {
        self.0 == other.0
    }
}

fn later(instant: Instant, span: Duration) -> Instant {
    Instant { nanos: instant.nanos + span.as_nanos() }
}

#[test]
fn motion_schedule_uses_fastest_active_bucket() {
    let now = Instant { nanos: 5_000 };
    let mut schedule = MotionSchedule::default();
    schedule.register(EffectAnimation {
        frame_interval: Duration::from_millis(33),
        ends_at: None,
    });
    schedule.register(EffectAnimation {
        frame_interval: Duration::from_millis(16),
        ends_at: Some(later(now, Duration::from_millis(100))),
    });

    assert_eq!(
        schedule.active_frame_interval(now),
        Some(Duration::from_millis(16))
    );
    assert_eq!(
        schedule.active_frame_interval(later(now, Duration::from_millis(100))),
        Some(Duration::from_millis(33))
    );
}

#[test]
fn motion_schedule_merges_equal_cadence_without_losing_repeating_effects() {
    let now = Instant { nanos: 5_000 };
    let mut schedule = MotionSchedule::default();
    schedule.register(EffectAnimation {
        frame_interval: Duration::from_millis(33),
        ends_at: Some(later(now, Duration::from_millis(100))),
    });
    schedule.register(EffectAnimation {
        frame_interval: Duration::from_millis(33),
        ends_at: None,
    });

    assert_eq!(
        schedule.active_frame_interval(later(now, Duration::from_secs(10))),
        Some(Duration::from_millis(33))
    );
}

#[test]
fn a_schedule_without_active_animations_asks_for_no_frame() {
    let now = Instant { nanos: 5_000 };
    let mut schedule = MotionSchedule::default();
    assert_eq!(schedule.active_frame_interval(now), None);
    schedule.register(EffectAnimation {
        frame_interval: Duration::from_millis(16),
        ends_at: Some(now),
    });
    assert_eq!(schedule.active_frame_interval(now), None, "an end is exclusive");
    schedule.register(EffectAnimation {
        frame_interval: Duration::from_millis(16),
        ends_at: Some(later(now, Duration::from_millis(1))),
    });
    assert_eq!(
        schedule.active_frame_interval(now),
        Some(Duration::from_millis(16)),
        "the latest end of a cadence counts"
    );
}

fn test_bounds(x: f32, y: f32) -> Bounds<ScaledPixels> {
    Bounds::new(
        point(ScaledPixels(x), ScaledPixels(y)),
        size(ScaledPixels(16.0), ScaledPixels(16.0)),
    )
}

fn eligible_motion_scene() -> Scene<ScaledPixels> {
    let mut scene = Scene::default();
    let bounds = test_bounds(10.0, 20.0);
    scene.effects.push(EffectQuad {
        order: 3,
        kind: 0,
        bounds,
        content_mask: ContentMask::from_bounds(bounds),
        ..Default::default()
    });
    scene
}

#[test]
fn retained_motion_damage_eligibility_table() {
    let eligible = eligible_motion_scene();
    assert_eq!(
        eligible.retained_motion_damage(),
        Ok(RetainedMotionDamage {
            bounds: test_bounds(10.0, 20.0)
        })
    );

    let mut clipped = eligible_motion_scene();
    let clipped_bounds = Bounds::new(
        point(ScaledPixels(14.0), ScaledPixels(24.0)),
        size(ScaledPixels(4.0), ScaledPixels(5.0)),
    );
    clipped.effects[0].content_mask = ContentMask::from_bounds(clipped_bounds);
    assert_eq!(
        clipped.retained_motion_damage(),
        Ok(RetainedMotionDamage {
            bounds: clipped_bounds
        })
    );

    let mut multiple = eligible_motion_scene();
    let first = multiple.effects[0];
    multiple.effects.push(first);
    let mut unsupported = eligible_motion_scene();
    unsupported.effects[0].kind = 1;
    let mut surface = eligible_motion_scene();
    surface.surfaces.push(PaintSurface {
        order: 1,
        bounds: test_bounds(0.0, 0.0),
        content_mask: ContentMask::from_bounds(test_bounds(0.0, 0.0)),
        image_buffer: SurfaceHandle(1),
    });
    let mut interleaved = eligible_motion_scene();
    interleaved.quads.push(Quad {
        order: 3,
        ..Default::default()
    });

    for (name, scene, expected) in [
        (
            "multiple",
            multiple,
            RetainedMotionDamageFallback::MultipleEffects,
        ),
        (
            "unsupported",
            unsupported,
            RetainedMotionDamageFallback::UnsupportedEffect,
        ),
        (
            "surface",
            surface,
            RetainedMotionDamageFallback::ExternalSurface,
        ),
        (
            "interleaved",
            interleaved,
            RetainedMotionDamageFallback::InterleavedOrder,
        ),
    ] {
        assert_eq!(scene.retained_motion_damage(), Err(expected), "{name}");
    }
}

#[test]
fn a_scene_without_effects_has_no_motion_damage() {
    let scene: Scene<ScaledPixels> = Scene::default();
    assert_eq!(
        scene.retained_motion_damage(),
        Err(RetainedMotionDamageFallback::NoEffect)
    );
}

#[test]
fn motion_damage_allows_primitives_below_the_effect() {
    let mut scene = eligible_motion_scene();
    scene.quads.push(Quad {
        order: 2,
        ..Default::default()
    });
    assert!(scene.retained_motion_damage().is_ok());
}

#[test]
fn retained_motion_history_tracks_each_flip_chain_buffer() {
    let p0 = test_bounds(0.0, 0.0);
    let p1 = test_bounds(20.0, 0.0);
    let p2 = test_bounds(40.0, 0.0);
    let p3 = test_bounds(60.0, 0.0);
    let p4 = test_bounds(80.0, 0.0);
    let mut history = RetainedMotionDamageHistory::default();
    history.begin_scene(p0, 3);
    assert!(!history.is_coherent(3));
    history.observe_retained_full(p0, 3);
    history.observe_retained_full(p0, 3);
    assert!(history.is_coherent(3));

    assert_eq!(history.next_damage(p1), Some(p0.union(&p1)));
    history.did_present_damage(p1);
    assert_eq!(history.next_damage(p2), Some(p0.union(&p2)));
    history.did_present_damage(p2);
    assert_eq!(history.next_damage(p3), Some(p0.union(&p3)));
    history.did_present_damage(p3);
    assert_eq!(history.next_damage(p4), Some(p1.union(&p4)));
}

#[test]
fn retained_motion_history_does_not_advance_before_present_success() {
    let p0 = test_bounds(0.0, 0.0);
    let p1 = test_bounds(20.0, 0.0);
    let p2 = test_bounds(40.0, 0.0);
    let mut history = RetainedMotionDamageHistory::default();
    history.begin_scene(p0, 3);
    history.observe_retained_full(p0, 3);
    history.observe_retained_full(p0, 3);
    assert!(history.is_coherent(3));

    assert_eq!(history.next_damage(p1), Some(p0.union(&p1)));
    // Simulate a failed Present1 by deliberately not committing p1. The
    // next attempt must still target the same backbuffer's p0 contents.
    assert_eq!(history.next_damage(p2), Some(p0.union(&p2)));
}

#[test]
fn retained_motion_history_invalidation_requires_full_rewarm() {
    let p0 = test_bounds(0.0, 0.0);
    let p1 = test_bounds(20.0, 0.0);
    let mut history = RetainedMotionDamageHistory::default();
    history.begin_scene(p0, 3);
    history.observe_retained_full(p0, 3);
    history.observe_retained_full(p0, 3);
    assert!(history.is_coherent(3));

    history.invalidate();
    assert!(!history.is_coherent(3));
    assert_eq!(history.next_damage(p1), None);
    history.observe_retained_full(p0, 3);
    history.observe_retained_full(p0, 3);
    assert!(!history.is_coherent(3));
    history.observe_retained_full(p0, 3);
    assert!(history.is_coherent(3));
}

#[test]
fn a_history_without_buffers_is_never_coherent() {
    let p0 = test_bounds(0.0, 0.0);
    let mut history = RetainedMotionDamageHistory::default();
    history.begin_scene(p0, 0);
    assert!(!history.is_coherent(0));
    assert_eq!(history.next_damage(p0), None);
    history.did_present_damage(p0);
    history.observe_retained_full(p0, 0);
    assert!(!history.is_coherent(0));
}

#[test]
fn a_changed_buffer_count_starts_the_history_over() {
    let p0 = test_bounds(0.0, 0.0);
    let p1 = test_bounds(20.0, 0.0);
    let mut history = RetainedMotionDamageHistory::default();
    history.begin_scene(p0, 2);
    history.observe_retained_full(p0, 2);
    assert!(history.is_coherent(2));
    history.observe_retained_full(p1, 3);
    assert!(!history.is_coherent(2));
    assert!(!history.is_coherent(3));
    history.observe_retained_full(p1, 3);
    history.observe_retained_full(p1, 3);
    assert!(history.is_coherent(3));
    assert_eq!(history.next_damage(p0), Some(p1.union(&p0)));
}

#[test]
fn a_cloned_schedule_and_a_cloned_history_go_on_alone() {
    let mut schedule = MotionSchedule::default();
    schedule.register(EffectAnimation {
        frame_interval: Duration::from_millis(33),
        ends_at: None,
    });
    let copy = schedule.clone();
    schedule.register(EffectAnimation {
        frame_interval: Duration::from_millis(16),
        ends_at: None,
    });
    let now = Instant { nanos: 0 };
    assert_eq!(
        copy.active_frame_interval(now),
        Some(Duration::from_millis(33))
    );
    assert_eq!(
        schedule.active_frame_interval(now),
        Some(Duration::from_millis(16))
    );

    let mut history = RetainedMotionDamageHistory::default();
    history.begin_scene(test_bounds(0.0, 0.0), 2);
    let mut copy = history.clone();
    copy.observe_retained_full(test_bounds(0.0, 0.0), 2);
    assert!(copy.is_coherent(2));
    assert!(!history.is_coherent(2));
}
