//! What painting does to a scene, kind by kind: what is drawn, what is logged,
//! and at which order.

use crate::bounds_tree::{
    lemma_orders_go_up, lemma_top_order_is_the_highest, next_order, top_order, DrawOrder,
};
use crate::geometry::{
    lemma_intersection_is_what_both_hold, lemma_intersection_with_what_is_around, Bounds,
    ContentMask, Point,
};
use crate::log::LogModel;
use crate::motion::{bucket_moves, distinct_cadences, lemma_with_animation_moves};
use crate::number::{ordered_numbers, Scalar};
use crate::path::PathModel;
use crate::primitive::{
    EffectPrimitive, EffectQuad, MonochromeSprite, PaintSurface, PolychromeSprite, PrimitiveKind,
    PrimitiveModel, Quad, Shadow, SubpixelSprite, Underline,
};
use crate::replay::lemma_operations_leave_the_tree;
use crate::scene::{effective_mask, DrawModel, PaintOperation, RecordModel, SceneModel};
use crate::steps::Step;
use crate::time::{Duration, Instant};
use vstd::prelude::*;

verus! {

/// Each kind is drawn from a list of its own, in which every primitive has its
/// order; sprites have a texture, and nothing else has one.
pub proof fn lemma_what_is_drawn<N: Scalar>(drawn: DrawModel<N>, i: int)
    ensures
        drawn.len(PrimitiveKind::Shadow) == drawn.shadows.len(),
        drawn.len(PrimitiveKind::Quad) == drawn.quads.len(),
        drawn.len(PrimitiveKind::Effect) == drawn.effects.len(),
        drawn.len(PrimitiveKind::Path) == drawn.paths.len(),
        drawn.len(PrimitiveKind::Underline) == drawn.underlines.len(),
        drawn.len(PrimitiveKind::MonochromeSprite) == drawn.monochrome_sprites.len(),
        drawn.len(PrimitiveKind::SubpixelSprite) == drawn.subpixel_sprites.len(),
        drawn.len(PrimitiveKind::PolychromeSprite) == drawn.polychrome_sprites.len(),
        drawn.len(PrimitiveKind::Surface) == drawn.surfaces.len(),
        drawn.order(PrimitiveKind::Shadow, i) == drawn.shadows[i].order,
        drawn.order(PrimitiveKind::Quad, i) == drawn.quads[i].order,
        drawn.order(PrimitiveKind::Effect, i) == drawn.effects[i].order,
        drawn.order(PrimitiveKind::Path, i) == drawn.paths[i].order,
        drawn.order(PrimitiveKind::Underline, i) == drawn.underlines[i].order,
        drawn.order(PrimitiveKind::MonochromeSprite, i) == drawn.monochrome_sprites[i].order,
        drawn.order(PrimitiveKind::SubpixelSprite, i) == drawn.subpixel_sprites[i].order,
        drawn.order(PrimitiveKind::PolychromeSprite, i) == drawn.polychrome_sprites[i].order,
        drawn.order(PrimitiveKind::Surface, i) == drawn.surfaces[i].order,
        drawn.texture(PrimitiveKind::Shadow, i) is None,
        drawn.texture(PrimitiveKind::Quad, i) is None,
        drawn.texture(PrimitiveKind::Effect, i) is None,
        drawn.texture(PrimitiveKind::Path, i) is None,
        drawn.texture(PrimitiveKind::Underline, i) is None,
        drawn.texture(PrimitiveKind::Surface, i) is None,
        drawn.texture(PrimitiveKind::MonochromeSprite, i) == Some(
            drawn.monochrome_sprites[i].tile.texture_id,
        ),
        drawn.texture(PrimitiveKind::SubpixelSprite, i) == Some(
            drawn.subpixel_sprites[i].tile.texture_id,
        ),
        drawn.texture(PrimitiveKind::PolychromeSprite, i) == Some(
            drawn.polychrome_sprites[i].tile.texture_id,
        ),
{
}

/// A scene that nothing was painted into has nothing to draw, no log, no
/// layers, no cadences, and no order yet.
pub proof fn lemma_a_new_scene_is_empty<N: Scalar>(kind: PrimitiveKind)
    ensures
        SceneModel::<N>::empty().drawn.len(kind) == 0,
        SceneModel::<N>::empty().record.log.len(kind) == 0,
        SceneModel::<N>::empty().record.operations.len() == 0,
        SceneModel::<N>::empty().record.tree.len() == 0,
        SceneModel::<N>::empty().record.layers.len() == 0,
        SceneModel::<N>::empty().record.schedule.len() == 0,
        SceneModel::<N>::empty().record.last_order == 0,
{
}

/// The mask that a primitive is drawn with: the effective one, or its own where
/// there is none.
pub open spec fn drawing_mask<N: Scalar>(
    primitive: PrimitiveModel<N>,
    effective: Option<ContentMask<N>>,
) -> ContentMask<N> {
    match effective {
        Some(mask) => mask,
        None => primitive.content_mask(),
    }
}

/// What a primitive shows where it is drawn with that mask.
pub open spec fn shown_part<N: Scalar>(
    primitive: PrimitiveModel<N>,
    effective: Option<ContentMask<N>>,
) -> Bounds<N> {
    primitive.bounds().intersect_spec(drawing_mask(primitive, effective).bounds)
}

/// `b` is the path `a` at an order, clipped, with every vertex where it was.
pub open spec fn is_clipped_path<N: Scalar>(
    a: PathModel<N>,
    b: PathModel<N>,
    mask: ContentMask<N>,
    order: DrawOrder,
) -> bool {
    &&& b.order == order
    &&& b.content_mask == mask
    &&& b.bounds == a.bounds
    &&& b.color == a.color
    &&& b.start == a.start
    &&& b.current == a.current
    &&& b.contour_count == a.contour_count
    &&& b.vertices.len() == a.vertices.len()
    &&& forall|i: int|
        #![trigger b.vertices[i]]
        0 <= i < a.vertices.len() ==> {
            &&& b.vertices[i].xy_position == a.vertices[i].xy_position
            &&& b.vertices[i].st_position == a.vertices[i].st_position
            &&& b.vertices[i].content_mask == mask
        }
}

/// What painting draws: of a primitive that shows something, of whatever kind,
/// one more item of the list of its kind, which is the primitive at its order
/// with nothing else changed but the mask; that is the effective one, or its
/// own where there is none. Every earlier item and every other list stays.
pub proof fn lemma_painting_draws_the_clipped_copy<N: Scalar>(
    scene: SceneModel<N>,
    primitive: PrimitiveModel<N>,
    effective: Option<ContentMask<N>>,
    given: Option<DrawOrder>,
)
    requires
        !shown_part(primitive, effective).is_empty_spec(),
    ensures
        ({
            let after = scene.painted(primitive, effective, given);
            let mask = drawing_mask(primitive, effective);
            let order = after.record.last_order;
            match primitive {
            PrimitiveModel::Shadow(a) => after.drawn == (DrawModel {
                shadows: scene.drawn.shadows.push(Shadow { order, content_mask: mask, ..a }),
                ..scene.drawn
            }),
            PrimitiveModel::Quad(a) => after.drawn == (DrawModel {
                quads: scene.drawn.quads.push(Quad { order, content_mask: mask, ..a }),
                ..scene.drawn
            }),
            PrimitiveModel::Effect(a) => after.drawn == (DrawModel {
                effects: scene.drawn.effects.push(
                    EffectQuad { order, content_mask: mask, ..a.instance },
                ),
                ..scene.drawn
            }),
            PrimitiveModel::Path(a) => {
                let b = after.drawn.paths.last();
                &&& after.drawn == (DrawModel { paths: after.drawn.paths, ..scene.drawn })
                &&& after.drawn.paths.len() == scene.drawn.paths.len() + 1
                &&& after.drawn.paths.drop_last() == scene.drawn.paths
                &&& is_clipped_path(a, b, mask, order)
                &&& b.id.0 == scene.drawn.paths.len() as usize
            },
            PrimitiveModel::Underline(a) => after.drawn == (DrawModel {
                underlines: scene.drawn.underlines.push(
                    Underline { order, content_mask: mask, ..a },
                ),
                ..scene.drawn
            }),
            PrimitiveModel::MonochromeSprite(a) => after.drawn == (DrawModel {
                monochrome_sprites: scene.drawn.monochrome_sprites.push(
                    MonochromeSprite { order, content_mask: mask, ..a },
                ),
                ..scene.drawn
            }),
            PrimitiveModel::SubpixelSprite(a) => after.drawn == (DrawModel {
                subpixel_sprites: scene.drawn.subpixel_sprites.push(
                    SubpixelSprite { order, content_mask: mask, ..a },
                ),
                ..scene.drawn
            }),
            PrimitiveModel::PolychromeSprite(a) => after.drawn == (DrawModel {
                polychrome_sprites: scene.drawn.polychrome_sprites.push(
                    PolychromeSprite { order, content_mask: mask, ..a },
                ),
                ..scene.drawn
            }),
            PrimitiveModel::Surface(a) => after.drawn == (DrawModel {
                surfaces: scene.drawn.surfaces.push(
                    PaintSurface { order, content_mask: mask, ..a },
                ),
                ..scene.drawn
            }),
            }
        }),
{
    let after = scene.painted(primitive, effective, given);
    if primitive is Path {
        assert(after.drawn.paths.drop_last() =~= scene.drawn.paths);
    }
}

/// What painting does not draw: where the mask shows nothing of a primitive,
/// the draw lists and the cadences stay as they are, and without an effective
/// mask so does everything else.
pub proof fn lemma_painting_draws_nothing_hidden<N: Scalar>(
    scene: SceneModel<N>,
    primitive: PrimitiveModel<N>,
    effective: Option<ContentMask<N>>,
    given: Option<DrawOrder>,
)
    requires
        shown_part(primitive, effective).is_empty_spec(),
    ensures
        scene.painted(primitive, effective, given).drawn == scene.drawn,
        scene.painted(primitive, effective, given).record.schedule == scene.record.schedule,
        effective is None ==> scene.painted(primitive, effective, given) == scene,
{
}

/// What painting logs: of a primitive that shows something or is painted under
/// an effective mask, one more item of the log of its kind, which is the
/// primitive as it was given, with its own mask, at its order. Every earlier
/// item and every other list stays.
pub proof fn lemma_painting_logs_what_was_given<N: Scalar>(
    scene: SceneModel<N>,
    primitive: PrimitiveModel<N>,
    effective: Option<ContentMask<N>>,
    given: Option<DrawOrder>,
)
    requires
        !shown_part(primitive, effective).is_empty_spec() || effective is Some,
    ensures
        ({
            let after = scene.painted(primitive, effective, given);
            let order = after.record.last_order;
            match primitive {
            PrimitiveModel::Shadow(a) => after.record.log == (LogModel {
                shadows: scene.record.log.shadows.push(
                    Shadow { order, ..a },
                ),
                ..scene.record.log
            }),
            PrimitiveModel::Quad(a) => after.record.log == (LogModel {
                quads: scene.record.log.quads.push(
                    Quad { order, ..a },
                ),
                ..scene.record.log
            }),
            PrimitiveModel::Effect(a) => after.record.log == (LogModel {
                effects: scene.record.log.effects.push(
                    EffectPrimitive {
                        instance: EffectQuad { order, ..a.instance },
                        ..a
                    },
                ),
                ..scene.record.log
            }),
            PrimitiveModel::Path(a) => after.record.log == (LogModel {
                paths: scene.record.log.paths.push(
                    PathModel { order, ..a },
                ),
                ..scene.record.log
            }),
            PrimitiveModel::Underline(a) => after.record.log == (LogModel {
                underlines: scene.record.log.underlines.push(
                    Underline { order, ..a },
                ),
                ..scene.record.log
            }),
            PrimitiveModel::MonochromeSprite(a) => after.record.log == (LogModel {
                monochrome_sprites: scene.record.log.monochrome_sprites.push(
                    MonochromeSprite { order, ..a },
                ),
                ..scene.record.log
            }),
            PrimitiveModel::SubpixelSprite(a) => after.record.log == (LogModel {
                subpixel_sprites: scene.record.log.subpixel_sprites.push(
                    SubpixelSprite { order, ..a },
                ),
                ..scene.record.log
            }),
            PrimitiveModel::PolychromeSprite(a) => after.record.log == (LogModel {
                polychrome_sprites: scene.record.log.polychrome_sprites.push(
                    PolychromeSprite { order, ..a },
                ),
                ..scene.record.log
            }),
            PrimitiveModel::Surface(a) => after.record.log == (LogModel {
                surfaces: scene.record.log.surfaces.push(
                    PaintSurface { order, ..a },
                ),
                ..scene.record.log
            }),
            }
        }),
        !scene.painted(primitive, effective, given).record.sealed,
        scene.painted(primitive, effective, given).record.layers == scene.record.layers,
{
}

/// Which order painting gives: the given one; else, to what is hidden, the one
/// above the last; else, within a layer, the layer's; else one above the
/// highest order among what was placed before and overlaps what it shows, which
/// is then placed there itself.
pub proof fn lemma_painting_goes_above_what_it_overlaps<N: Scalar>(
    scene: SceneModel<N>,
    primitive: PrimitiveModel<N>,
    effective: Option<ContentMask<N>>,
    given: Option<DrawOrder>,
)
    requires
        !shown_part(primitive, effective).is_empty_spec() || effective is Some,
    ensures
        ({
            let after = scene.painted(primitive, effective, given);
            let order = after.record.last_order;
            let part = shown_part(primitive, effective);
            let tree = scene.record.tree;
            let asked = given is None && !part.is_empty_spec() && scene.record.layers.len() == 0;
            &&& given is Some ==> order == given->0
            &&& given is None && part.is_empty_spec() ==> {
                ||| order == scene.record.last_order + 1
                ||| order == u32::MAX && scene.record.last_order == u32::MAX
            }
            &&& given is None && !part.is_empty_spec() && scene.record.layers.len() > 0 ==> order
                == scene.record.layers.last()
            &&& asked ==> {
                &&& is_above_all(tree, part, order)
                &&& after.record.tree == tree.push((part, order))
            }
            &&& !asked ==> after.record.tree == tree
        }),
{
    let part = shown_part(primitive, effective);
    lemma_placed_above_all(scene.record.tree, part);
    lemma_orders_go_up(scene.record.last_order, 0);
}

/// `order` is the lowest order above every entry that overlaps `part`, as far as
/// there is one: 1 where none does.
pub open spec fn is_above_all<N: Scalar>(
    entries: Seq<(Bounds<N>, DrawOrder)>,
    part: Bounds<N>,
    order: DrawOrder,
) -> bool {
    &&& forall|i: int|
        0 <= i < entries.len() && (#[trigger] entries[i]).0.intersects_spec(part)
            ==> entries[i].1 < order || entries[i].1 == u32::MAX
    &&& order > 0
    &&& order > 1 ==> exists|i: int|
        0 <= i < entries.len() && (#[trigger] entries[i]).0.intersects_spec(part) && (
        entries[i].1 == order - 1 || entries[i].1 == u32::MAX)
    &&& order == u32::MAX || forall|i: int|
        0 <= i < entries.len() && (#[trigger] entries[i]).0.intersects_spec(part)
            ==> entries[i].1 < order
}

/// The order above the highest one below some bounds is such an order.
pub proof fn lemma_placed_above_all<N: Scalar>(
    entries: Seq<(Bounds<N>, DrawOrder)>,
    part: Bounds<N>,
)
    ensures
        is_above_all(
            entries,
            part,
            next_order(top_order(entries, part)),
        ),
{
    lemma_top_order_is_the_highest(entries, part);
    lemma_orders_go_up(top_order(entries, part), 0);
}

/// How the replay log grows: a primitive joins the last run if nothing sealed
/// it, it is of the same kind and mask and ends where the primitive is logged,
/// and then makes it one longer; else it is a new run of one primitive.
/// Earlier operations stay.
pub proof fn lemma_painting_extends_the_log_by_one<N: Scalar>(
    scene: SceneModel<N>,
    primitive: PrimitiveModel<N>,
    effective: Option<ContentMask<N>>,
    given: Option<DrawOrder>,
)
    requires
        !shown_part(primitive, effective).is_empty_spec() || effective is Some,
        scene.record.log.len(primitive.kind()) < u32::MAX,
    ensures
        ({
            let (before, after) = (
                scene.record.operations,
                scene.painted(primitive, effective, given).record.operations,
            );
            let (kind, mask) = (primitive.kind(), primitive.content_mask());
            let index = scene.record.log.len(kind);
            let joins = before.len() > 0 && !scene.record.sealed && match before.last() {
                PaintOperation::Run { kind: run_kind, start, len, mask: run_mask } => run_kind
                    == kind && start + len == index && run_mask.same_spec(mask),
                _ => false,
            };
            &&& joins ==> {
                &&& after.len() == before.len()
                &&& after.drop_last() == before.drop_last()
                &&& after.last() == (PaintOperation::Run {
                    kind,
                    start: before.last()->start,
                    len: (before.last()->len + 1) as u32,
                    mask: before.last()->mask,
                })
            }
            &&& !joins ==> {
                &&& after.len() == before.len() + 1
                &&& after.drop_last() == before
                &&& after.last() is Run
                &&& after.last()->kind == kind
                &&& after.last()->start == index
                &&& after.last()->len == 1
                &&& after.last()->mask == mask
            }
        }),
{
    let before = scene.record.operations;
    let after = scene.painted(primitive, effective, given).record.operations;
    if after.len() == before.len() {
        assert(after.drop_last() =~= before.drop_last());
    } else {
        assert(after.drop_last() =~= before);
    }
}

/// Primitives of one kind and mask that are painted in a row are one operation,
/// unless the length of the log is taken between them.
pub proof fn lemma_a_row_is_one_run<N: Scalar>(
    scene: SceneModel<N>,
    a: PrimitiveModel<N>,
    b: PrimitiveModel<N>,
    clip: ContentMask<N>,
    other: ContentMask<N>,
    given: Option<DrawOrder>,
)
    requires
        scene.record.wf(),
        a.kind() == b.kind(),
        a.content_mask() == b.content_mask(),
        b.content_mask().same_spec(b.content_mask()),
        scene.record.log.len(a.kind()) + 1 < u32::MAX,
        scene.record.sealed,
    ensures
        ({
            let one = scene.painted(a, Some(clip), given);
            &&& one.record.operations.len() == scene.record.operations.len() + 1
            &&& one.painted(b, Some(other), given).record.operations.len()
                == one.record.operations.len()
            &&& one.seal().painted(b, Some(other), given).record.operations.len()
                == one.record.operations.len() + 1
        }),
{
    let one = scene.painted(a, Some(clip), given);
    lemma_painting_extends_the_log_by_one(scene, a, Some(clip), given);
    lemma_painting_logs_what_was_given(scene, a, Some(clip), given);
    assert(one.record.log.len(a.kind()) == scene.record.log.len(a.kind()) + 1);
    lemma_painting_extends_the_log_by_one(one, b, Some(other), given);
    lemma_painting_extends_the_log_by_one(one.seal(), b, Some(other), given);
}

/// An effect that is drawn keeps its cadence going as long as its animation
/// does, and leaves the others as they are; whatever is drawn without an
/// animation leaves all of them as they are.
pub proof fn lemma_painting_schedules_what_moves<N: Scalar>(
    scene: SceneModel<N>,
    primitive: PrimitiveModel<N>,
    effective: Option<ContentMask<N>>,
    given: Option<DrawOrder>,
    interval: Duration,
    now: Instant,
)
    requires
        !shown_part(primitive, effective).is_empty_spec(),
        distinct_cadences(scene.record.schedule),
    ensures
        ({
            let after = scene.painted(primitive, effective, given).record.schedule;
            match primitive {
                PrimitiveModel::Effect(effect) => match effect.animation {
                    Some(animation) => {
                        &&& distinct_cadences(after)
                        &&& bucket_moves(after, interval, now) <==> {
                            ||| bucket_moves(scene.record.schedule, interval, now)
                            ||| animation.frame_interval == interval && (
                            animation.ends_at matches Some(end) ==> now.nanos < end.nanos)
                        }
                    },
                    None => after == scene.record.schedule,
                },
                _ => after == scene.record.schedule,
            }
        }),
{
    if let PrimitiveModel::Effect(effect) = primitive {
        if let Some(animation) = effect.animation {
            lemma_with_animation_moves(scene.record.schedule, animation, interval, now);
        }
    }
}

/// A layer is logged where it is opened, with its bounds and its order, which is
/// above what the bounds overlap, or, where it is hidden, above the last; it is
/// logged again where it is closed. It draws nothing itself.
pub proof fn lemma_layers_are_logged<N: Scalar>(scene: SceneModel<N>, bounds: Bounds<N>)
    ensures
        ({
            let placed = scene.after(Step::PushLayer(bounds));
            let hidden = scene.after(Step::PushLayerHidden(bounds));
            let closed = scene.after(Step::PopLayer);
            let operations = scene.record.operations;
            &&& is_above_all(scene.record.tree, bounds, placed.record.last_order)
            &&& placed.record.tree == scene.record.tree.push((bounds, placed.record.last_order))
            &&& placed.record.operations == operations.push(
                PaintOperation::StartLayer(bounds, placed.record.last_order),
            )
            &&& placed.record.layers == scene.record.layers.push(placed.record.last_order)
            &&& hidden.record.last_order == scene.record.last_order + 1
                || hidden.record.last_order == u32::MAX && scene.record.last_order == u32::MAX
            &&& hidden.record.tree == scene.record.tree
            &&& hidden.record.operations == operations.push(
                PaintOperation::StartLayer(bounds, hidden.record.last_order),
            )
            &&& hidden.record.layers == scene.record.layers.push(hidden.record.last_order)
            &&& closed.record.operations == operations.push(PaintOperation::EndLayer)
            &&& scene.record.layers.len() > 0 ==> closed.record.layers
                == scene.record.layers.drop_last()
            &&& scene.record.layers.len() == 0 ==> closed.record.layers.len() == 0
            &&& closed.record.tree == scene.record.tree
            &&& closed.record.last_order == scene.record.last_order
            &&& placed.drawn == scene.drawn && placed.record.log == scene.record.log
            &&& hidden.drawn == scene.drawn && hidden.record.log == scene.record.log
            &&& closed.drawn == scene.drawn && closed.record.log == scene.record.log
            &&& placed.record.schedule == scene.record.schedule
            &&& hidden.record.schedule == scene.record.schedule
            &&& closed.record.schedule == scene.record.schedule
        }),
{
    lemma_placed_above_all(scene.record.tree, bounds);
    lemma_orders_go_up(scene.record.last_order, 0);
}

/// To take the length changes nothing but that the next primitive starts a new
/// operation.
pub proof fn lemma_taking_the_length_only_seals<N: Scalar>(scene: SceneModel<N>)
    ensures
        scene.after(Step::Len).record.sealed,
        scene.after(Step::Len).drawn == scene.drawn,
        scene.after(Step::Len) == (SceneModel {
            record: RecordModel { sealed: true, ..scene.record },
            drawn: scene.drawn,
        }),
{
}

proof fn lemma_the_tree_grows<N: Scalar>(scene: SceneModel<N>, steps: Seq<Step<N>>, i: int)
    requires
        0 <= i < scene.record.tree.len(),
    ensures
        i < scene.after_all(steps).record.tree.len(),
        scene.after_all(steps).record.tree[i] == scene.record.tree[i],
    decreases steps.len(),
{
    if steps.len() > 0 {
        let before = steps.drop_last();
        lemma_the_tree_grows(scene, before, i);
        let here = scene.after_all(before);
        if let Step::Replay(replay) = steps.last() {
            if !replay.is_void() {
                lemma_operations_leave_the_tree(
                    replay,
                    replay.announced(here),
                    replay.base(here),
                    replay.operations.len(),
                );
            }
        }
    }
}

/// Whatever is painted, layered and replayed between, a primitive that is
/// painted later, outside of layers and without a given order, is drawn above
/// every earlier one that was painted so and that it overlaps in what they
/// show; only the highest order there is has none above it.
pub proof fn lemma_later_painting_is_above<N: Scalar>(
    scene: SceneModel<N>,
    earlier: PrimitiveModel<N>,
    earlier_mask: Option<ContentMask<N>>,
    steps: Seq<Step<N>>,
    later: PrimitiveModel<N>,
    later_mask: Option<ContentMask<N>>,
)
    requires
        scene.record.layers.len() == 0,
        !shown_part(earlier, earlier_mask).is_empty_spec(),
        !shown_part(later, later_mask).is_empty_spec(),
        shown_part(earlier, earlier_mask).intersects_spec(shown_part(later, later_mask)),
        scene.painted(earlier, earlier_mask, None).after_all(steps).record.layers.len() == 0,
    ensures
        ({
            let first = scene.painted(earlier, earlier_mask, None);
            let second = first.after_all(steps).painted(later, later_mask, None);
            first.record.last_order < second.record.last_order || first.record.last_order
                == u32::MAX
        }),
{
    let first = scene.painted(earlier, earlier_mask, None);
    let here = first.after_all(steps);
    let at = scene.record.tree.len() as int;
    lemma_painting_goes_above_what_it_overlaps(scene, earlier, earlier_mask, None);
    assert(first.record.tree[at] == (
        shown_part(earlier, earlier_mask),
        first.record.last_order,
    ));
    lemma_the_tree_grows(first, steps, at);
    lemma_painting_goes_above_what_it_overlaps(here, later, later_mask, None);
    assert(here.record.tree[at].0.intersects_spec(shown_part(later, later_mask)));
}

/// Something that is drawn, other than the effects, is at `order` or above it.
pub open spec fn something_reaches<N>(drawn: DrawModel<N>, order: DrawOrder) -> bool {
    ||| exists|i: int| 0 <= i < drawn.shadows.len() && (#[trigger] drawn.shadows[i]).order >= order
    ||| exists|i: int| 0 <= i < drawn.quads.len() && (#[trigger] drawn.quads[i]).order >= order
    ||| exists|i: int| 0 <= i < drawn.paths.len() && (#[trigger] drawn.paths[i]).order >= order
    ||| exists|i: int|
        0 <= i < drawn.underlines.len() && (#[trigger] drawn.underlines[i]).order >= order
    ||| exists|i: int|
        0 <= i < drawn.monochrome_sprites.len() && (
        #[trigger] drawn.monochrome_sprites[i]).order >= order
    ||| exists|i: int|
        0 <= i < drawn.subpixel_sprites.len() && (#[trigger] drawn.subpixel_sprites[i]).order
            >= order
    ||| exists|i: int|
        0 <= i < drawn.polychrome_sprites.len() && (
        #[trigger] drawn.polychrome_sprites[i]).order >= order
}

proof fn lemma_interleaved_is_reached<N: Scalar>(drawn: DrawModel<N>, order: DrawOrder)
    requires
        drawn.surfaces.len() == 0,
    ensures
        drawn.interleaved(order) <==> something_reaches(drawn, order),
{
    if drawn.interleaved(order) {
        let (kind, i) = choose|kind: PrimitiveKind, i: int|
            !(kind is Effect) && 0 <= i < drawn.len(kind) && #[trigger] drawn.order(kind, i)
                >= order;
        match kind {
            PrimitiveKind::Shadow => assert(drawn.shadows[i].order >= order),
            PrimitiveKind::Quad => assert(drawn.quads[i].order >= order),
            PrimitiveKind::Path => assert(drawn.paths[i].order >= order),
            PrimitiveKind::Underline => assert(drawn.underlines[i].order >= order),
            PrimitiveKind::MonochromeSprite => assert(drawn.monochrome_sprites[i].order >= order),
            PrimitiveKind::SubpixelSprite => assert(drawn.subpixel_sprites[i].order >= order),
            PrimitiveKind::PolychromeSprite => assert(drawn.polychrome_sprites[i].order >= order),
            _ => {},
        }
    }
    if something_reaches(drawn, order) {
        if exists|i: int|
            0 <= i < drawn.shadows.len()
                && (#[trigger] drawn.shadows[i]).order >= order
        {
            let i = choose|i: int|
                0 <= i < drawn.shadows.len() && (#[trigger] drawn.shadows[i]).order >= order;
            assert(drawn.order(PrimitiveKind::Shadow, i) >= order);
        }
        if exists|i: int| 0 <= i < drawn.quads.len() && (#[trigger] drawn.quads[i]).order >= order {
            let i = choose|i: int|
                0 <= i < drawn.quads.len() && (#[trigger] drawn.quads[i]).order >= order;
            assert(drawn.order(PrimitiveKind::Quad, i) >= order);
        }
        if exists|i: int| 0 <= i < drawn.paths.len() && (#[trigger] drawn.paths[i]).order >= order {
            let i = choose|i: int|
                0 <= i < drawn.paths.len() && (#[trigger] drawn.paths[i]).order >= order;
            assert(drawn.order(PrimitiveKind::Path, i) >= order);
        }
        if exists|i: int|
            0 <= i < drawn.underlines.len()
                && (#[trigger] drawn.underlines[i]).order >= order
        {
            let i = choose|i: int|
                0 <= i < drawn.underlines.len() && (#[trigger] drawn.underlines[i]).order >= order;
            assert(drawn.order(PrimitiveKind::Underline, i) >= order);
        }
        if exists|i: int|
            0 <= i < drawn.monochrome_sprites.len()
                && (#[trigger] drawn.monochrome_sprites[i]).order >= order
        {
            let i = choose|i: int|
                0 <= i < drawn.monochrome_sprites.len()
                    && (#[trigger] drawn.monochrome_sprites[i]).order >= order;
            assert(drawn.order(PrimitiveKind::MonochromeSprite, i) >= order);
        }
        if exists|i: int|
            0 <= i < drawn.subpixel_sprites.len()
                && (#[trigger] drawn.subpixel_sprites[i]).order >= order
        {
            let i = choose|i: int|
                0 <= i < drawn.subpixel_sprites.len()
                    && (#[trigger] drawn.subpixel_sprites[i]).order >= order;
            assert(drawn.order(PrimitiveKind::SubpixelSprite, i) >= order);
        }
        if exists|i: int|
            0 <= i < drawn.polychrome_sprites.len()
                && (#[trigger] drawn.polychrome_sprites[i]).order >= order
        {
            let i = choose|i: int|
                0 <= i < drawn.polychrome_sprites.len()
                    && (#[trigger] drawn.polychrome_sprites[i]).order >= order;
            assert(drawn.order(PrimitiveKind::PolychromeSprite, i) >= order);
        }
    }
}

/// When a retained scene qualifies for motion damage, and when it does not: the
/// first that holds of no effect, more than one, an external surface, an effect
/// that is no spinner, and something at or above the effect is the reason
/// against it.
pub proof fn lemma_what_qualifies_for_motion_damage<N: Scalar>(drawn: DrawModel<N>)
    ensures
        ({
            let damage = drawn.motion_damage();
            let count = drawn.effects.len();
            let surface = drawn.surfaces.len() > 0;
            let spinner = drawn.effects[0].kind == 0;
            let covered = something_reaches(drawn, drawn.effects[0].order);
            &&& damage is Ok <==> count == 1 && !surface && spinner && !covered
            &&& count == 0 ==> damage->Err_0 is NoEffect
            &&& count > 1 ==> damage->Err_0 is MultipleEffects
            &&& count == 1 && surface ==> damage->Err_0 is ExternalSurface
            &&& count == 1 && !surface && !spinner ==> damage->Err_0 is UnsupportedEffect
            &&& count == 1 && !surface && spinner && covered
                ==> damage->Err_0 is InterleavedOrder
        }),
{
    if drawn.surfaces.len() == 0 {
        lemma_interleaved_is_reached(drawn, drawn.effects[0].order);
    }
}

/// What motion damages where a scene qualifies: exactly the points that lie in
/// the bounds of the only effect and in those of its mask, wherever differences
/// are exact; an effect that lies within its mask damages its own bounds, from
/// corner to corner.
pub proof fn lemma_motion_damages_what_the_effect_shows<N: Scalar>(
    drawn: DrawModel<N>,
    point: Point<N>,
)
    requires
        ordered_numbers::<N>(),
        drawn.motion_damage() is Ok,
    ensures
        ({
            let effect = drawn.effects[0];
            let damage = drawn.motion_damage()->Ok_0.bounds;
            let mask = effect.content_mask.bounds;
            &&& damage.contains_spec(point) <==> effect.bounds.contains_spec(point)
                && mask.contains_spec(point)
            &&& mask.contains_spec(effect.bounds.origin) && mask.contains_spec(
                effect.bounds.bottom_right_spec(),
            ) ==> {
                &&& damage.origin == effect.bounds.origin
                &&& damage.bottom_right_spec() == effect.bounds.bottom_right_spec()
            }
        }),
{
    let effect = drawn.effects[0];
    let mask = effect.content_mask.bounds;
    lemma_intersection_is_what_both_hold(effect.bounds, mask, point);
    if mask.contains_spec(effect.bounds.origin) && mask.contains_spec(
        effect.bounds.bottom_right_spec(),
    ) {
        lemma_intersection_with_what_is_around(effect.bounds, mask);
    }
}

/// Under a clip a primitive is drawn with the mask that shows exactly what the
/// clip and its own mask show, wherever differences are exact; without one there
/// is no such mask.
pub proof fn lemma_a_clip_shows_what_both_show<N: Scalar>(
    clip: ContentMask<N>,
    own: ContentMask<N>,
    point: Point<N>,
)
    requires
        ordered_numbers::<N>(),
    ensures
        effective_mask(None, own) is None,
        effective_mask(Some(clip), own) matches Some(mask) && (mask.bounds.contains_spec(point)
            <==> clip.bounds.contains_spec(point) && own.bounds.contains_spec(point)),
{
    lemma_intersection_is_what_both_hold(clip.bounds, own.bounds, point);
}

} // verus!
